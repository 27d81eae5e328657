//! What each type takes off the input and puts out, byte for byte.

use vstd::prelude::*;

use crate::bytes::Taken;
use crate::codec::DispatchInfo;
use crate::run::Registry;
use crate::segment::{segmenter_of, Segment, Segmenter, System};
use crate::segmenter::default_registry;

verus! {

/// Every `width` bytes are a value: they are taken and put out as they are. Of fewer bytes nothing
/// is taken.
pub open spec fn reads_number(segmenter: Segmenter, width: nat) -> bool {
    &&& forall|input: Seq<u8>|
        input.len() >= width ==> #[trigger] segmenter(input) == (Taken {
            used: width,
            value: Some(input.take(width as int)),
        })
    &&& forall|input: Seq<u8>|
        input.len() < width ==> #[trigger] segmenter(input) == (Taken::<Seq<u8>> {
            used: 0,
            value: None,
        })
}

/// Every `width` bytes are a value: they are taken and put out as they are. Fewer bytes are used up
/// for nothing.
pub open spec fn reads_array(segmenter: Segmenter, width: nat) -> bool {
    &&& forall|input: Seq<u8>|
        input.len() >= width ==> #[trigger] segmenter(input) == (Taken {
            used: width,
            value: Some(input.take(width as int)),
        })
    &&& forall|input: Seq<u8>|
        input.len() < width ==> #[trigger] segmenter(input) == (Taken::<Seq<u8>> {
            used: input.len(),
            value: None,
        })
}

/// The bytes 0 and 1 are values: they are taken and put out as they are. Any other byte is taken
/// for nothing.
pub open spec fn reads_flag(segmenter: Segmenter) -> bool {
    forall|input: Seq<u8>| #[trigger]
        segmenter(input) == if input.len() == 0 {
            Taken { used: 0, value: None }
        } else if input[0] == 0 || input[0] == 1 {
            Taken { used: 1, value: Some(seq![input[0]]) }
        } else {
            Taken { used: 1, value: None }
        }
}

/// Ten bytes are a value where the ninth is at most 2 and the tenth at most 1: they are taken and
/// put out as they are. Else the bytes up to the first that is wrong or missing are taken for
/// nothing, the first eight together.
pub open spec fn reads_info(segmenter: Segmenter) -> bool {
    forall|input: Seq<u8>| #[trigger]
        segmenter(input) == if input.len() >= 10 && input[8] <= 2 && input[9] <= 1 {
            Taken { used: 10, value: Some(input.take(10)) }
        } else if input.len() >= 10 && input[8] <= 2 {
            Taken { used: 10, value: None }
        } else if input.len() >= 9 {
            Taken { used: 9, value: None }
        } else if input.len() == 8 {
            Taken { used: 8, value: None }
        } else {
            Taken { used: 0, value: None }
        }
}

/// The segmenter of a type does with every input what the type does.
pub proof fn law_segmenter_of<U: Segment>(input: Seq<u8>)
    ensures
        segmenter_of::<U>()(input) == U::segmented(input),
{
}

/// A value of no width is there in every input.
pub proof fn law_unit(input: Seq<u8>)
    ensures
        segmenter_of::<()>()(input) == (Taken { used: 0, value: Some(Seq::<u8>::empty()) }),
{
}

/// Truth values are single bytes of 0 or 1.
pub proof fn law_flag()
    ensures
        reads_flag(segmenter_of::<bool>()),
{
    assert forall|input: Seq<u8>| #[trigger]
        segmenter_of::<bool>()(input) == if input.len() == 0 {
            Taken { used: 0, value: None }
        } else if input[0] == 0 || input[0] == 1 {
            Taken { used: 1, value: Some(seq![input[0]]) }
        } else {
            Taken { used: 1, value: None }
        } by {
        if input.len() > 0 {
            assert(input.take(1) =~= seq![input[0]]);
        }
    }
}

/// Any bytes are a number of their width.
pub proof fn law_numbers()
    ensures
        reads_number(segmenter_of::<u8>(), 1),
        reads_number(segmenter_of::<u32>(), 4),
        reads_number(segmenter_of::<u64>(), 8),
        reads_number(segmenter_of::<u128>(), 16),
{
}

/// Any bytes are an array of their length.
pub proof fn law_arrays()
    ensures
        reads_array(segmenter_of::<[u8; 16]>(), 16),
        reads_array(segmenter_of::<[u8; 20]>(), 20),
        reads_array(segmenter_of::<[u8; 32]>(), 32),
        reads_array(segmenter_of::<[u8; 64]>(), 64),
{
}

/// What a chain reports of a dispatched call is a weight of any eight bytes, one of three classes
/// and whether fees are paid.
pub proof fn law_info()
    ensures
        reads_info(segmenter_of::<DispatchInfo>()),
{
}

/// A pair is its first part and, right after it, its second: both are put out in this order. Where
/// either cannot be read nothing is put out, and what was taken up to there stays taken.
pub proof fn law_pair<A: Segment, B: Segment>(input: Seq<u8>)
    ensures
        ({
            let pair = segmenter_of::<(A, B)>()(input);
            let first = A::segmented(input);
            let second = B::segmented(input.skip(first.used as int));
            &&& first.value is None ==> pair == (Taken::<Seq<u8>> {
                used: first.used,
                value: None,
            })
            &&& first.value is Some ==> pair.used == first.used + second.used
            &&& pair.value is Some <==> first.value is Some && second.value is Some
            &&& pair.value matches Some(bytes) ==> bytes == first.value->Some_0
                + second.value->Some_0
        }),
{
}

/// Lists of bytes are read at once, lists of wider integers at once or value by value, and lists of
/// other types value by value.
pub proof fn law_lists(width: Option<usize>)
    ensures
        u8::listed_by(width) <==> width == Some(1usize),
        u32::listed_by(width) <==> width == Some(4usize) || width == None::<usize>,
        u64::listed_by(width) <==> width == Some(8usize) || width == None::<usize>,
        u128::listed_by(width) <==> width == Some(16usize) || width == None::<usize>,
        <()>::listed_by(width) <==> width == None::<usize>,
        bool::listed_by(width) <==> width == None::<usize>,
        <[u8; 16]>::listed_by(width) <==> width == None::<usize>,
        <[u8; 20]>::listed_by(width) <==> width == None::<usize>,
        <[u8; 32]>::listed_by(width) <==> width == None::<usize>,
        <[u8; 64]>::listed_by(width) <==> width == None::<usize>,
        DispatchInfo::listed_by(width) <==> width == None::<usize>,
{
}

/// Lists of pairs are read pair by pair.
pub proof fn law_lists_of_pairs<A: Segment, B: Segment>(width: Option<usize>)
    ensures
        <(A, B)>::listed_by(width) <==> width == None::<usize>,
{
}

/// The names of the types that are registered from the start are told apart by their lengths and
/// first letters.
proof fn lemma_names()
    ensures
        "PhantomData"@.len() == 11 && "PhantomData"@[0] == 'P',
        "DispatchInfo"@.len() == 12 && "DispatchInfo"@[0] == 'D',
        "bool"@.len() == 4 && "bool"@[0] == 'b',
        "ReferendumIndex"@.len() == 15 && "ReferendumIndex"@[0] == 'R',
        "Kind"@.len() == 4 && "Kind"@[0] == 'K',
        "AuthorityId"@.len() == 11 && "AuthorityId"@[0] == 'A',
        "u8"@.len() == 2,
        "u32"@.len() == 3 && "u32"@[1] == '3',
        "u64"@.len() == 3 && "u64"@[1] == '6',
        "u128"@.len() == 4 && "u128"@[0] == 'u',
        "AccountIndex"@.len() == 12 && "AccountIndex"@[0] == 'A',
        "SessionIndex"@.len() == 12 && "SessionIndex"@[0] == 'S',
        "PropIndex"@.len() == 9 && "PropIndex"@[0] == 'P',
        "ProposalIndex"@.len() == 13 && "ProposalIndex"@[0] == 'P',
        "AuthorityIndex"@.len() == 14,
        "AuthorityWeight"@.len() == 15 && "AuthorityWeight"@[0] == 'A',
        "MemberCount"@.len() == 11 && "MemberCount"@[0] == 'M',
        "AccountId"@.len() == 9 && "AccountId"@[0] == 'A',
        "BlockNumber"@.len() == 11 && "BlockNumber"@[0] == 'B',
        "Hash"@.len() == 4 && "Hash"@[0] == 'H',
        "VoteThreshold"@.len() == 13 && "VoteThreshold"@[0] == 'V',
        "TaskAddress<BlockNumber>"@.len() == 24,
{
    reveal_strlit("PhantomData");
    reveal_strlit("DispatchInfo");
    reveal_strlit("bool");
    reveal_strlit("ReferendumIndex");
    reveal_strlit("Kind");
    reveal_strlit("AuthorityId");
    reveal_strlit("u8");
    reveal_strlit("u32");
    reveal_strlit("u64");
    reveal_strlit("u128");
    reveal_strlit("AccountIndex");
    reveal_strlit("SessionIndex");
    reveal_strlit("PropIndex");
    reveal_strlit("ProposalIndex");
    reveal_strlit("AuthorityIndex");
    reveal_strlit("AuthorityWeight");
    reveal_strlit("MemberCount");
    reveal_strlit("AccountId");
    reveal_strlit("BlockNumber");
    reveal_strlit("Hash");
    reveal_strlit("VoteThreshold");
    reveal_strlit("TaskAddress<BlockNumber>");
}

/// These types, and no others, are registered from the start.
pub proof fn law_default_names<T: System>(name: Seq<char>)
    ensures
        default_registry::<T>().dom().contains(name) <==> {
            ||| name == "PhantomData"@
            ||| name == "DispatchInfo"@
            ||| name == "bool"@
            ||| name == "ReferendumIndex"@
            ||| name == "Kind"@
            ||| name == "AuthorityId"@
            ||| name == "u8"@
            ||| name == "u32"@
            ||| name == "u64"@
            ||| name == "u128"@
            ||| name == "AccountIndex"@
            ||| name == "SessionIndex"@
            ||| name == "PropIndex"@
            ||| name == "ProposalIndex"@
            ||| name == "AuthorityIndex"@
            ||| name == "AuthorityWeight"@
            ||| name == "MemberCount"@
            ||| name == "AccountId"@
            ||| name == "BlockNumber"@
            ||| name == "Hash"@
            ||| name == "VoteThreshold"@
            ||| name == "TaskAddress<BlockNumber>"@
        },
{
}

/// What is read off an input for each of the types that are registered from the start and do not
/// depend on the runtime.
pub proof fn law_default_types<T: System>()
    ensures
        forall|input: Seq<u8>| #[trigger]
            default_registry::<T>()["PhantomData"@](input) == (Taken {
                used: 0,
                value: Some(Seq::<u8>::empty()),
            }),
        reads_info(default_registry::<T>()["DispatchInfo"@]),
        reads_flag(default_registry::<T>()["bool"@]),
        reads_number(default_registry::<T>()["ReferendumIndex"@], 4),
        reads_array(default_registry::<T>()["Kind"@], 16),
        reads_array(default_registry::<T>()["AuthorityId"@], 32),
        reads_number(default_registry::<T>()["u8"@], 1),
        reads_number(default_registry::<T>()["u32"@], 4),
        reads_number(default_registry::<T>()["u64"@], 8),
        reads_number(default_registry::<T>()["u128"@], 16),
        reads_number(default_registry::<T>()["AccountIndex"@], 4),
        reads_number(default_registry::<T>()["SessionIndex"@], 4),
        reads_number(default_registry::<T>()["PropIndex"@], 4),
        reads_number(default_registry::<T>()["ProposalIndex"@], 4),
        reads_number(default_registry::<T>()["AuthorityIndex"@], 4),
        reads_number(default_registry::<T>()["AuthorityWeight"@], 8),
        reads_number(default_registry::<T>()["MemberCount"@], 4),
        reads_number(default_registry::<T>()["VoteThreshold"@], 1),
{
    lemma_names();
    law_flag();
    law_numbers();
    law_arrays();
    law_info();
    let registry: Registry = default_registry::<T>();
    assert(registry["PhantomData"@] == segmenter_of::<()>());
    assert(registry["DispatchInfo"@] == segmenter_of::<DispatchInfo>());
    assert(registry["bool"@] == segmenter_of::<bool>());
    assert(registry["ReferendumIndex"@] == segmenter_of::<u32>());
    assert(registry["Kind"@] == segmenter_of::<[u8; 16]>());
    assert(registry["AuthorityId"@] == segmenter_of::<[u8; 32]>());
    assert(registry["u8"@] == segmenter_of::<u8>());
    assert(registry["u32"@] == segmenter_of::<u32>());
    assert(registry["u64"@] == segmenter_of::<u64>());
    assert(registry["u128"@] == segmenter_of::<u128>());
    assert(registry["AccountIndex"@] == segmenter_of::<u32>());
    assert(registry["SessionIndex"@] == segmenter_of::<u32>());
    assert(registry["PropIndex"@] == segmenter_of::<u32>());
    assert(registry["ProposalIndex"@] == segmenter_of::<u32>());
    assert(registry["AuthorityIndex"@] == segmenter_of::<u32>());
    assert(registry["AuthorityWeight"@] == segmenter_of::<u64>());
    assert(registry["MemberCount"@] == segmenter_of::<u32>());
    assert(registry["VoteThreshold"@] == segmenter_of::<u8>());
}

/// What is read off an input for each of the types that are registered from the start and depend on
/// the runtime: what its own types read, and for a task address a block number and four bytes more.
pub proof fn law_default_runtime_types<T: System>(input: Seq<u8>)
    ensures
        default_registry::<T>()["AccountId"@](input) == T::AccountId::segmented(input),
        default_registry::<T>()["BlockNumber"@](input) == T::BlockNumber::segmented(input),
        default_registry::<T>()["Hash"@](input) == T::Hash::segmented(input),
        ({
            let address = default_registry::<T>()["TaskAddress<BlockNumber>"@](input);
            let number = T::BlockNumber::segmented(input);
            let rest = input.skip(number.used as int);
            address == if number.value is Some && rest.len() >= 4 {
                Taken {
                    used: number.used + 4,
                    value: Some(number.value->Some_0 + rest.take(4)),
                }
            } else {
                Taken { used: number.used, value: None }
            }
        }),
{
    lemma_names();
    law_numbers();
    let registry: Registry = default_registry::<T>();
    assert(registry["AccountId"@] == segmenter_of::<T::AccountId>());
    assert(registry["BlockNumber"@] == segmenter_of::<T::BlockNumber>());
    assert(registry["Hash"@] == segmenter_of::<T::Hash>());
    assert(registry["TaskAddress<BlockNumber>"@] == segmenter_of::<(T::BlockNumber, u32)>());
    let rest = input.skip(T::BlockNumber::segmented(input).used as int);
    assert(segmenter_of::<u32>()(rest) == u32::segmented(rest));
}

} // verus!
