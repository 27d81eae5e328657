//! What holds of the registered types.

use vstd::prelude::*;

use crate::codec::DispatchInfo;
use crate::laws::{
    agree, all_faithful, all_local, all_within, law_args_depend, lemma_alike_split, looked_into,
};
use crate::metadata::{primitives_of_all, EventArg, Metadata};
use crate::missing::{is_missing, label_at, mentioned, missing_labels};
use crate::run::{run_args, Progress, Registry};
use crate::segment::{
    faithful, local, segmenter_of, starts_alike, within, Segment, Segmenter, System,
};
use crate::segmenter::default_registry;

verus! {

/// The segmenter takes no more bytes than there are, puts out the bytes that it reads and looks at
/// no others.
pub open spec fn exact(segmenter: Segmenter) -> bool {
    within(segmenter) && faithful(segmenter) && local(segmenter)
}

/// Segmenting a number, a truth value, an array of bytes or a [`DispatchInfo`] puts out the very
/// bytes that it takes off the input, and looks at no others.
pub proof fn law_basic_types_exact()
    ensures
        exact(segmenter_of::<()>()),
        exact(segmenter_of::<bool>()),
        exact(segmenter_of::<u8>()),
        exact(segmenter_of::<u32>()),
        exact(segmenter_of::<u64>()),
        exact(segmenter_of::<u128>()),
        exact(segmenter_of::<[u8; 16]>()),
        exact(segmenter_of::<[u8; 20]>()),
        exact(segmenter_of::<[u8; 32]>()),
        exact(segmenter_of::<[u8; 64]>()),
        exact(segmenter_of::<DispatchInfo>()),
{
    assert forall|input: Seq<u8>| #![trigger segmenter_of::<()>()(input)] input.take(0)
        =~= Seq::<u8>::empty() by {}
    assert forall|input: Seq<u8>, other: Seq<u8>|
        #![trigger segmenter_of::<bool>()(input), segmenter_of::<bool>()(other)]
        bool::segmented(input).value is Some && starts_alike(
            input,
            other,
            bool::segmented(input).used,
        ) implies bool::segmented(other) == bool::segmented(input) by {
        assert(input.take(1)[0] == other.take(1)[0]);
    }
    assert forall|input: Seq<u8>, other: Seq<u8>|
        #![trigger segmenter_of::<DispatchInfo>()(input), segmenter_of::<DispatchInfo>()(other)]
        DispatchInfo::segmented(input).value is Some && starts_alike(
            input,
            other,
            DispatchInfo::segmented(input).used,
        ) implies DispatchInfo::segmented(other) == DispatchInfo::segmented(input) by {
        assert(input.take(10)[8] == other.take(10)[8]);
        assert(input.take(10)[9] == other.take(10)[9]);
    }
}

proof fn lemma_pair_within<A: Segment, B: Segment>()
    requires
        within(segmenter_of::<A>()),
        within(segmenter_of::<B>()),
    ensures
        within(segmenter_of::<(A, B)>()),
{
    let first = segmenter_of::<A>();
    let second = segmenter_of::<B>();
    assert forall|input: Seq<u8>| (#[trigger] segmenter_of::<(A, B)>()(input)).used
        <= input.len() by {
        assert(first(input).used <= input.len());
        let rest = input.skip(first(input).used as int);
        assert(second(rest).used <= rest.len());
    }
}

/// Segmenting a pair puts out the very bytes that it takes off the input, and looks at no others,
/// where segmenting its parts does.
pub proof fn law_pair_exact<A: Segment, B: Segment>()
    requires
        exact(segmenter_of::<A>()),
        exact(segmenter_of::<B>()),
    ensures
        exact(segmenter_of::<(A, B)>()),
{
    let first = segmenter_of::<A>();
    let second = segmenter_of::<B>();
    lemma_pair_within::<A, B>();
    assert forall|input: Seq<u8>|
        (#[trigger] segmenter_of::<(A, B)>()(input)).value is Some implies segmenter_of::<(A, B)>()(
        input,
    ).value->Some_0 == input.take(segmenter_of::<(A, B)>()(input).used as int) by {
        let n = first(input).used as int;
        let m = second(input.skip(n)).used as int;
        assert(n <= input.len());
        assert(m <= input.skip(n).len());
        assert(input.take(n) + input.skip(n).take(m) =~= input.take(n + m));
    }
    assert forall|input: Seq<u8>, other: Seq<u8>|
        #![trigger segmenter_of::<(A, B)>()(input), segmenter_of::<(A, B)>()(other)]
        segmenter_of::<(A, B)>()(input).value is Some && starts_alike(
            input,
            other,
            segmenter_of::<(A, B)>()(input).used,
        ) implies segmenter_of::<(A, B)>()(other) == segmenter_of::<(A, B)>()(input) by {
        let n = first(input).used;
        let m = second(input.skip(n as int)).used;
        assert(n <= input.len());
        assert(m <= input.skip(n as int).len());
        lemma_alike_split(input, other, n, m);
        assert(first(other) == first(input));
        assert(second(other.skip(n as int)) == second(input.skip(n as int)));
    }
}

/// No type that is registered from the start takes more bytes than there are, where the types of
/// the runtime do not.
pub proof fn law_default_within<T: System>()
    requires
        within(segmenter_of::<T::AccountId>()),
        within(segmenter_of::<T::BlockNumber>()),
        within(segmenter_of::<T::Hash>()),
    ensures
        all_within(default_registry::<T>()),
{
    law_basic_types_exact();
    lemma_pair_within::<T::BlockNumber, u32>();
    assert forall|name: Seq<char>| #[trigger]
        default_registry::<T>().dom().contains(name) implies within(
        default_registry::<T>()[name],
    ) by {}
}

/// All types that are registered from the start put out the bytes that they read and look at no
/// others, where the types of the runtime do.
pub proof fn law_default_exact<T: System>()
    requires
        exact(segmenter_of::<T::AccountId>()),
        exact(segmenter_of::<T::BlockNumber>()),
        exact(segmenter_of::<T::Hash>()),
    ensures
        all_within(default_registry::<T>()),
        all_faithful(default_registry::<T>()),
        all_local(default_registry::<T>()),
{
    law_default_within::<T>();
    law_basic_types_exact();
    law_pair_exact::<T::BlockNumber, u32>();
    assert forall|name: Seq<char>| #[trigger]
        default_registry::<T>().dom().contains(name) implies faithful(
        default_registry::<T>()[name],
    ) && local(default_registry::<T>()[name]) by {}
}

/// A registered type keeps the properties that all registered types have, where it has them too.
pub proof fn law_register_keeps<U: Segment>(registry: Registry, name: Seq<char>)
    ensures
        all_within(registry) && within(segmenter_of::<U>()) ==> all_within(
            registry.insert(name, segmenter_of::<U>()),
        ),
        all_faithful(registry) && faithful(segmenter_of::<U>()) ==> all_faithful(
            registry.insert(name, segmenter_of::<U>()),
        ),
        all_local(registry) && local(segmenter_of::<U>()) ==> all_local(
            registry.insert(name, segmenter_of::<U>()),
        ),
{
}

/// Of two types that are registered under one name, the later one counts.
pub proof fn law_register_again(
    registry: Registry,
    name: Seq<char>,
    first: Segmenter,
    second: Segmenter,
)
    ensures
        registry.insert(name, first).insert(name, second) == registry.insert(name, second),
{
    assert(registry.insert(name, first).insert(name, second) =~= registry.insert(name, second));
}

/// The order in which types of different names are registered does not matter.
pub proof fn law_register_order(
    registry: Registry,
    name: Seq<char>,
    segmenter: Segmenter,
    other_name: Seq<char>,
    other: Segmenter,
)
    requires
        name != other_name,
    ensures
        registry.insert(name, segmenter).insert(other_name, other) == registry.insert(
            other_name,
            other,
        ).insert(name, segmenter),
{
    assert(registry.insert(name, segmenter).insert(other_name, other) =~= registry.insert(
        other_name,
        other,
    ).insert(name, segmenter));
}

/// Registering a type changes nothing for arguments that do not mention it, and nothing at all
/// under the name of a type whose values are looked into.
pub proof fn law_register_unmentioned(
    registry: Registry,
    name: Seq<char>,
    segmenter: Segmenter,
    metadata: Metadata,
    args: Seq<EventArg>,
    from: Progress,
)
    requires
        !primitives_of_all(args).contains(name) || looked_into(name),
    ensures
        run_args(registry.insert(name, segmenter), metadata, args, from) == run_args(
            registry,
            metadata,
            args,
            from,
        ),
{
    assert(agree(registry.insert(name, segmenter), registry, primitives_of_all(args)));
    law_args_depend(registry.insert(name, segmenter), registry, metadata, args, from);
}

/// Registering a type takes exactly its own mentions off the missing ones, and so can only take
/// reports away.
pub proof fn law_register_missing(
    registry: Registry,
    name: Seq<char>,
    segmenter: Segmenter,
    metadata: Metadata,
)
    ensures
        missing_labels(registry.insert(name, segmenter), metadata).subset_of(
            missing_labels(registry, metadata),
        ),
        forall|module: int, event: int, primitive: int| #[trigger]
            is_missing(registry.insert(name, segmenter), metadata, module, event, primitive)
                <==> is_missing(registry, metadata, module, event, primitive) && mentioned(
                metadata,
                module,
                event,
            )[primitive] != name,
{
    let after = registry.insert(name, segmenter);
    assert forall|text: Seq<char>| #[trigger]
        missing_labels(after, metadata).contains(text) implies missing_labels(
        registry,
        metadata,
    ).contains(text) by {
        let (module, event, primitive) = choose|module: int, event: int, primitive: int| #[trigger]
            is_missing(after, metadata, module, event, primitive) && text == label_at(
                metadata,
                module,
                event,
                primitive,
            );
        assert(is_missing(registry, metadata, module, event, primitive));
    }
}

/// No type is reported as missing exactly where every event mentions registered types only.
pub proof fn law_nothing_missing(registry: Registry, metadata: Metadata)
    ensures
        missing_labels(registry, metadata) == Set::<Seq<char>>::empty() <==> forall|
            module: int,
            event: int,
            primitive: int,
        | !#[trigger] is_missing(registry, metadata, module, event, primitive),
{
    if missing_labels(registry, metadata) == Set::<Seq<char>>::empty() {
        assert forall|module: int, event: int, primitive: int| !#[trigger] is_missing(
            registry,
            metadata,
            module,
            event,
            primitive,
        ) by {
            let text = label_at(metadata, module, event, primitive);
            assert(!missing_labels(registry, metadata).contains(text));
        }
    }
    if forall|module: int, event: int, primitive: int| !#[trigger] is_missing(
        registry,
        metadata,
        module,
        event,
        primitive,
    ) {
        assert(missing_labels(registry, metadata) =~= Set::<Seq<char>>::empty());
    }
}

} // verus!
