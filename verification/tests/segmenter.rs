use parity_scale_codec::{Compact, Decode, Encode, Error as CodecError};
use subxt_events::codec::{DispatchClass, DispatchInfo, Pays};
use subxt_events::error::{Error, ModuleError, RuntimeError};
use subxt_events::metadata::{
    EventArg, Metadata, MetadataError, ModuleEventMetadata, ModuleWithErrors, ModuleWithEvents,
};
use subxt_events::segment::{Segment, System};
use subxt_events::segmenter::{segmenter_text, EventBytesSegmenter};

struct TestRuntime;

impl System for TestRuntime {
    type AccountId = [u8; 32];
    type BlockNumber = u32;
    type Hash = [u8; 32];
}

fn primitive(name: &str) -> EventArg {
    EventArg::Primitive(name.to_string())
}

fn vec_of(arg: EventArg) -> EventArg {
    EventArg::Vec(Box::new(arg))
}

fn option_of(arg: EventArg) -> EventArg {
    EventArg::Option(Box::new(arg))
}

/// The outcome of decoding `args` from `input`: the result, the bytes left, the data and the
/// errors.
fn run(
    segmenter: &EventBytesSegmenter<TestRuntime>,
    metadata: &Metadata,
    args: &[EventArg],
    input: &[u8],
) -> (Result<(), Error>, Vec<u8>, Vec<u8>, Vec<RuntimeError>) {
    let mut rest = input;
    let mut output = Vec::<u8>::new();
    let mut errors = Vec::<RuntimeError>::new();
    let result = segmenter.decode_raw_bytes(metadata, args, &mut rest, &mut output, &mut errors);
    (result, rest.to_vec(), output, errors)
}

/// Checks that `args` take `expected` off the front of `expected` and a few bytes more.
fn copies(args: &[EventArg], expected: &[u8]) {
    let segmenter = EventBytesSegmenter::<TestRuntime>::new();
    let mut input = expected.to_vec();
    input.extend_from_slice(&[0xaa, 0xbb]);
    let (result, rest, output, errors) = run(&segmenter, &Metadata::default(), args, &input);
    assert!(result.is_ok());
    assert_eq!(rest, vec![0xaa, 0xbb]);
    assert_eq!(output, expected);
    assert!(errors.is_empty());
}

fn some_metadata() -> Metadata {
    Metadata {
        modules_with_events: vec![ModuleWithEvents {
            index: 4,
            name: "Balances".to_string(),
            events: vec![
                ModuleEventMetadata {
                    name: "Transfer".to_string(),
                    arguments: vec![
                        primitive("AccountId"),
                        EventArg::Tuple(vec![primitive("Balance"), option_of(primitive("Balance"))]),
                    ],
                },
                ModuleEventMetadata {
                    name: "Frozen".to_string(),
                    arguments: vec![vec_of(primitive("Reason")), primitive("DispatchError")],
                },
            ],
        }],
        modules_with_errors: vec![ModuleWithErrors {
            index: 7,
            name: "Assets".to_string(),
            errors: vec!["NoPermission".to_string(), "Frozen".to_string()],
        }],
    }
}

#[test]
fn test_decode_option() {
    let segmenter = EventBytesSegmenter::<TestRuntime>::new();

    let value = Some(0u8);
    let input = value.encode();
    let mut output = Vec::<u8>::new();
    let mut errors = Vec::<RuntimeError>::new();

    segmenter
        .decode_raw_bytes(
            &Metadata::default(),
            &[EventArg::Option(Box::new(EventArg::Primitive(
                "u8".to_string(),
            )))],
            &mut &input[..],
            &mut output,
            &mut errors,
        )
        .unwrap();

    assert_eq!(output, vec![1, 0]);
}

#[test]
fn option_without_value() {
    copies(&[option_of(primitive("u32"))], &[0]);
}

#[test]
fn option_with_another_first_byte() {
    let segmenter = EventBytesSegmenter::<TestRuntime>::new();
    let args = [option_of(primitive("u8"))];
    let (result, rest, output, _) = run(&segmenter, &Metadata::default(), &args, &[2, 9]);
    match result {
        Err(Error::Other(text)) => assert_eq!(text, "unexpected first byte decoding Option"),
        _ => panic!("not the expected error"),
    }
    assert_eq!(rest, vec![9]);
    assert!(output.is_empty());
}

#[test]
fn option_of_nothing() {
    let segmenter = EventBytesSegmenter::<TestRuntime>::new();
    let args = [option_of(primitive("u8"))];
    let (result, rest, output, _) = run(&segmenter, &Metadata::default(), &args, &[]);
    assert!(matches!(result, Err(Error::Codec(_))));
    assert!(rest.is_empty());
    assert!(output.is_empty());
}

#[test]
fn every_default_type_copies_its_bytes() {
    let widths = [
        ("PhantomData", 0),
        ("DispatchInfo", 10),
        ("bool", 1),
        ("ReferendumIndex", 4),
        ("Kind", 16),
        ("AuthorityId", 32),
        ("u8", 1),
        ("u32", 4),
        ("u64", 8),
        ("u128", 16),
        ("AccountIndex", 4),
        ("SessionIndex", 4),
        ("PropIndex", 4),
        ("ProposalIndex", 4),
        ("AuthorityIndex", 4),
        ("AuthorityWeight", 8),
        ("MemberCount", 4),
        ("AccountId", 32),
        ("BlockNumber", 4),
        ("Hash", 32),
        ("VoteThreshold", 1),
        ("TaskAddress<BlockNumber>", 8),
    ];
    for (name, width) in widths.iter() {
        let bytes: Vec<u8> = (0..*width).map(|i| if i < 8 { 1 + i as u8 } else { 1 }).collect();
        copies(&[primitive(name)], &bytes);
        if *width > 0 {
            let segmenter = EventBytesSegmenter::<TestRuntime>::new();
            let short = &bytes[..bytes.len() - 1];
            let (result, _, output, _) =
                run(&segmenter, &Metadata::default(), &[primitive(name)], short);
            assert!(matches!(result, Err(Error::Codec(_))));
            assert!(output.is_empty());
        }
    }
}

#[test]
fn segments_of_each_type() {
    fn segment<U: Segment>(input: &[u8]) -> (bool, Vec<u8>, usize) {
        let mut rest = input;
        let mut output = vec![7u8];
        let good = U::segment(&mut rest, &mut output).is_ok();
        assert_eq!(output.remove(0), 7);
        (good, output, input.len() - rest.len())
    }
    assert_eq!(segment::<()>(&[5]), (true, vec![], 0));
    assert_eq!(segment::<bool>(&[0, 5]), (true, vec![0], 1));
    assert_eq!(segment::<bool>(&[1, 5]), (true, vec![1], 1));
    assert_eq!(segment::<bool>(&[2, 5]), (false, vec![], 1));
    assert_eq!(segment::<bool>(&[]), (false, vec![], 0));
    assert_eq!(segment::<u8>(&[9, 5]), (true, vec![9], 1));
    assert_eq!(segment::<u8>(&[]), (false, vec![], 0));
    assert_eq!(segment::<u32>(&[1, 2, 3, 4, 5]), (true, vec![1, 2, 3, 4], 4));
    assert_eq!(segment::<u32>(&[1, 2, 3]), (false, vec![], 0));
    let bytes: Vec<u8> = (1..=70).collect();
    assert_eq!(segment::<u64>(&bytes), (true, bytes[..8].to_vec(), 8));
    assert_eq!(segment::<u64>(&bytes[..7]), (false, vec![], 0));
    assert_eq!(segment::<u128>(&bytes), (true, bytes[..16].to_vec(), 16));
    assert_eq!(segment::<u128>(&bytes[..15]), (false, vec![], 0));
    assert_eq!(segment::<[u8; 16]>(&bytes), (true, bytes[..16].to_vec(), 16));
    assert_eq!(segment::<[u8; 16]>(&bytes[..15]), (false, vec![], 15));
    assert_eq!(segment::<[u8; 20]>(&bytes), (true, bytes[..20].to_vec(), 20));
    assert_eq!(segment::<[u8; 20]>(&bytes[..3]), (false, vec![], 3));
    assert_eq!(segment::<[u8; 32]>(&bytes), (true, bytes[..32].to_vec(), 32));
    assert_eq!(segment::<[u8; 32]>(&bytes[..31]), (false, vec![], 31));
    assert_eq!(segment::<[u8; 64]>(&bytes), (true, bytes[..64].to_vec(), 64));
    assert_eq!(segment::<[u8; 64]>(&bytes[..63]), (false, vec![], 63));
    assert_eq!(segment::<(u8, u32)>(&bytes), (true, bytes[..5].to_vec(), 5));
    assert_eq!(segment::<(u8, u32)>(&bytes[..4]), (false, vec![], 1));
    assert_eq!(segment::<(u32, u8)>(&bytes[..3]), (false, vec![], 0));
}

#[test]
fn segments_of_dispatch_info() {
    fn segment(input: &[u8]) -> (bool, Vec<u8>, usize) {
        let mut rest = input;
        let mut output = Vec::<u8>::new();
        let good = DispatchInfo::segment(&mut rest, &mut output).is_ok();
        (good, output, input.len() - rest.len())
    }
    let mut input = vec![1, 2, 3, 4, 5, 6, 7, 8];
    assert_eq!(segment(&input[..7]), (false, vec![], 0));
    assert_eq!(segment(&input), (false, vec![], 8));
    for class in 0..3u8 {
        for pays in 0..2u8 {
            let mut info = input.clone();
            info.push(class);
            assert_eq!(segment(&info), (false, vec![], 9));
            info.push(pays);
            assert_eq!(segment(&info), (true, info.clone(), 10));
        }
    }
    input.push(3);
    input.push(0);
    assert_eq!(segment(&input), (false, vec![], 9));
    input[8] = 2;
    input[9] = 2;
    assert_eq!(segment(&input), (false, vec![], 10));
    let info = DispatchInfo { weight: 1, class: DispatchClass::Mandatory, pays_fee: Pays::No };
    let outside = frame_support::dispatch::DispatchInfo {
        weight: info.weight,
        class: frame_support::weights::DispatchClass::Mandatory,
        pays_fee: frame_support::weights::Pays::No,
    };
    let bytes = outside.encode();
    assert_eq!(bytes, vec![1, 0, 0, 0, 0, 0, 0, 0, 2, 1]);
    assert_eq!(segment(&bytes), (true, bytes.clone(), 10));
}

#[test]
fn vectors_of_each_count_form() {
    for count in [0u32, 1, 63, 64, 300, 16383, 16384].iter() {
        copies(&[vec_of(primitive("PhantomData"))], &Compact(*count).encode());
    }
    copies(&[vec_of(primitive("u8"))], &vec![3u8, 4, 5].encode());
    copies(&[vec_of(option_of(primitive("u8")))], &vec![Some(3u8), None, Some(5)].encode());
    copies(&[vec_of(vec_of(primitive("u32")))], &vec![vec![1u32, 2], vec![], vec![3]].encode());
}

#[test]
fn vectors_keep_what_was_read_before_a_failure() {
    let segmenter = EventBytesSegmenter::<TestRuntime>::new();
    let args = [vec_of(primitive("u8"))];
    for count in [1u32 << 14, (1 << 30) - 1, 1 << 30, u32::MAX].iter() {
        let mut input = Compact(*count).encode();
        let expected = input.clone();
        let (result, rest, output, _) = run(&segmenter, &Metadata::default(), &args, &input);
        assert!(matches!(result, Err(Error::Codec(_))));
        assert!(rest.is_empty());
        assert_eq!(output, expected);
        input.push(6);
        let (result, _, output, _) = run(&segmenter, &Metadata::default(), &args, &input);
        assert!(matches!(result, Err(Error::Codec(_))));
        assert_eq!(output, input);
    }
}

#[test]
fn counts_that_are_refused() {
    let segmenter = EventBytesSegmenter::<TestRuntime>::new();
    let args = [vec_of(primitive("PhantomData"))];
    let cases: [(&[u8], usize); 9] = [
        (&[], 0),
        (&[1], 0),
        (&[1, 0, 9], 1),
        (&[2, 1, 1], 2),
        (&[2, 0, 0, 0, 9], 1),
        (&[3, 1, 1, 1], 3),
        (&[3, 0, 0, 0, 0, 9], 1),
        (&[7, 1, 1, 1, 1], 4),
        (&[255, 1, 1, 1, 1], 4),
    ];
    for (input, left) in cases.iter() {
        let (result, rest, output, _) = run(&segmenter, &Metadata::default(), &args, input);
        assert!(matches!(result, Err(Error::Codec(_))));
        assert_eq!(rest.len(), *left);
        assert!(output.is_empty());
    }
}

#[test]
fn tuples_come_in_order() {
    let args = [
        primitive("u8"),
        EventArg::Tuple(vec![primitive("u32"), EventArg::Tuple(vec![]), primitive("bool")]),
        primitive("u8"),
    ];
    copies(&args, &(1u8, (2u32, true), 3u8).encode());
}

#[test]
fn types_that_are_not_registered() {
    let segmenter = EventBytesSegmenter::<TestRuntime>::new();
    let args = [primitive("u8"), option_of(primitive("Balance")), primitive("u8")];
    let metadata = Metadata::default();
    let (result, rest, output, _) = run(&segmenter, &metadata, &args, &[9, 1, 5, 6]);
    match result {
        Err(Error::TypeSizeUnavailable(name)) => assert_eq!(name, "Balance"),
        _ => panic!("not the expected error"),
    }
    assert_eq!(rest, vec![5, 6]);
    assert_eq!(output, vec![9, 1]);
    let (result, rest, output, _) = run(&segmenter, &metadata, &args, &[9, 0, 5, 6]);
    assert!(result.is_ok());
    assert_eq!(rest, vec![6]);
    assert_eq!(output, vec![9, 0, 5]);
}

#[test]
fn dispatch_errors_are_collected() {
    let segmenter = EventBytesSegmenter::<TestRuntime>::new();
    let metadata = some_metadata();
    let args = [vec_of(primitive("DispatchError")), primitive("u8")];
    let input = [28, 0, 1, 2, 3, 7, 1, 4, 5, 3, 7, 0, 77];
    let (result, rest, output, errors) = run(&segmenter, &metadata, &args, &input);
    assert!(result.is_ok());
    assert!(rest.is_empty());
    assert_eq!(output, vec![28, 77]);
    let named = |error: &str| {
        RuntimeError::Module(ModuleError {
            module: "Assets".to_string(),
            error: error.to_string(),
        })
    };
    assert_eq!(
        errors,
        vec![
            RuntimeError::Other(String::new()),
            RuntimeError::CannotLookup,
            RuntimeError::BadOrigin,
            named("Frozen"),
            RuntimeError::ConsumerRemaining,
            RuntimeError::NoProviders,
            named("NoPermission"),
        ]
    );
}

#[test]
fn dispatch_errors_that_cannot_be_read() {
    let segmenter = EventBytesSegmenter::<TestRuntime>::new();
    let metadata = some_metadata();
    let args = [primitive("DispatchError")];
    let cases: [(&[u8], usize); 4] = [(&[], 0), (&[6, 1], 1), (&[3], 0), (&[3, 7], 0)];
    for (input, left) in cases.iter() {
        let (result, rest, _, errors) = run(&segmenter, &metadata, &args, input);
        assert!(matches!(result, Err(Error::Codec(_))));
        assert_eq!(rest.len(), *left);
        assert!(errors.is_empty());
    }
}

#[test]
fn dispatch_errors_without_names() {
    let segmenter = EventBytesSegmenter::<TestRuntime>::new();
    let metadata = some_metadata();
    let args = [primitive("DispatchError")];
    let (result, rest, _, errors) = run(&segmenter, &metadata, &args, &[3, 8, 0, 5]);
    assert!(matches!(result, Err(Error::Metadata(MetadataError::ModuleIndexNotFound(8)))));
    assert_eq!(rest, vec![5]);
    assert!(errors.is_empty());
    let (result, _, _, _) = run(&segmenter, &metadata, &args, &[3, 7, 2]);
    assert!(matches!(result, Err(Error::Metadata(MetadataError::ErrorNotFound(2)))));
}

#[test]
fn dispatch_results_are_looked_into() {
    let segmenter = EventBytesSegmenter::<TestRuntime>::new();
    let metadata = some_metadata();
    let args = [primitive("DispatchResult"), primitive("u8")];
    let (result, rest, output, errors) = run(&segmenter, &metadata, &args, &[0, 9]);
    assert!(result.is_ok());
    assert!(rest.is_empty());
    assert_eq!(output, vec![9]);
    assert!(errors.is_empty());
    let cases: [(&[u8], RuntimeError); 5] = [
        (&[1, 0, 9], RuntimeError::Other(String::new())),
        (&[1, 1, 9], RuntimeError::CannotLookup),
        (&[1, 2, 9], RuntimeError::BadOrigin),
        (&[1, 4, 9], RuntimeError::ConsumerRemaining),
        (&[1, 5, 9], RuntimeError::NoProviders),
    ];
    for (input, error) in cases.iter() {
        let (result, _, output, errors) = run(&segmenter, &metadata, &args, input);
        assert!(result.is_ok());
        assert_eq!(output, vec![9]);
        assert_eq!(errors, vec![error.clone()]);
    }
    let (result, _, _, errors) = run(&segmenter, &metadata, &args, &[1, 3, 7, 1, 9]);
    assert!(result.is_ok());
    assert_eq!(
        errors,
        vec![RuntimeError::Module(ModuleError {
            module: "Assets".to_string(),
            error: "Frozen".to_string(),
        })]
    );
    let cases: [(&[u8], usize); 4] = [(&[], 0), (&[2, 1], 1), (&[1], 0), (&[1, 6, 6], 1)];
    for (input, left) in cases.iter() {
        let (result, rest, _, _) = run(&segmenter, &metadata, &args, input);
        assert!(matches!(result, Err(Error::Codec(_))));
        assert_eq!(rest.len(), *left);
    }
}

#[test]
fn output_and_errors_are_appended_to() {
    let segmenter = EventBytesSegmenter::<TestRuntime>::new();
    let args = [primitive("u8"), primitive("DispatchError")];
    let mut output = vec![1u8, 2];
    let mut errors = vec![RuntimeError::NoProviders];
    let input = [3u8, 2, 4];
    let mut rest = &input[..];
    segmenter
        .decode_raw_bytes(&Metadata::default(), &args, &mut rest, &mut output, &mut errors)
        .unwrap();
    assert_eq!(output, vec![1, 2, 3]);
    assert_eq!(errors, vec![RuntimeError::NoProviders, RuntimeError::BadOrigin]);
    assert_eq!(rest, &[4]);
    segmenter
        .decode_arg(&Metadata::default(), &args[0], &mut rest, &mut output, &mut errors)
        .unwrap();
    assert_eq!(output, vec![1, 2, 3, 4]);
    assert!(rest.is_empty());
}

#[test]
fn two_lists_of_arguments_one_after_the_other() {
    let segmenter = EventBytesSegmenter::<TestRuntime>::new();
    let metadata = Metadata::default();
    let input = [1u8, 2, 0, 0, 0, 1, 7, 8];
    let mut rest = &input[..];
    let mut output = Vec::<u8>::new();
    let mut errors = Vec::<RuntimeError>::new();
    let first = [primitive("u8"), primitive("u32")];
    let second = [option_of(primitive("u8"))];
    segmenter
        .decode_raw_bytes(&metadata, &first, &mut rest, &mut output, &mut errors)
        .unwrap();
    segmenter
        .decode_raw_bytes(&metadata, &second, &mut rest, &mut output, &mut errors)
        .unwrap();
    let both = [primitive("u8"), primitive("u32"), option_of(primitive("u8"))];
    let (result, left, data, _) = run(&segmenter, &metadata, &both, &input);
    assert!(result.is_ok());
    assert_eq!(data, output);
    assert_eq!(left, rest);
}

#[test]
fn data_is_cut_out_of_itself() {
    let segmenter = EventBytesSegmenter::<TestRuntime>::new();
    let metadata = Metadata::default();
    let args = [
        vec_of(EventArg::Tuple(vec![primitive("bool"), option_of(primitive("u32"))])),
        primitive("DispatchInfo"),
    ];
    let mut input = vec![(true, Some(5u32)), (false, None)].encode();
    input.extend_from_slice(&[1, 0, 0, 0, 0, 0, 0, 0, 1, 0]);
    let expected = input.clone();
    input.extend_from_slice(&[1, 2, 3]);
    let (result, rest, data, _) = run(&segmenter, &metadata, &args, &input);
    assert!(result.is_ok());
    assert_eq!(rest, vec![1, 2, 3]);
    assert_eq!(data, expected);
    let (result, rest, again, errors) = run(&segmenter, &metadata, &args, &data);
    assert!(result.is_ok());
    assert!(rest.is_empty());
    assert_eq!(again, data);
    assert!(errors.is_empty());
}

#[test]
fn registering_again_replaces() {
    let metadata = Metadata::default();
    let args = [primitive("Balance")];
    let mut segmenter = EventBytesSegmenter::<TestRuntime>::new();
    segmenter.register_type_size::<u128>("Balance");
    let input: Vec<u8> = (0..20).collect();
    assert_eq!(run(&segmenter, &metadata, &args, &input).2, input[..16].to_vec());
    segmenter.register_type_size::<u64>("Balance");
    assert_eq!(run(&segmenter, &metadata, &args, &input).2, input[..8].to_vec());
    segmenter.register_type_size::<bool>("u8");
    assert_eq!(run(&segmenter, &metadata, &[primitive("u8")], &[1]).2, vec![1]);
    assert!(run(&segmenter, &metadata, &[primitive("u8")], &[2]).0.is_err());
}

#[test]
fn the_order_of_registering_does_not_matter() {
    let metadata = Metadata::default();
    let mut one = EventBytesSegmenter::<TestRuntime>::new();
    one.register_type_size::<u128>("Balance");
    one.register_type_size::<u8>("Reason");
    let mut other = EventBytesSegmenter::<TestRuntime>::new();
    other.register_type_size::<u8>("Reason");
    other.register_type_size::<u128>("Balance");
    let input: Vec<u8> = (0..30).collect();
    let args = [primitive("Reason"), primitive("Balance")];
    assert_eq!(run(&one, &metadata, &args, &input).2, input[..17].to_vec());
    assert_eq!(run(&other, &metadata, &args, &input).2, input[..17].to_vec());
}

#[test]
fn dispatch_outcomes_take_no_segmenter() {
    let mut segmenter = EventBytesSegmenter::<TestRuntime>::new();
    segmenter.register_type_size::<u128>("DispatchError");
    segmenter.register_type_size::<u128>("DispatchResult");
    let args = [primitive("DispatchError"), primitive("DispatchResult")];
    let (result, rest, output, errors) = run(&segmenter, &Metadata::default(), &args, &[4, 0, 6]);
    assert!(result.is_ok());
    assert_eq!(rest, vec![6]);
    assert!(output.is_empty());
    assert_eq!(errors, vec![RuntimeError::ConsumerRemaining]);
}

#[test]
fn a_clone_goes_its_own_way() {
    let metadata = Metadata::default();
    let args = [primitive("Balance")];
    let mut segmenter = EventBytesSegmenter::<TestRuntime>::new();
    segmenter.register_type_size::<u64>("Balance");
    let mut clone = segmenter.clone();
    let input: Vec<u8> = (0..20).collect();
    assert_eq!(run(&clone, &metadata, &args, &input).2, input[..8].to_vec());
    clone.register_type_size::<u32>("Balance");
    assert_eq!(run(&clone, &metadata, &args, &input).2, input[..4].to_vec());
    assert_eq!(run(&segmenter, &metadata, &args, &input).2, input[..8].to_vec());
}

#[test]
fn the_default_segmenter_knows_no_types() {
    let segmenter = EventBytesSegmenter::<TestRuntime>::default();
    let (result, _, _, _) = run(&segmenter, &Metadata::default(), &[primitive("u8")], &[1]);
    assert!(matches!(result, Err(Error::TypeSizeUnavailable(_))));
}

#[test]
fn missing_types_are_reported_once_per_event() {
    let mut segmenter = EventBytesSegmenter::<TestRuntime>::new();
    let metadata = some_metadata();
    let mut missing = segmenter.check_missing_type_sizes(&metadata).unwrap_err();
    missing.sort();
    assert_eq!(
        missing,
        vec![
            "Balances::Frozen::DispatchError".to_string(),
            "Balances::Frozen::Reason".to_string(),
            "Balances::Transfer::Balance".to_string(),
        ]
    );
    segmenter.register_type_size::<u128>("Balance");
    segmenter.register_type_size::<u8>("DispatchError");
    let missing = segmenter.check_missing_type_sizes(&metadata).unwrap_err();
    assert_eq!(missing, vec!["Balances::Frozen::Reason".to_string()]);
    segmenter.register_type_size::<u8>("Reason");
    assert!(segmenter.check_missing_type_sizes(&metadata).is_ok());
    assert!(segmenter.check_missing_type_sizes(&Metadata::default()).is_ok());
}

#[test]
fn primitives_come_from_left_to_right() {
    let arg = EventArg::Tuple(vec![
        primitive("a"),
        vec_of(EventArg::Tuple(vec![primitive("b"), option_of(primitive("c"))])),
        primitive("a"),
    ]);
    assert_eq!(arg.primitives(), vec!["a", "b", "c", "a"]);
}

#[test]
fn segmenters_as_text() {
    let mut segmenter = EventBytesSegmenter::<TestRuntime>::default();
    assert_eq!(
        segmenter.debug_text(),
        "EventBytesSegmenter<T> { type_segmenters: \"\" }"
    );
    segmenter.register_type_size::<u8>("a\"b");
    assert_eq!(
        segmenter.debug_text(),
        "EventBytesSegmenter<T> { type_segmenters: \"a\\\"b\" }"
    );
    segmenter.register_type_size::<u8>("c");
    segmenter.register_type_size::<u32>("c");
    let names = segmenter.type_names();
    assert!(names == "a\"bc" || names == "ca\"b");
    let text = segmenter.debug_text();
    assert!(
        text == segmenter_text("\"a\\\"bc\"") || text == segmenter_text("\"ca\\\"b\""),
    );
}

/// A list of numbers, with a codec of its own.
struct Numbers;

impl Segment for Numbers {
    fn bulk_width() -> Option<usize> {
        None
    }

    fn segment(input: &mut &[u8], output: &mut Vec<u8>) -> Result<(), CodecError> {
        Vec::<u16>::decode(input)?.encode_to(output);
        Ok(())
    }
}

#[test]
fn types_with_a_codec_of_their_own() {
    let mut segmenter = EventBytesSegmenter::<TestRuntime>::new();
    segmenter.register_type_size::<Numbers>("Numbers");
    let args = [primitive("u8"), primitive("Numbers"), primitive("bool")];
    let mut input = (7u8, vec![1u16, 2, 300], true).encode();
    let expected = input.clone();
    input.push(4);
    let (result, rest, output, _) = run(&segmenter, &Metadata::default(), &args, &input);
    assert!(result.is_ok());
    assert_eq!(rest, vec![4]);
    assert_eq!(output, expected);
    let (result, _, output, _) = run(&segmenter, &Metadata::default(), &args, &input[..5]);
    assert!(matches!(result, Err(Error::Codec(_))));
    assert_eq!(output, vec![7]);
}

#[test]
fn what_was_there_stays_and_the_rest_is_a_tail() {
    let segmenter = EventBytesSegmenter::<TestRuntime>::new();
    let args = [vec_of(EventArg::Tuple(vec![primitive("u8"), primitive("DispatchError")]))];
    let input = [8u8, 5, 2, 6, 9, 1, 1];
    let mut rest = &input[..];
    let mut output = vec![1u8];
    let mut errors = vec![RuntimeError::CannotLookup];
    let result = segmenter.decode_raw_bytes(
        &Metadata::default(),
        &args,
        &mut rest,
        &mut output,
        &mut errors,
    );
    assert!(matches!(result, Err(Error::Codec(_))));
    assert_eq!(rest, &input[5..]);
    assert_eq!(output, vec![1, 8, 5, 6]);
    assert_eq!(errors, vec![RuntimeError::CannotLookup, RuntimeError::BadOrigin]);
}

#[test]
fn integers_are_read_at_once_in_lists() {
    assert_eq!(u8::bulk_width(), Some(1));
    let low_byte_first = 1u16.to_le() == 1;
    assert_eq!(u32::bulk_width(), if low_byte_first { Some(4) } else { None });
    assert_eq!(u64::bulk_width(), if low_byte_first { Some(8) } else { None });
    assert_eq!(u128::bulk_width(), if low_byte_first { Some(16) } else { None });
    assert_eq!(<()>::bulk_width(), None);
    assert_eq!(bool::bulk_width(), None);
    assert_eq!(<[u8; 16]>::bulk_width(), None);
    assert_eq!(<[u8; 20]>::bulk_width(), None);
    assert_eq!(<[u8; 32]>::bulk_width(), None);
    assert_eq!(<[u8; 64]>::bulk_width(), None);
    assert_eq!(DispatchInfo::bulk_width(), None);
    assert_eq!(<(u8, u32)>::bulk_width(), None);
}

#[test]
fn values_of_every_shape_are_accepted() {
    let args = [
        vec_of(option_of(EventArg::Tuple(vec![primitive("u8"), vec_of(primitive("bool"))]))),
        EventArg::Tuple(vec![]),
        option_of(option_of(primitive("u32"))),
        primitive("u64"),
    ];
    let values: Vec<Option<(u8, Vec<bool>)>> =
        vec![None, Some((3, vec![true, false])), Some((4, vec![]))];
    for inner in [None, Some(None), Some(Some(9u32))].iter() {
        copies(&args, &(values.clone(), *inner, 5u64).encode());
    }
}
