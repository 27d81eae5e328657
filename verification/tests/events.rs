use parity_scale_codec::{Compact, Decode, Encode};
use subxt_events::error::{Error, ModuleError, RuntimeError};
use subxt_events::events::{event_text, EventsDecoder, Phase, Raw, RawEvent};
use subxt_events::metadata::{
    EventArg, Metadata, MetadataError, ModuleEventMetadata, ModuleWithErrors, ModuleWithEvents,
};
use subxt_events::segment::{Segment, System};
use subxt_events::segmenter::EventBytesSegmenter;

struct TestRuntime;

impl System for TestRuntime {
    type AccountId = [u8; 32];
    type BlockNumber = u32;
    type Hash = [u8; 32];
}

fn primitive(name: &str) -> EventArg {
    EventArg::Primitive(name.to_string())
}

fn event(name: &str, arguments: Vec<EventArg>) -> ModuleEventMetadata {
    ModuleEventMetadata { name: name.to_string(), arguments }
}

fn system_metadata() -> Metadata {
    Metadata {
        modules_with_events: vec![ModuleWithEvents {
            index: 0,
            name: "System".to_string(),
            events: vec![
                event("ExtrinsicSuccess", vec![primitive("DispatchInfo")]),
                event(
                    "ExtrinsicFailed",
                    vec![primitive("DispatchError"), primitive("DispatchInfo")],
                ),
            ],
        }],
        modules_with_errors: vec![ModuleWithErrors {
            index: 0,
            name: "System".to_string(),
            errors: vec![
                "InvalidSpecName".to_string(),
                "SpecVersionNeedsToIncrease".to_string(),
                "FailedToExtractRuntimeVersion".to_string(),
                "NonDefaultComposite".to_string(),
            ],
        }],
    }
}

/// One entry as text, with the data of an event in hexadecimal digits.
fn shown(entry: &(Phase, Raw)) -> String {
    let raw = match &entry.1 {
        Raw::Event(event) => event.debug_text(),
        Raw::Error(error) => format!("{:?}", error),
    };
    format!("{:?} {}", entry.0, raw)
}

fn decode(decoder: &EventsDecoder<TestRuntime>, input: &[u8]) -> (Result<Vec<String>, Error>, usize) {
    let mut rest = input;
    let result = decoder.decode_events(&mut rest);
    (result.map(|entries| entries.iter().map(shown).collect()), rest.len())
}

/// A decoder for a module `Test` of index 5 whose events have no, one and two arguments.
fn test_decoder() -> EventsDecoder<TestRuntime> {
    let metadata = Metadata {
        modules_with_events: vec![
            ModuleWithEvents {
                index: 5,
                name: "Test".to_string(),
                events: vec![
                    event("Plain", vec![]),
                    event("Number", vec![primitive("u32")]),
                    event("Outcomes", vec![EventArg::Vec(Box::new(primitive("DispatchResult")))]),
                    event("Unknown", vec![primitive("Balance")]),
                ],
            },
            ModuleWithEvents { index: 5, name: "Shadowed".to_string(), events: vec![] },
            ModuleWithEvents {
                index: 9,
                name: "Other".to_string(),
                events: vec![event("Flag", vec![primitive("bool")])],
            },
        ],
        modules_with_errors: vec![],
    };
    EventsDecoder::new(metadata, EventBytesSegmenter::new())
}

#[test]
fn test_decode_system_events_and_error() {
    let decoder = EventsDecoder::<TestRuntime>::new(system_metadata(), EventBytesSegmenter::new());

    let input = hex::decode("0c00000000000000482d7c0900000000020000000100000000010300035884723300000000000000000200000000010300035884723300000000000000").unwrap();
    let mut rest = &input[..];
    let entries = decoder.decode_events(&mut rest).unwrap();
    assert!(rest.is_empty());
    assert_eq!(entries.len(), 3);
    assert_eq!(entries[0].0, Phase::ApplyExtrinsic(0));
    match &entries[0].1 {
        Raw::Event(event) => {
            assert_eq!(event.module, "System");
            assert_eq!(event.variant, "ExtrinsicSuccess");
            assert_eq!(event.data, hex::decode("482d7c09000000000200").unwrap());
            assert_eq!(
                event.debug_text(),
                "RawEvent { module: \"System\", variant: \"ExtrinsicSuccess\", \
                 data: \"482d7c09000000000200\" }"
            );
        }
        Raw::Error(_) => panic!("an error"),
    }
    for i in 1..3usize {
        assert_eq!(entries[i].0, Phase::ApplyExtrinsic(i as u32));
        match &entries[i].1 {
            Raw::Event(_) => panic!("an event"),
            Raw::Error(error) => assert_eq!(
                *error,
                RuntimeError::Module(ModuleError {
                    module: "System".to_string(),
                    error: "NonDefaultComposite".to_string(),
                })
            ),
        }
    }
}

#[test]
fn no_events() {
    let decoder = test_decoder();
    let (result, left) = decode(&decoder, &[0, 1, 2]);
    assert_eq!(result.unwrap().len(), 0);
    assert_eq!(left, 2);
}

#[test]
fn phases() {
    let cases: [(&[u8], Phase); 3] = [
        (&[0, 1, 2, 0, 0], Phase::ApplyExtrinsic(513)),
        (&[1], Phase::Finalization),
        (&[2], Phase::Initialization),
    ];
    for (input, phase) in cases.iter() {
        let mut rest = *input;
        assert_eq!(Phase::decode(&mut rest).unwrap(), *phase);
        assert!(rest.is_empty());
    }
}

#[test]
fn phases_that_cannot_be_read() {
    let cases: [(&[u8], usize, &str); 3] = [
        (&[], 0, "Could not decode `Phase`, failed to read variant byte"),
        (&[0, 1, 2, 3], 3, "Could not decode `Phase::ApplyExtrinsic.0`"),
        (&[3, 1], 1, "Could not decode `Phase`, variant doesn't exist"),
    ];
    for (input, left, text) in cases.iter() {
        let mut rest = *input;
        let error = Phase::decode(&mut rest).unwrap_err();
        assert_eq!(rest.len(), *left);
        assert!(format!("{}", error).starts_with(text));
    }
}

#[test]
fn events_of_every_shape() {
    let decoder = test_decoder();
    let mut input = Compact(4u32).encode();
    // `Plain`, with two topics
    input.extend_from_slice(&[1, 5, 0, 8]);
    input.extend_from_slice(&[7; 64]);
    // `Number`
    input.extend_from_slice(&[0, 4, 0, 0, 0, 5, 1, 1, 2, 3, 4, 0]);
    // `Outcomes`: a success and two failures
    input.extend_from_slice(&[2, 5, 2, 12, 0, 1, 2, 1, 5, 0]);
    // `Outcomes`: two successes
    input.extend_from_slice(&[2, 5, 2, 8, 0, 0, 0]);
    input.push(99);
    let (result, left) = decode(&decoder, &input);
    assert_eq!(left, 1);
    assert_eq!(
        result.unwrap(),
        vec![
            "Finalization RawEvent { module: \"Test\", variant: \"Plain\", data: \"\" }",
            "ApplyExtrinsic(4) RawEvent { module: \"Test\", variant: \"Number\", \
             data: \"01020304\" }",
            "Initialization BadOrigin",
            "Initialization NoProviders",
            "Initialization RawEvent { module: \"Test\", variant: \"Outcomes\", data: \"08\" }",
        ]
    );
}

#[test]
fn a_module_is_found_by_its_index() {
    let decoder = test_decoder();
    let (result, left) = decode(&decoder, &[4, 1, 9, 0, 1, 0]);
    assert_eq!(left, 0);
    assert_eq!(
        result.unwrap(),
        vec!["Finalization RawEvent { module: \"Other\", variant: \"Flag\", data: \"01\" }"]
    );
}

#[test]
fn records_that_cannot_be_read() {
    let decoder = test_decoder();
    let cases: [(&[u8], usize); 9] = [
        (&[], 0),
        (&[4], 0),
        (&[4, 3], 0),
        (&[4, 0, 1, 1, 1], 3),
        (&[4, 1], 0),
        (&[4, 1, 5], 0),
        (&[4, 1, 5, 1, 0, 0], 2),
        (&[4, 1, 5, 0], 0),
        (&[4, 1, 5, 0, 4, 1, 2], 0),
    ];
    for (input, left) in cases.iter() {
        let (result, rest) = decode(&decoder, input);
        assert!(matches!(result, Err(Error::Codec(_))));
        assert_eq!(rest, *left);
    }
}

#[test]
fn records_that_the_metadata_does_not_know() {
    let decoder = test_decoder();
    let (result, left) = decode(&decoder, &[4, 1, 6, 0, 0]);
    assert!(matches!(result, Err(Error::Metadata(MetadataError::ModuleIndexNotFound(6)))));
    assert_eq!(left, 2);
    let (result, left) = decode(&decoder, &[4, 1, 6]);
    assert!(matches!(result, Err(Error::Metadata(MetadataError::ModuleIndexNotFound(6)))));
    assert_eq!(left, 0);
    let (result, left) = decode(&decoder, &[4, 1, 5, 4, 0]);
    assert!(matches!(result, Err(Error::Metadata(MetadataError::EventNotFound(4)))));
    assert_eq!(left, 1);
    let (result, _) = decode(&decoder, &[4, 1, 5, 2, 4, 1, 3, 0, 1, 0]);
    assert!(matches!(result, Err(Error::Metadata(MetadataError::ModuleIndexNotFound(0)))));
}

#[test]
fn a_failing_record_ends_the_decoding() {
    let decoder = test_decoder();
    let (result, left) = decode(&decoder, &[12, 1, 5, 0, 0, 1, 5, 3, 9, 9, 0, 1, 5, 0, 0]);
    match result {
        Err(Error::TypeSizeUnavailable(name)) => assert_eq!(name, "Balance"),
        _ => panic!("not the expected error"),
    }
    assert_eq!(left, 7);
}

#[test]
fn types_can_be_registered_later() {
    let mut decoder = test_decoder();
    let input = [4, 1, 5, 3, 9, 8, 0];
    assert!(matches!(decode(&decoder, &input).0, Err(Error::TypeSizeUnavailable(_))));
    decoder.register_type_size::<(u8, u8)>("Balance");
    let (result, left) = decode(&decoder, &input);
    assert_eq!(left, 0);
    assert_eq!(
        result.unwrap(),
        vec!["Finalization RawEvent { module: \"Test\", variant: \"Unknown\", data: \"0908\" }"]
    );
}

#[test]
fn bytes_after_the_events_do_not_matter() {
    let decoder = test_decoder();
    let mut input = vec![8, 1, 5, 1, 1, 2, 3, 4, 0, 2, 5, 2, 4, 1, 1, 0];
    let (result, left) = decode(&decoder, &input);
    let entries = result.unwrap();
    assert_eq!(left, 0);
    assert_eq!(entries.len(), 2);
    input.extend_from_slice(&[4, 5, 6]);
    let (result, left) = decode(&decoder, &input);
    assert_eq!(left, 3);
    assert_eq!(result.unwrap(), entries);
}

#[test]
fn checked_types_suffice() {
    let mut segmenter = EventBytesSegmenter::<TestRuntime>::new();
    segmenter.register_type_size::<()>("DispatchError");
    assert!(segmenter.check_missing_type_sizes(&system_metadata()).is_ok());
    let decoder = EventsDecoder::<TestRuntime>::new(system_metadata(), segmenter);
    for first in 0..=255u8 {
        let input = [4, 1, 0, first, 3, 0, 3, 0, 0, 0, 0, 0, 0, 0, 0, 0, 0, 0];
        let (result, _) = decode(&decoder, &input);
        assert!(!matches!(result, Err(Error::TypeSizeUnavailable(_))));
        assert_eq!(result.is_ok(), first < 2);
    }
}

#[test]
fn events_as_text() {
    let event = RawEvent {
        module: "Te\"st".to_string(),
        variant: "New\nline".to_string(),
        data: vec![0, 1, 0x9a, 0xbc, 0xde, 0xff],
    };
    assert_eq!(
        event.debug_text(),
        "RawEvent { module: \"Te\\\"st\", variant: \"New\\nline\", data: \"00019abcdeff\" }"
    );
    assert_eq!(
        event_text("a", "b", "c"),
        "RawEvent { module: a, variant: b, data: c }"
    );
}

#[test]
fn records_alone_and_together() {
    let decoder = test_decoder();
    let mut records: Vec<Vec<u8>> = vec![
        vec![1, 5, 0, 0],
        vec![0, 4, 0, 0, 0, 5, 1, 1, 2, 3, 4, 0],
        vec![2, 5, 2, 12, 0, 1, 2, 1, 5, 0],
        vec![2, 9, 0, 0, 4],
    ];
    records[3].extend_from_slice(&[8; 32]);
    let mut together = Compact(records.len() as u32).encode();
    let mut expected = Vec::<String>::new();
    for record in records.iter() {
        together.extend_from_slice(record);
        let mut alone = Compact(1u32).encode();
        alone.extend_from_slice(record);
        let (result, left) = decode(&decoder, &alone);
        assert_eq!(left, 0);
        expected.extend(result.unwrap());
    }
    assert_eq!(expected.len(), 5);
    together.extend_from_slice(&[3, 2, 1]);
    let (result, left) = decode(&decoder, &together);
    assert_eq!(left, 3);
    assert_eq!(result.unwrap(), expected);
}

#[test]
fn a_record_is_made_of_its_parts() {
    let decoder = test_decoder();
    let header = [0u8, 1, 0, 0, 0, 9, 0];
    let arguments = true.encode();
    let topics = vec![[1u8; 32], [2u8; 32]].encode();
    let tail = [5u8, 6];
    let mut input = Compact(1u32).encode();
    input.extend_from_slice(&header);
    input.extend_from_slice(&arguments);
    input.extend_from_slice(&topics);
    input.extend_from_slice(&tail);
    let (result, left) = decode(&decoder, &input);
    assert_eq!(left, 2);
    assert_eq!(
        result.unwrap(),
        vec!["ApplyExtrinsic(1) RawEvent { module: \"Other\", variant: \"Flag\", data: \"01\" }"]
    );
}

/// A runtime with hashes of the type `H`.
struct Hashed<H>(std::marker::PhantomData<H>);

impl<H: Segment> System for Hashed<H> {
    type AccountId = [u8; 32];
    type BlockNumber = u32;
    type Hash = H;
}

/// Checks that topics of the type `H` are taken off `topics` as the codec takes a vector off it.
fn topics_as_the_codec_takes_them<H: Segment + Decode>(topics: &[u8]) {
    let metadata = Metadata {
        modules_with_events: vec![ModuleWithEvents {
            index: 0,
            name: "Test".to_string(),
            events: vec![event("Plain", vec![])],
        }],
        modules_with_errors: vec![],
    };
    let decoder = EventsDecoder::<Hashed<H>>::new(metadata, EventBytesSegmenter::new());
    let mut input = vec![4, 1, 0, 0];
    input.extend_from_slice(topics);
    let mut rest = &input[..];
    let result = decoder.decode_events(&mut rest);
    let mut expected = topics;
    assert_eq!(result.is_ok(), Vec::<H>::decode(&mut expected).is_ok());
    assert_eq!(rest, expected);
}

#[test]
fn topics_of_every_type() {
    let mut input = vec![12u8];
    input.extend_from_slice(&[1; 200]);
    for end in 0..input.len() {
        topics_as_the_codec_takes_them::<()>(&input[..end]);
        topics_as_the_codec_takes_them::<bool>(&input[..end]);
        topics_as_the_codec_takes_them::<u8>(&input[..end]);
        topics_as_the_codec_takes_them::<u32>(&input[..end]);
        topics_as_the_codec_takes_them::<u64>(&input[..end]);
        topics_as_the_codec_takes_them::<u128>(&input[..end]);
        topics_as_the_codec_takes_them::<[u8; 16]>(&input[..end]);
        topics_as_the_codec_takes_them::<[u8; 20]>(&input[..end]);
        topics_as_the_codec_takes_them::<[u8; 32]>(&input[..end]);
        topics_as_the_codec_takes_them::<[u8; 64]>(&input[..end]);
        topics_as_the_codec_takes_them::<(u32, u8)>(&input[..end]);
    }
    for first in 0..=255u8 {
        let topics = [first, 1, 0, 1, 1, 0, 2];
        topics_as_the_codec_takes_them::<bool>(&topics);
        topics_as_the_codec_takes_them::<u8>(&topics);
        topics_as_the_codec_takes_them::<u32>(&topics);
        topics_as_the_codec_takes_them::<(u8, bool)>(&topics);
    }
}

#[test]
fn parts_of_a_decoder() {
    let mut decoder = test_decoder();
    decoder.register_type_size::<u64>("Balance");
    let (metadata, segmenter) = decoder.parts();
    assert_eq!(metadata.modules_with_events.len(), 3);
    assert!(segmenter.type_names().contains("Balance"));
    let input = [1u8, 5, 1, 7];
    let mut rest = &input[..];
    match decoder.decode_header(&mut rest) {
        Ok((phase, module, event)) => {
            assert_eq!(phase, Phase::Finalization);
            assert_eq!(module.name, "Test");
            assert_eq!(event.name, "Number");
        }
        Err(_) => panic!("no header"),
    }
    assert_eq!(rest, &[7]);
}

#[test]
fn a_record_is_appended() {
    let decoder = test_decoder();
    let mut entries = vec![(Phase::Initialization, Raw::Error(RuntimeError::BadOrigin))];
    let input = [1u8, 5, 0, 0, 1, 5, 0];
    let mut rest = &input[..];
    decoder.decode_record(&mut rest, &mut entries).unwrap();
    assert_eq!(rest, &input[4..]);
    assert_eq!(
        entries.iter().map(shown).collect::<Vec<String>>(),
        vec![
            "Initialization BadOrigin",
            "Finalization RawEvent { module: \"Test\", variant: \"Plain\", data: \"\" }",
        ]
    );
    assert!(matches!(decoder.decode_record(&mut rest, &mut entries), Err(Error::Codec(_))));
    assert_eq!(entries.len(), 2);
}

#[test]
fn plain_events_are_as_many_as_the_count_says() {
    let metadata = Metadata {
        modules_with_events: vec![ModuleWithEvents {
            index: 3,
            name: "Test".to_string(),
            events: vec![event("Plain", vec![]), event("Flag", vec![primitive("bool")])],
        }],
        modules_with_errors: vec![],
    };
    let decoder = EventsDecoder::<TestRuntime>::new(metadata, EventBytesSegmenter::new());
    for count in 0..70u32 {
        let mut input = Compact(count).encode();
        for i in 0..count {
            if i % 2 == 0 {
                input.extend_from_slice(&[1, 3, 0, 0]);
            } else {
                input.extend_from_slice(&[2, 3, 1, 1, 0]);
            }
        }
        let mut rest = &input[..];
        let entries = decoder.decode_events(&mut rest).unwrap();
        assert!(rest.is_empty());
        assert_eq!(entries.len(), count as usize);
        assert!(entries.iter().all(|entry| matches!(entry.1, Raw::Event(_))));
    }
}

#[test]
fn one_entry_for_each_error_in_order() {
    let decoder = test_decoder();
    // one failure alone, then a success between failures
    let input = [8u8, 1, 5, 2, 4, 1, 4, 0, 2, 5, 2, 12, 1, 1, 0, 1, 2, 0];
    let (result, left) = decode(&decoder, &input);
    assert_eq!(left, 0);
    assert_eq!(
        result.unwrap(),
        vec![
            "Finalization ConsumerRemaining",
            "Initialization CannotLookup",
            "Initialization BadOrigin",
        ]
    );
}
