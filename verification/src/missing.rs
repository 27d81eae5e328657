//! Which types of a chain's events are not registered.

use vstd::prelude::*;

use crate::metadata::{primitives_of_all, texts, Metadata};
use crate::run::Registry;

verus! {

/// How a missing type is reported: the module and the event that mention it, and its name.
pub open spec fn label(module: Seq<char>, event: Seq<char>, primitive: Seq<char>) -> Seq<char> {
    module + "::"@ + event + "::"@ + primitive
}

/// The primitive types that the arguments of an event mention.
pub open spec fn mentioned(metadata: Metadata, module: int, event: int) -> Seq<Seq<char>> {
    primitives_of_all(metadata.modules_with_events@[module].events@[event].arguments@)
}

/// The event at the given place mentions, at place `primitive`, a type that is not registered.
pub open spec fn is_missing(
    registry: Registry,
    metadata: Metadata,
    module: int,
    event: int,
    primitive: int,
) -> bool {
    &&& 0 <= module < metadata.modules_with_events@.len()
    &&& 0 <= event < metadata.modules_with_events@[module].events@.len()
    &&& 0 <= primitive < mentioned(metadata, module, event).len()
    &&& !registry.dom().contains(mentioned(metadata, module, event)[primitive])
}

/// The report of the type at the given place.
pub open spec fn label_at(metadata: Metadata, module: int, event: int, primitive: int) -> Seq<
    char,
> {
    label(
        metadata.modules_with_events@[module].name@,
        metadata.modules_with_events@[module].events@[event].name@,
        mentioned(metadata, module, event)[primitive],
    )
}

/// The reports of all types that the events of `metadata` mention and `registry` does not know.
pub open spec fn missing_labels(registry: Registry, metadata: Metadata) -> Set<Seq<char>> {
    Set::new(
        |text: Seq<char>|
            exists|module: int, event: int, primitive: int| #[trigger]
                is_missing(registry, metadata, module, event, primitive) && text == label_at(
                    metadata,
                    module,
                    event,
                    primitive,
                ),
    )
}

/// `text` reports a missing type at a place before the given one.
pub open spec fn found_before(
    registry: Registry,
    metadata: Metadata,
    module: int,
    event: int,
    primitive: int,
    text: Seq<char>,
) -> bool {
    exists|m: int, e: int, p: int| #[trigger]
        is_missing(registry, metadata, m, e, p) && text == label_at(metadata, m, e, p) && (m
            < module || (m == module && (e < event || (e == event && p < primitive))))
}

/// `list` reports, without repetition, the missing types at the places before the given one.
pub open spec fn reports_before(
    list: Seq<String>,
    registry: Registry,
    metadata: Metadata,
    module: int,
    event: int,
    primitive: int,
) -> bool {
    &&& texts(list).no_duplicates()
    &&& forall|text: Seq<char>| #[trigger]
        texts(list).contains(text) <==> found_before(
            registry,
            metadata,
            module,
            event,
            primitive,
            text,
        )
}

/// A report that is already in `list` adds nothing to it, and any other is added at its end.
pub proof fn lemma_pushed(list: Seq<String>, text: String)
    ensures
        texts(list.push(text)) == texts(list).push(text@),
        !texts(list).contains(text@) && texts(list).no_duplicates() ==> texts(
            list.push(text),
        ).no_duplicates(),
        forall|other: Seq<char>| #[trigger]
            texts(list.push(text)).contains(other) <==> texts(list).contains(other) || other
                == text@,
{
    assert(texts(list.push(text)) =~= texts(list).push(text@));
    assert forall|other: Seq<char>| #[trigger]
        texts(list.push(text)).contains(other) <==> texts(list).contains(other) || other
            == text@ by {
        let all = texts(list).push(text@);
        if texts(list).contains(other) {
            let i = choose|i: int| 0 <= i < texts(list).len() && texts(list)[i] == other;
            assert(all[i] == other);
        }
        if other == text@ {
            assert(all[list.len() as int] == other);
        }
        if all.contains(other) {
            let i = choose|i: int| 0 <= i < all.len() && all[i] == other;
            if i < list.len() {
                assert(texts(list)[i] == other);
            }
        }
    }
}

/// Whether `list` holds the text of `text`.
pub(crate) fn holds(list: &Vec<String>, text: &String) -> (found: bool)
    ensures
        found == texts(list@).contains(text@),
{
    let mut i: usize = 0;
    while i < list.len()
        invariant
            i <= list.len(),
            forall|k: int| 0 <= k < i ==> (#[trigger] list@[k])@ != text@,
        decreases list.len() - i,
    {
        if list[i] == *text {
            assert(texts(list@)[i as int] == text@);
            return true;
        }
        i += 1;
    }
    assert forall|k: int| 0 <= k < list@.len() implies #[trigger] texts(list@)[k] != text@ by {
        assert(list@[k]@ != text@);
    }
    false
}

/// The report of a missing type.
pub(crate) fn report(module: &String, event: &String, primitive: &String) -> (text: String)
    ensures
        text@ == label(module@, event@, primitive@),
{
    let mut text = module.clone();
    text.append("::");
    text.append(event.as_str());
    text.append("::");
    text.append(primitive.as_str());
    text
}

} // verus!
