//! What is found in the metadata: modules, events, errors and the types that events mention.

use vstd::prelude::*;

use crate::codec::DispatchErrorView;
use crate::error::{runtime_error, RuntimeErrorView};
use crate::metadata::{
    first_with_errors, first_with_events, primitives_of, primitives_of_all, EventArg, Metadata,
    MetadataError, ModuleWithErrors, ModuleWithEvents,
};
use crate::missing::{is_missing, label_at, mentioned, missing_labels};
use crate::run::Registry;

verus! {

/// A module with events is found by its index, whatever its place, unless one before it has the
/// same index.
pub proof fn law_events_found(modules: Seq<ModuleWithEvents>, index: u8, place: int)
    requires
        0 <= place < modules.len(),
        modules[place].index == index,
        forall|j: int| 0 <= j < place ==> (#[trigger] modules[j]).index != index,
    ensures
        first_with_events(modules, index) == Some(modules[place]),
    decreases modules.len(),
{
    if place > 0 {
        let others = modules.skip(1);
        assert(modules[0].index != index);
        assert forall|j: int| 0 <= j < place - 1 implies (#[trigger] others[j]).index != index by {
            assert(others[j] == modules[j + 1]);
        }
        law_events_found(others, index, place - 1);
    }
}

/// A module with events is found by an index exactly where one of the modules has that index, and
/// the one that is found is the first of these.
pub proof fn law_events_found_iff(modules: Seq<ModuleWithEvents>, index: u8)
    ensures
        first_with_events(modules, index) is Some <==> exists|k: int|
            0 <= k < modules.len() && (#[trigger] modules[k]).index == index,
        first_with_events(modules, index) matches Some(module) ==> module.index == index
            && exists|k: int|
            0 <= k < modules.len() && #[trigger] modules[k] == module && forall|j: int|
                0 <= j < k ==> (#[trigger] modules[j]).index != index,
    decreases modules.len(),
{
    if modules.len() > 0 && modules[0].index != index {
        let others = modules.skip(1);
        law_events_found_iff(others, index);
        if let Some(module) = first_with_events(others, index) {
            let k = choose|k: int|
                0 <= k < others.len() && #[trigger] others[k] == module && forall|j: int|
                    0 <= j < k ==> (#[trigger] others[j]).index != index;
            assert(modules[k + 1] == module);
            assert forall|j: int| 0 <= j < k + 1 implies (#[trigger] modules[j]).index
                != index by {
                if j > 0 {
                    assert(others[j - 1] == modules[j]);
                }
            }
        } else {
            assert forall|k: int| 0 <= k < modules.len() implies (#[trigger] modules[k]).index
                != index by {
                if k > 0 {
                    assert(others[k - 1] == modules[k]);
                }
            }
        }
    } else if modules.len() > 0 {
        assert(modules[0].index == index);
    }
}

/// A module with errors is found by its index, whatever its place, unless one before it has the
/// same index.
pub proof fn law_errors_found(modules: Seq<ModuleWithErrors>, index: u8, place: int)
    requires
        0 <= place < modules.len(),
        modules[place].index == index,
        forall|j: int| 0 <= j < place ==> (#[trigger] modules[j]).index != index,
    ensures
        first_with_errors(modules, index) == Some(modules[place]),
    decreases modules.len(),
{
    if place > 0 {
        let others = modules.skip(1);
        assert(modules[0].index != index);
        assert forall|j: int| 0 <= j < place - 1 implies (#[trigger] others[j]).index != index by {
            assert(others[j] == modules[j + 1]);
        }
        law_errors_found(others, index, place - 1);
    }
}

/// A module with errors is found by an index exactly where one of the modules has that index, and
/// the one that is found is the first of these.
pub proof fn law_errors_found_iff(modules: Seq<ModuleWithErrors>, index: u8)
    ensures
        first_with_errors(modules, index) is Some <==> exists|k: int|
            0 <= k < modules.len() && (#[trigger] modules[k]).index == index,
        first_with_errors(modules, index) matches Some(module) ==> module.index == index
            && exists|k: int|
            0 <= k < modules.len() && #[trigger] modules[k] == module && forall|j: int|
                0 <= j < k ==> (#[trigger] modules[j]).index != index,
    decreases modules.len(),
{
    if modules.len() > 0 && modules[0].index != index {
        let others = modules.skip(1);
        law_errors_found_iff(others, index);
        if let Some(module) = first_with_errors(others, index) {
            let k = choose|k: int|
                0 <= k < others.len() && #[trigger] others[k] == module && forall|j: int|
                    0 <= j < k ==> (#[trigger] others[j]).index != index;
            assert(modules[k + 1] == module);
            assert forall|j: int| 0 <= j < k + 1 implies (#[trigger] modules[j]).index
                != index by {
                if j > 0 {
                    assert(others[j - 1] == modules[j]);
                }
            }
        } else {
            assert forall|k: int| 0 <= k < modules.len() implies (#[trigger] modules[k]).index
                != index by {
                if k > 0 {
                    assert(others[k - 1] == modules[k]);
                }
            }
        }
    } else if modules.len() > 0 {
        assert(modules[0].index == index);
    }
}

/// An error of a module goes by the name of the module of its index and the name that this module
/// has for the error.
pub proof fn law_module_error(metadata: Metadata, index: u8, error: u8, place: int)
    requires
        0 <= place < metadata.modules_with_errors@.len(),
        metadata.modules_with_errors@[place].index == index,
        forall|j: int|
            0 <= j < place ==> (#[trigger] metadata.modules_with_errors@[j]).index != index,
    ensures
        runtime_error(metadata, DispatchErrorView::Module { index, error }) == if error
            < metadata.modules_with_errors@[place].errors@.len() {
            Ok(
                RuntimeErrorView::Module {
                    module: metadata.modules_with_errors@[place].name@,
                    error: metadata.modules_with_errors@[place].errors@[error as int]@,
                },
            )
        } else {
            Err(MetadataError::ErrorNotFound(error))
        },
{
    law_errors_found(metadata.modules_with_errors@, index, place);
}

/// Every named error of a module has the names of one module of the metadata, whose index is that
/// of the error. Where no module has the index, that is what is reported.
pub proof fn law_module_error_names(metadata: Metadata, index: u8, error: u8)
    ensures
        ({
            let modules = metadata.modules_with_errors@;
            let named = runtime_error(metadata, DispatchErrorView::Module { index, error });
            &&& named matches Ok(value) ==> exists|k: int|
                0 <= k < modules.len() && (#[trigger] modules[k]).index == index && error
                    < modules[k].errors@.len() && value == (RuntimeErrorView::Module {
                    module: modules[k].name@,
                    error: modules[k].errors@[error as int]@,
                })
            &&& named == Err::<RuntimeErrorView, MetadataError>(
                MetadataError::ModuleIndexNotFound(index),
            ) <==> forall|k: int| 0 <= k < modules.len() ==> (#[trigger] modules[k]).index != index
        }),
{
    let modules = metadata.modules_with_errors@;
    law_errors_found_iff(modules, index);
    if let Some(module) = first_with_errors(modules, index) {
        let k = choose|k: int|
            0 <= k < modules.len() && #[trigger] modules[k] == module && forall|j: int|
                0 <= j < k ==> (#[trigger] modules[j]).index != index;
        assert(modules[k].index == index);
        law_module_error(metadata, index, error, k);
    }
}

/// The errors that are not those of a module keep their kind and their text, whatever the metadata.
pub proof fn law_plain_error(metadata: Metadata, text: Seq<char>)
    ensures
        runtime_error(metadata, DispatchErrorView::Other(text)) == Ok::<
            RuntimeErrorView,
            MetadataError,
        >(RuntimeErrorView::Other(text)),
        runtime_error(metadata, DispatchErrorView::CannotLookup) == Ok::<
            RuntimeErrorView,
            MetadataError,
        >(RuntimeErrorView::CannotLookup),
        runtime_error(metadata, DispatchErrorView::BadOrigin) == Ok::<
            RuntimeErrorView,
            MetadataError,
        >(RuntimeErrorView::BadOrigin),
        runtime_error(metadata, DispatchErrorView::ConsumerRemaining) == Ok::<
            RuntimeErrorView,
            MetadataError,
        >(RuntimeErrorView::ConsumerRemaining),
        runtime_error(metadata, DispatchErrorView::NoProviders) == Ok::<
            RuntimeErrorView,
            MetadataError,
        >(RuntimeErrorView::NoProviders),
{
}

/// A type mentions itself where it has a name, and what its parts mention, no more and no less.
pub proof fn law_primitives(arg: EventArg)
    ensures
        arg matches EventArg::Primitive(name) ==> primitives_of(arg).len() == 1 && primitives_of(
            arg,
        )[0] == name@,
        arg matches EventArg::Vec(inner) ==> primitives_of(arg) == primitives_of(*inner),
        arg matches EventArg::Option(inner) ==> primitives_of(arg) == primitives_of(*inner),
        arg matches EventArg::Tuple(args) ==> primitives_of(arg) == primitives_of_all(args@),
{
}

/// Types in a list mention what each of them mentions, in their order.
pub proof fn law_primitives_of_list(first: Seq<EventArg>, second: Seq<EventArg>, arg: EventArg)
    ensures
        primitives_of_all(Seq::empty()) == Seq::<Seq<char>>::empty(),
        primitives_of_all(seq![arg]) == primitives_of(arg),
        primitives_of_all(first + second) == primitives_of_all(first) + primitives_of_all(second),
    decreases first.len(),
{
    reveal_with_fuel(primitives_of_all, 2);
    assert(seq![arg].skip(1) =~= Seq::empty());
    assert(seq![arg][0] == arg);
    assert(primitives_of_all(seq![arg]) =~= primitives_of(arg));
    if first.len() == 0 {
        assert(first + second =~= second);
        assert(primitives_of_all(first + second) =~= primitives_of_all(first) + primitives_of_all(
            second,
        ));
    } else {
        assert((first + second).skip(1) =~= first.skip(1) + second);
        law_primitives_of_list(first.skip(1), second, arg);
        assert(primitives_of_all(first + second) =~= primitives_of_all(first) + primitives_of_all(
            second,
        ));
    }
}

/// A list of types mentions a name exactly where one of the types does.
pub proof fn law_mentioned_by_one(args: Seq<EventArg>, name: Seq<char>)
    ensures
        primitives_of_all(args).contains(name) <==> exists|i: int|
            0 <= i < args.len() && primitives_of(#[trigger] args[i]).contains(name),
    decreases args.len(),
{
    if args.len() > 0 {
        let first = primitives_of(args[0]);
        let rest = args.skip(1);
        let others = primitives_of_all(rest);
        let all = primitives_of_all(args);
        law_mentioned_by_one(rest, name);
        if all.contains(name) {
            let i = choose|i: int| 0 <= i < all.len() && all[i] == name;
            if i < first.len() {
                assert(first[i] == name);
                assert(primitives_of(args[0]).contains(name));
            } else {
                assert(others[i - first.len()] == name);
                let k = choose|k: int|
                    0 <= k < rest.len() && primitives_of(#[trigger] rest[k]).contains(name);
                assert(primitives_of(args[k + 1]).contains(name));
            }
        }
        if exists|i: int| 0 <= i < args.len() && primitives_of(#[trigger] args[i]).contains(name) {
            let i = choose|i: int|
                0 <= i < args.len() && primitives_of(#[trigger] args[i]).contains(name);
            if i == 0 {
                let k = choose|k: int| 0 <= k < first.len() && first[k] == name;
                assert(all[k] == name);
            } else {
                assert(primitives_of(rest[i - 1]).contains(name));
                let k = choose|k: int| 0 <= k < others.len() && others[k] == name;
                assert(all[first.len() + k] == name);
            }
        }
    }
}

/// A missing type is reported under the module that holds the event and under that event: the
/// reports are the texts "module::event::type" of these, and no others.
pub proof fn law_missing_reports(registry: Registry, metadata: Metadata, text: Seq<char>)
    ensures
        missing_labels(registry, metadata).contains(text) <==> exists|m: int, e: int, p: int|
            {
                &&& 0 <= m < metadata.modules_with_events@.len()
                &&& 0 <= e < metadata.modules_with_events@[m].events@.len()
                &&& 0 <= p < primitives_of_all(
                    metadata.modules_with_events@[m].events@[e].arguments@,
                ).len()
                &&& !registry.dom().contains(
                    primitives_of_all(metadata.modules_with_events@[m].events@[e].arguments@)[p],
                )
                &&& text == metadata.modules_with_events@[m].name@ + "::"@
                    + metadata.modules_with_events@[m].events@[e].name@ + "::"@
                    + #[trigger] primitives_of_all(
                    metadata.modules_with_events@[m].events@[e].arguments@,
                )[p]
            },
{
    if missing_labels(registry, metadata).contains(text) {
        let (m, e, p) = choose|m: int, e: int, p: int| #[trigger]
            is_missing(registry, metadata, m, e, p) && text == label_at(metadata, m, e, p);
        let name = primitives_of_all(
            metadata.modules_with_events@[m].events@[e].arguments@,
        )[p];
        assert(name == mentioned(metadata, m, e)[p]);
    }
    assert forall|m: int, e: int, p: int|
        ({
            &&& 0 <= m < metadata.modules_with_events@.len()
            &&& 0 <= e < metadata.modules_with_events@[m].events@.len()
            &&& 0 <= p < primitives_of_all(
                metadata.modules_with_events@[m].events@[e].arguments@,
            ).len()
            &&& !registry.dom().contains(
                primitives_of_all(metadata.modules_with_events@[m].events@[e].arguments@)[p],
            )
            &&& text == metadata.modules_with_events@[m].name@ + "::"@
                + metadata.modules_with_events@[m].events@[e].name@ + "::"@
                + #[trigger] primitives_of_all(
                metadata.modules_with_events@[m].events@[e].arguments@,
            )[p]
        }) implies missing_labels(registry, metadata).contains(text) by {
        assert(is_missing(registry, metadata, m, e, p));
        assert(text == label_at(metadata, m, e, p));
    }
}

} // verus!
