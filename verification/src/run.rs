//! What walking the argument types of an event over its bytes comes to.

use vstd::prelude::*;

use crate::bytes::{compact_digits, compact_front, Taken};
use crate::codec::{
    byte_front, dispatch_error_front, dispatch_result_front, DispatchErrorView,
};
use crate::error::{runtime_error, Failure, RuntimeError, RuntimeErrorView};
use crate::metadata::{EventArg, Metadata};
use crate::segment::Segmenter;

verus! {

/// The segmenters of the registered types, by name.
pub type Registry = Map<Seq<char>, Segmenter>;

/// How far a walk has come: the bytes not read yet, the bytes put out, the errors of the runtime
/// met on the way, and what stopped it, if anything did.
pub struct Progress {
    pub rest: Seq<u8>,
    pub output: Seq<u8>,
    pub errors: Seq<RuntimeErrorView>,
    pub failure: Option<Failure>,
}

/// A walk that has all of `input` to read and has done nothing yet.
pub open spec fn fresh(input: Seq<u8>) -> Progress {
    Progress { rest: input, output: Seq::empty(), errors: Seq::empty(), failure: None }
}

/// The values of some errors of the runtime.
pub open spec fn error_values(errors: Seq<RuntimeError>) -> Seq<RuntimeErrorView> {
    errors.map_values(|error: RuntimeError| error@)
}

/// A walk that has come to the given bytes and errors, and stopped where `failure` says so.
pub open spec fn at(
    rest: Seq<u8>,
    output: Seq<u8>,
    errors: Seq<RuntimeError>,
    failure: Option<Failure>,
) -> Progress {
    Progress { rest, output, errors: error_values(errors), failure }
}

impl Progress {
    /// Takes `used` bytes and goes on.
    pub open spec fn take(self, used: nat) -> Progress {
        Progress { rest: self.rest.skip(used as int), ..self }
    }

    /// Puts out `bytes` and goes on.
    pub open spec fn put(self, bytes: Seq<u8>) -> Progress {
        Progress { output: self.output + bytes, ..self }
    }

    /// Stops.
    pub open spec fn stop(self, failure: Failure) -> Progress {
        Progress { failure: Some(failure), ..self }
    }

    /// Notes an error of the runtime, under the names that `metadata` has for it. A walk that
    /// finds no names for it stops.
    pub open spec fn note(self, metadata: Metadata, error: Option<DispatchErrorView>) -> Progress {
        match error {
            None => self,
            Some(error) => match runtime_error(metadata, error) {
                Ok(value) => Progress { errors: self.errors.push(value), ..self },
                Err(missing) => self.stop(Failure::Metadata(missing)),
            },
        }
    }
}

/// Reads the outcome of a dispatched call. Nothing is put out for it.
pub open spec fn run_dispatch(
    metadata: Metadata,
    outcome: Taken<Option<DispatchErrorView>>,
    from: Progress,
) -> Progress {
    match outcome.value {
        Some(error) => from.take(outcome.used).note(metadata, error),
        None => from.take(outcome.used).stop(Failure::Codec),
    }
}

/// Reads a dispatch error as the outcome of a call that failed.
pub open spec fn failed_dispatch(input: Seq<u8>) -> Taken<Option<DispatchErrorView>> {
    let error = dispatch_error_front(input);
    Taken {
        used: error.used,
        value: match error.value {
            Some(error) => Some(Some(error)),
            None => None,
        },
    }
}

/// Lets a segmenter cut out a value.
pub open spec fn run_segmenter(segmenter: Segmenter, from: Progress) -> Progress {
    let taken = segmenter(from.rest);
    match taken.value {
        Some(bytes) => from.take(taken.used).put(bytes),
        None => from.take(taken.used).stop(Failure::Codec),
    }
}

/// Reads a value of the primitive type `name`. The outcomes of dispatched calls are looked into;
/// every other type is left to its segmenter.
pub open spec fn run_primitive(
    registry: Registry,
    metadata: Metadata,
    name: Seq<char>,
    from: Progress,
) -> Progress {
    if name == "DispatchResult"@ {
        run_dispatch(metadata, dispatch_result_front(from.rest), from)
    } else if name == "DispatchError"@ {
        run_dispatch(metadata, failed_dispatch(from.rest), from)
    } else if registry.dom().contains(name) {
        run_segmenter(registry[name], from)
    } else {
        from.stop(Failure::TypeSizeUnavailable(name))
    }
}

/// Reads a value of the type `arg`.
pub open spec fn run_arg(
    registry: Registry,
    metadata: Metadata,
    arg: EventArg,
    from: Progress,
) -> Progress
    decreases arg, 0nat,
{
    match arg {
        EventArg::Primitive(name) => run_primitive(registry, metadata, name@, from),
        EventArg::Tuple(args) => run_args(registry, metadata, args@, from),
        EventArg::Vec(inner) => {
            let count = compact_front(from.rest);
            match count.value {
                Some(value) => run_repeated(
                    registry,
                    metadata,
                    *inner,
                    value,
                    from.take(count.used).put(compact_digits(value)),
                ),
                None => from.take(count.used).stop(Failure::Codec),
            }
        },
        EventArg::Option(inner) => {
            let flag = byte_front(from.rest);
            if flag.value is None {
                from.take(flag.used).stop(Failure::Codec)
            } else if flag.value == Some(0u8) {
                from.take(flag.used).put(seq![0u8])
            } else if flag.value == Some(1u8) {
                run_arg(registry, metadata, *inner, from.take(flag.used).put(seq![1u8]))
            } else {
                from.take(flag.used).stop(Failure::Other("unexpected first byte decoding Option"@))
            }
        },
    }
}

/// Reads `count` values of the type `arg`, one after the other.
pub open spec fn run_repeated(
    registry: Registry,
    metadata: Metadata,
    arg: EventArg,
    count: nat,
    from: Progress,
) -> Progress
    decreases arg, count + 1,
{
    if count == 0 || from.failure is Some {
        from
    } else {
        run_repeated(
            registry,
            metadata,
            arg,
            (count - 1) as nat,
            run_arg(registry, metadata, arg, from),
        )
    }
}

/// Reads a value of each of the types `args`, one after the other.
pub open spec fn run_args(
    registry: Registry,
    metadata: Metadata,
    args: Seq<EventArg>,
    from: Progress,
) -> Progress
    decreases args, 0nat,
{
    if args.len() == 0 || from.failure is Some {
        from
    } else {
        run_args(
            registry,
            metadata,
            args.skip(1),
            run_arg(registry, metadata, args[0], from),
        )
    }
}

} // verus!
