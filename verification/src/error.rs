//! The errors of decoding, and the errors that a chain reports in its events.

use parity_scale_codec::Error as CodecError;
use vstd::prelude::*;

use crate::codec::{DispatchError, DispatchErrorView};
use crate::metadata::{first_with_errors, Metadata, MetadataError};

verus! {

/// Why some bytes could not be decoded.
#[derive(Debug)]
pub enum Error {
    /// The bytes are not what the codec expects.
    Codec(CodecError),
    /// The bytes speak of something that the metadata does not hold.
    Metadata(MetadataError),
    /// The bytes hold a value of a type that was not registered.
    TypeSizeUnavailable(String),
    /// Another error.
    Other(String),
}

/// The mathematical value of an [`Error`]. Of the codec's errors it only says that one came.
pub enum Failure {
    Codec,
    Metadata(MetadataError),
    TypeSizeUnavailable(Seq<char>),
    Other(Seq<char>),
}

impl View for Error {
    type V = Failure;

    open spec fn view(&self) -> Failure {
        match *self {
            Error::Codec(_) => Failure::Codec,
            Error::Metadata(error) => Failure::Metadata(error),
            Error::TypeSizeUnavailable(name) => Failure::TypeSizeUnavailable(name@),
            Error::Other(text) => Failure::Other(text@),
        }
    }
}

/// The failure that `result` carries, if it is an error.
pub open spec fn failure_of<V>(result: Result<V, Error>) -> Option<Failure> {
    match result {
        Ok(_) => None,
        Err(error) => Some(error@),
    }
}

/// An error of a module of the runtime.
#[derive(Clone, Debug, PartialEq, Eq)]
pub struct ModuleError {
    /// The name of the module.
    pub module: String,
    /// The name of the error.
    pub error: String,
}

/// An error that the runtime reports.
#[derive(Clone, Debug, PartialEq, Eq)]
pub enum RuntimeError {
    /// Module error.
    Module(ModuleError),
    /// At least one consumer is remaining so the account cannot be destroyed.
    ConsumerRemaining,
    /// There are no providers so the account cannot be created.
    NoProviders,
    /// Bad origin.
    BadOrigin,
    /// Cannot lookup.
    CannotLookup,
    /// Other error.
    Other(String),
}

/// The mathematical value of a [`RuntimeError`].
pub enum RuntimeErrorView {
    Module { module: Seq<char>, error: Seq<char> },
    ConsumerRemaining,
    NoProviders,
    BadOrigin,
    CannotLookup,
    Other(Seq<char>),
}

impl View for RuntimeError {
    type V = RuntimeErrorView;

    open spec fn view(&self) -> RuntimeErrorView {
        match *self {
            RuntimeError::Module(error) => RuntimeErrorView::Module {
                module: error.module@,
                error: error.error@,
            },
            RuntimeError::ConsumerRemaining => RuntimeErrorView::ConsumerRemaining,
            RuntimeError::NoProviders => RuntimeErrorView::NoProviders,
            RuntimeError::BadOrigin => RuntimeErrorView::BadOrigin,
            RuntimeError::CannotLookup => RuntimeErrorView::CannotLookup,
            RuntimeError::Other(text) => RuntimeErrorView::Other(text@),
        }
    }
}

/// The runtime error that `metadata` makes of a dispatch error: the index of a module and of an
/// error in it become their names.
pub open spec fn runtime_error(metadata: Metadata, error: DispatchErrorView) -> Result<
    RuntimeErrorView,
    MetadataError,
> {
    match error {
        DispatchErrorView::Module { index, error } => match first_with_errors(
            metadata.modules_with_errors@,
            index,
        ) {
            None => Err(MetadataError::ModuleIndexNotFound(index)),
            Some(module) => if error < module.errors@.len() {
                Ok(
                    RuntimeErrorView::Module {
                        module: module.name@,
                        error: module.errors@[error as int]@,
                    },
                )
            } else {
                Err(MetadataError::ErrorNotFound(error))
            },
        },
        DispatchErrorView::ConsumerRemaining => Ok(RuntimeErrorView::ConsumerRemaining),
        DispatchErrorView::NoProviders => Ok(RuntimeErrorView::NoProviders),
        DispatchErrorView::BadOrigin => Ok(RuntimeErrorView::BadOrigin),
        DispatchErrorView::CannotLookup => Ok(RuntimeErrorView::CannotLookup),
        DispatchErrorView::Other(text) => Ok(RuntimeErrorView::Other(text)),
    }
}

impl RuntimeError {
    /// Converts a dispatch error into a runtime error, with the names that `metadata` has for it.
    pub fn from_dispatch(metadata: &Metadata, error: DispatchError) -> (result: Result<
        RuntimeError,
        Error,
    >)
        ensures
            match runtime_error(*metadata, error@) {
                Ok(value) => result matches Ok(error) && error@ == value,
                Err(missing) => result matches Err(error) && error@ == Failure::Metadata(missing),
            },
    {
        match error {
            DispatchError::Module { index, error } => {
                let module = match metadata.module_with_errors(index) {
                    Ok(module) => module,
                    Err(missing) => return Err(Error::Metadata(missing)),
                };
                match module.error(error) {
                    Ok(name) => Ok(
                        RuntimeError::Module(
                            ModuleError { module: module.name.clone(), error: name.clone() },
                        ),
                    ),
                    Err(missing) => Err(Error::Metadata(missing)),
                }
            },
            DispatchError::ConsumerRemaining => Ok(RuntimeError::ConsumerRemaining),
            DispatchError::NoProviders => Ok(RuntimeError::NoProviders),
            DispatchError::BadOrigin => Ok(RuntimeError::BadOrigin),
            DispatchError::CannotLookup => Ok(RuntimeError::CannotLookup),
            DispatchError::Other(text) => Ok(RuntimeError::Other(text.to_owned())),
        }
    }
}

} // verus!
