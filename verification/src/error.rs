//! Runtime error type used by the generated contracts' helpers, with the
//! conversion traits the generated definitions rely on.

use vstd::prelude::*;

verus! {

/// The unified contract error. `Std` carries the message of an error of the
/// base foreign-error type; `Generic` wraps any other displayed value.
#[derive(Debug, Clone, PartialEq, Eq)]
pub enum Error {
    Generic { msg: String },
    Std { msg: String },
    Unauthorized {},
    Disabled {},
    Expired(&'static str),
    InsufficientFunds {},
    FundsNotRequired {},
    Input {},
    Unexpected {},
}

/// Wrapping a displayed value into an error type. The spec method names
/// the wrapped form; `wrap_err` returns exactly that.
pub trait WrapErr<T>: Sized {
    /// The error the wrap produces for this value.
    spec fn spec_wrap_err(inner: &T) -> Self;

    fn wrap_err(inner: T) -> (r: Self)
        ensures
            r == Self::spec_wrap_err(&inner),
    ;
}

impl WrapErr<String> for Error {
    /// The generic variant carrying the displayed text.
    open spec fn spec_wrap_err(inner: &String) -> Error {
        Error::Generic { msg: *inner }
    }

    fn wrap_err(inner: String) -> (r: Self) {
        Error::Generic { msg: inner }
    }
}

/// Building an error type out of a foreign-error message.
pub trait FromStdError: Sized {
    fn from_std(msg: String) -> Self;
}

impl FromStdError for Error {
    fn from_std(msg: String) -> (r: Self)
        ensures
            r == (Error::Std { msg }),
    {
        Error::Std { msg }
    }
}

/// Mapping the error of a result through `WrapErr`: success passes through
/// untouched, failure comes back in its wrapped form.
pub trait WrapRes<T, E>: Sized {
    /// Whether the carried result is a success.
    spec fn spec_is_ok(&self) -> bool;

    /// The carried success value, when there is one.
    spec fn spec_ok_value(&self) -> Option<T>;

    /// Whether `e` is the wrapped form of the carried failure.
    spec fn spec_wrapped_err(&self, e: &E) -> bool;

    fn wrap(self) -> (r: Result<T, E>)
        ensures
            r is Ok <==> self.spec_is_ok(),
            r matches Ok(t) ==> self.spec_ok_value() == Some(t),
            r matches Err(e) ==> self.spec_wrapped_err(&e),
    ;
}

impl<T, I, E: WrapErr<I>> WrapRes<T, E> for Result<T, I> {
    open spec fn spec_is_ok(&self) -> bool {
        self is Ok
    }

    open spec fn spec_ok_value(&self) -> Option<T> {
        match self {
            Ok(t) => Some(*t),
            Err(_) => None,
        }
    }

    open spec fn spec_wrapped_err(&self, e: &E) -> bool {
        match self {
            Ok(_) => false,
            Err(i) => *e == E::spec_wrap_err(i),
        }
    }

    fn wrap(self) -> (r: Result<T, E>) {
        match self {
            Ok(t) => Ok(t),
            Err(i) => Err(E::wrap_err(i)),
        }
    }
}

} // verus!
