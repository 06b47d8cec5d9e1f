//! Access control and message validation.

use vstd::prelude::*;

verus! {

use crate::error::Error;
use crate::strutil::str_eq;

/// A contract address, already validated by the host's address backend. The
/// front end converts backend addresses into this form and back.
#[derive(Debug, Clone, PartialEq, Eq)]
pub struct Addr {
    pub text: String,
}

impl Addr {
    /// Wraps an already-validated address string.
    pub fn new(text: String) -> (r: Self)
        ensures
            r.text@ == text@,
    {
        Addr { text }
    }

    /// The address as text.
    pub fn as_str(&self) -> (r: &str)
        ensures
            r@ == self.text@,
    {
        self.text.as_str()
    }
}

/// Gate keeping by address equality.
pub trait Authorize {
    fn authorize(&self, addr: &Addr) -> Result<(), Error>;
}

impl Authorize for Addr {
    /// Allows exactly the holder of the same address; everyone else is
    /// `Unauthorized`.
    fn authorize(&self, addr: &Addr) -> (r: Result<(), Error>)
        ensures
            self.text@ == addr.text@ ==> r == Ok::<(), Error>(()),
            self.text@ != addr.text@ ==> r == Err::<(), Error>(Error::Unauthorized {  }),
    {
        if !str_eq(self.text.as_str(), addr.text.as_str()) {
            return Err(Error::Unauthorized {  });
        }
        Ok(())
    }
}

/// Turning a message form into its validated runtime form. The two spec
/// methods say which messages are valid and which runtime value each valid
/// message stands for; `validate` succeeds exactly on the valid messages.
pub trait Validate<T>: Sized {
    /// Whether this message form is valid.
    spec fn spec_valid(&self) -> bool;

    /// Whether `t` is the validated form of this message.
    spec fn spec_validated(&self, t: &T) -> bool;

    fn validate(&self) -> (r: Result<T, Error>)
        ensures
            r is Ok <==> self.spec_valid(),
            r matches Ok(t) ==> self.spec_validated(&t),
    ;
}

impl<T, U: Validate<T>> Validate<Vec<T>> for Vec<U> {
    /// A list is valid when every element is.
    open spec fn spec_valid(&self) -> bool {
        forall|i: int| 0 <= i < self@.len() ==> (#[trigger] self@[i]).spec_valid()
    }

    /// Elementwise validation, in order.
    open spec fn spec_validated(&self, t: &Vec<T>) -> bool {
        &&& t@.len() == self@.len()
        &&& forall|i: int| 0 <= i < self@.len() ==> (#[trigger] self@[i]).spec_validated(&t@[i])
    }

    /// Validates every element; the first failure aborts the whole list.
    fn validate(&self) -> (r: Result<Vec<T>, Error>) {
        let mut out: Vec<T> = Vec::new();
        let n = self.len();
        let mut i: usize = 0;
        while i < n
            invariant
                0 <= i <= n,
                n == self@.len(),
                out@.len() == i,
                forall|j: int| 0 <= j < i ==> (#[trigger] self@[j]).spec_valid(),
                forall|j: int| 0 <= j < i ==> (#[trigger] self@[j]).spec_validated(&out@[j]),
            decreases n - i,
        {
            match self[i].validate() {
                Ok(t) => out.push(t),
                Err(e) => {
                    proof {
                        assert(!self@[i as int].spec_valid());
                    }
                    return Err(e);
                },
            }
            i += 1;
        }
        Ok(out)
    }
}

impl<T, U: Validate<T>> Validate<Option<T>> for Option<U> {
    /// A missing value is valid; a present one is valid when it is.
    open spec fn spec_valid(&self) -> bool {
        match self {
            Some(x) => x.spec_valid(),
            None => true,
        }
    }

    /// Presence is kept, and a present value validates elementwise.
    open spec fn spec_validated(&self, t: &Option<T>) -> bool {
        match (self, t) {
            (Some(x), Some(y)) => x.spec_validated(y),
            (None, None) => true,
            _ => false,
        }
    }

    /// Validates the value when one is there.
    fn validate(&self) -> (r: Result<Option<T>, Error>) {
        match self {
            Some(x) => match x.validate() {
                Ok(t) => Ok(Some(t)),
                Err(e) => Err(e),
            },
            None => Ok(None),
        }
    }
}

} // verus!
