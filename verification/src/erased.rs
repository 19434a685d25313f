//! The runtime error values: type-erased errors and tag wrappers.
//!
//! An erased error is either a plain, foreign error — opaque to this
//! library but for its message — or an error wrapped by a tag. A tag
//! wrapper holds exactly one underlying erased error, taken by ownership,
//! and remembers which tag produced it; that identity is what dispatch
//! recognises at runtime.

use vstd::prelude::*;

verus! {

/// A type-erased error: a plain foreign error, or one wrapped by a tag.
pub enum ErasedError {
    /// A foreign error, reduced to its message.
    Plain(String),
    /// An error wrapped by a tag.
    Tagged(Box<TagError>),
}

/// A tag's opaque wrapper: the position of the tag that produced it, and
/// the wrapped erased error, held by ownership.
pub struct TagError {
    pub tag: usize,
    pub inner: ErasedError,
}

/// Wraps a value already in the erased form into tag `t`'s wrapper.
/// Total: any erased error can be classified under any tag.
pub fn construct(t: usize, value: ErasedError) -> (r: TagError)
    ensures
        r.tag == t,
        r.inner == value,
{
    TagError { tag: t, inner: value }
}

impl From<String> for ErasedError {
    /// Brings a foreign error, reduced to its message, into the erased
    /// form. Total: every message is an erased error.
    fn from(message: String) -> (r: ErasedError)
        ensures
            r == ErasedError::Plain(message),
    {
        ErasedError::Plain(message)
    }
}

impl vstd::std_specs::convert::FromSpecImpl<String> for ErasedError {
    open spec fn obeys_from_spec() -> bool {
        true
    }

    open spec fn from_spec(message: String) -> ErasedError {
        ErasedError::Plain(message)
    }
}

impl From<TagError> for ErasedError {
    /// Erases the wrapper's own type: the wrapper itself becomes an
    /// erased error, so that it can propagate and later be recognised.
    fn from(e: TagError) -> (r: ErasedError)
        ensures
            r == ErasedError::Tagged(Box::new(e)),
    {
        ErasedError::Tagged(Box::new(e))
    }
}

impl vstd::std_specs::convert::FromSpecImpl<TagError> for ErasedError {
    open spec fn obeys_from_spec() -> bool {
        true
    }

    open spec fn from_spec(e: TagError) -> ErasedError {
        ErasedError::Tagged(Box::new(e))
    }
}

impl ErasedError {
    /// The message of the underlying foreign error, however many tag
    /// wrappers stand around it.
    pub open spec fn spec_message(self) -> Seq<char>
        decreases self,
    {
        match self {
            ErasedError::Plain(m) => m@,
            ErasedError::Tagged(te) => te.inner.spec_message(),
        }
    }

    /// The underlying foreign error's message.
    pub fn message(&self) -> (r: &str)
        ensures
            r@ == self.spec_message(),
        decreases *self,
    {
        match self {
            ErasedError::Plain(m) => m.as_str(),
            ErasedError::Tagged(te) => te.inner.message(),
        }
    }
}

} // verus!
