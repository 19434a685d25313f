//! The specification model: a validated, ordered list of tag declarations.
//!
//! A declarative input names the tags (categories of failure), each with a
//! visibility qualifier. Validation rejects an empty list; no other
//! structural constraint is checked. The validated [`Specification`] is the
//! single input to the generators.

use vstd::prelude::*;

verus! {

/// The visibility qualifier of a declared item.
#[derive(Clone, Copy, Debug, PartialEq, Eq, Structural)]
pub enum Visibility {
    /// No qualifier: visible in the enclosing module only.
    Inherited,
    /// `pub(crate)`.
    Crate,
    /// `pub`.
    Public,
}

/// One tag declaration: an identifier and its visibility.
///
/// Identity is the name; names are expected to be unique within one
/// generation request, but uniqueness is not validated.
#[derive(Debug)]
pub struct TagSpec {
    pub name: String,
    pub visibility: Visibility,
}

/// The generation-time failure: the declarative input is structurally
/// invalid. Generation aborts outright; nothing is emitted.
#[derive(Clone, Copy, Debug, PartialEq, Eq, Structural)]
pub enum ConfigurationError {
    /// The tag list is empty; at least one tag identifier is required.
    EmptyTagList,
}

impl ConfigurationError {
    /// The diagnostic text for this failure.
    pub fn message(&self) -> (r: String)
        ensures
            r@ == "It should be at least one error type ident"@,
    {
        let m = "It should be at least one error type ident";
        m.to_owned()
    }
}

/// A validated, ordered, non-empty sequence of tag declarations.
#[derive(Debug)]
pub struct Specification {
    tags: Vec<TagSpec>,
}

impl View for Specification {
    type V = Seq<TagSpec>;

    closed spec fn view(&self) -> Seq<TagSpec> {
        self.tags@
    }
}

impl Specification {
    #[verifier::type_invariant]
    closed spec fn non_empty(self) -> bool {
        self.tags@.len() > 0
    }

    /// Validates a raw tag list. Fails exactly when the list is empty;
    /// otherwise the declarations are kept unchanged, in order.
    pub fn new(tags: Vec<TagSpec>) -> (r: Result<Specification, ConfigurationError>)
        ensures
            match r {
                Ok(s) => s@ == tags@ && tags@.len() > 0,
                Err(e) => tags@.len() == 0 && e == ConfigurationError::EmptyTagList,
            },
    {
        if tags.len() == 0 {
            Err(ConfigurationError::EmptyTagList)
        } else {
            Ok(Specification { tags })
        }
    }

    /// The number of declared tags; a validated specification is never
    /// empty.
    pub fn len(&self) -> (r: usize)
        ensures
            r == self@.len(),
            r > 0,
    {
        proof {
            use_type_invariant(self);
        }
        self.tags.len()
    }

    /// The declaration at position `i`.
    pub fn get(&self, i: usize) -> (r: &TagSpec)
        requires
            i < self@.len(),
        ensures
            *r == self@[i as int],
    {
        &self.tags[i]
    }

    /// Gives the declarations up to the generator that consumes them.
    pub fn into_tags(self) -> (r: Vec<TagSpec>)
        ensures
            r@ == self@,
            r@.len() > 0,
    {
        proof {
            use_type_invariant(&self);
        }
        self.tags
    }
}

} // verus!
