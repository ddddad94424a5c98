//! Filtering of the fields a child span inherits from its parent: a filter
//! names the affected fields, a mode saying whether they are the only ones
//! let through or the only ones held back, and optionally one span name the
//! filter is scoped to.

use vstd::prelude::*;

use crate::text::str_eq;

verus! {

/// `Include` lets only the named fields pass; `Exclude` lets every field pass
/// except the named ones.
#[derive(Clone, Debug)]
pub enum FilteringMode {
    Include,
    Exclude,
}

/// A field filter, applied to every span or scoped to one span name.
#[derive(Clone, Debug)]
pub struct JsonStorageFilter {
    span_name: Option<String>,
    fields: Vec<String>,
    mode: FilteringMode,
}

impl JsonStorageFilter {
    /// The name of the one span this filter is scoped to, if any.
    pub closed spec fn spec_span_name(&self) -> Option<Seq<char>> {
        match self.span_name {
            Some(n) => Some(n@),
            None => None,
        }
    }

    /// The names of the fields this filter speaks of.
    pub closed spec fn spec_fields(&self) -> Seq<Seq<char>> {
        self.fields@.map_values(|s: String| s@)
    }

    /// Whether this filter includes or excludes its named fields.
    pub closed spec fn spec_mode(&self) -> FilteringMode {
        self.mode
    }

    /// Whether `name` is one of the filter's named fields.
    pub open spec fn spec_names_field(&self, name: Seq<char>) -> bool {
        exists|i: int| 0 <= i < self.spec_fields().len() && self.spec_fields()[i] == name
    }

    /// Whether a field of name `name` passes this filter: under `Include` it
    /// must be named, under `Exclude` it must not be.
    pub open spec fn spec_allows(&self, name: Seq<char>) -> bool {
        match self.spec_mode() {
            FilteringMode::Include => self.spec_names_field(name),
            FilteringMode::Exclude => !self.spec_names_field(name),
        }
    }

    /// A filter on the given fields, applied to every span.
    pub fn new(fields: Vec<String>, mode: FilteringMode) -> (r: Self)
        ensures
            r.spec_span_name() is None,
            r.spec_fields() == fields@.map_values(|s: String| s@),
            r.spec_mode() == mode,
    {
        JsonStorageFilter { span_name: None, fields, mode }
    }

    /// A filter on the given fields, applied only to spans named `span_name`.
    pub fn for_span(span_name: String, fields: Vec<String>, mode: FilteringMode) -> (r: Self)
        ensures
            r.spec_span_name() == Some(span_name@),
            r.spec_fields() == fields@.map_values(|s: String| s@),
            r.spec_mode() == mode,
    {
        JsonStorageFilter { span_name: Some(span_name), fields, mode }
    }

    /// Whether this filter applies to a span of the given name: an unscoped
    /// filter applies to every span, a scoped one only to its span.
    pub fn filter_span(&self, span_name: &str) -> (r: bool)
        ensures
            r == match self.spec_span_name() {
                Some(n) => n == span_name@,
                None => true,
            },
    {
        match &self.span_name {
            Some(n) => str_eq(n.as_str(), span_name),
            None => true,
        }
    }

    /// Whether a field of name `name` passes this filter.
    pub fn filter_field(&self, name: &str) -> (r: bool)
        ensures
            r == self.spec_allows(name@),
    {
        let named = self.names_field(name);
        match &self.mode {
            FilteringMode::Include => named,
            FilteringMode::Exclude => !named,
        }
    }

    fn names_field(&self, name: &str) -> (r: bool)
        ensures
            r == self.spec_names_field(name@),
    {
        let n = self.fields.len();
        let mut i: usize = 0;
        while i < n
            invariant
                i <= n,
                n == self.spec_fields().len(),
                n == self.fields@.len(),
                forall|j: int| 0 <= j < i ==> self.spec_fields()[j] != name@,
            decreases n - i,
        {
            if str_eq(self.fields[i].as_str(), name) {
                proof {
                    assert(self.spec_fields()[i as int] == name@);
                }
                return true;
            }
            i = i + 1;
        }
        false
    }
}

} // verus!
