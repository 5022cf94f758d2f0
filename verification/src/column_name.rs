//! Paths to columns.

use crate::strings::{clone_strings, strings_equal, strings_view};
use vstd::prelude::*;

verus! {

/// The path to a field: the names of the fields that enclose it, outermost first, then its own.
#[derive(Debug)]
pub struct ColumnName {
    path: Vec<String>,
}

impl View for ColumnName {
    type V = Seq<Seq<char>>;

    closed spec fn view(&self) -> Seq<Seq<char>> {
        strings_view(self.path@)
    }
}

impl ColumnName {
    /// The path made of these names.
    pub fn new(path: Vec<String>) -> (r: Self)
        ensures
            r@ == strings_view(path@),
    {
        ColumnName { path }
    }

    /// The names on this path.
    pub fn path(&self) -> (r: &[String])
        ensures
            strings_view(r@) == self@,
            r@.len() == self@.len(),
    {
        self.path.as_slice()
    }

    /// This path followed by `right`.
    pub fn join(&self, right: &ColumnName) -> (r: ColumnName)
        ensures
            r@ == self@ + right@,
    {
        let mut path: Vec<String> = clone_strings(self.path.as_slice());
        let mut rest: Vec<String> = clone_strings(right.path.as_slice());
        let ghost (p, q) = (path@, rest@);
        path.append(&mut rest);
        assert(strings_view(p + q) =~= strings_view(p) + strings_view(q));
        ColumnName { path }
    }

    /// The path of the enclosing field. A top-level field has none.
    pub fn parent(&self) -> (r: Option<ColumnName>)
        ensures
            match r {
                Some(parent) => self@.len() > 1 && parent@ == self@.drop_last(),
                None => self@.len() <= 1,
            },
    {
        if self.path.len() <= 1 {
            return None;
        }
        let mut path: Vec<String> = clone_strings(self.path.as_slice());
        assert(strings_view(path@) == self@);
        path.pop();
        assert(strings_view(path@) =~= self@.drop_last());
        Some(ColumnName { path })
    }
}

impl Clone for ColumnName {
    fn clone(&self) -> (r: Self)
        ensures
            r@ == self@,
    {
        ColumnName { path: clone_strings(self.path.as_slice()) }
    }
}

impl PartialEq for ColumnName {
    fn eq(&self, other: &Self) -> (r: bool) {
        strings_equal(self.path.as_slice(), other.path.as_slice())
    }
}

impl vstd::std_specs::cmp::PartialEqSpecImpl for ColumnName {
    open spec fn obeys_eq_spec() -> bool {
        true
    }

    open spec fn eq_spec(&self, other: &Self) -> bool {
        self@ == other@
    }
}

impl Eq for ColumnName {}

} // verus!
