//! Template description records: a namespace of structures, each with its
//! fields, as handed to a code-generating template. Rendering happens
//! outside the library; the records themselves and the one rule they carry
//! — when a field counts as an array — are verified here.

use vstd::prelude::*;

verus! {

/// The template's root: a namespace holding structure descriptions.
pub struct Foobar<'a> {
    pub namespace: &'a str,
    pub structures: Vec<Structure<'a>>,
}

/// One described structure: its name, its summary, and its fields.
pub struct Structure<'a> {
    pub name: &'a str,
    pub abst: &'a str,
    pub field: Vec<Field<'a>>,
}

/// One described field: its name, its summary, its scalar type, and its
/// array dimensions (empty for a plain variable).
pub struct Field<'a> {
    pub name: &'a str,
    pub abst: &'a str,
    pub ctype: &'a str,
    pub dims: &'a [usize],
}

/// A field is an array when it has two or more dimensions, or one
/// dimension larger than one.
pub open spec fn spec_is_array(dims: Seq<usize>) -> bool {
    if dims.len() == 0 {
        false
    } else if dims.len() == 1 {
        dims[0] > 1
    } else {
        true
    }
}

impl<'a> Foobar<'a> {
    /// An empty namespace.
    pub fn new(namespace: &'a str) -> (r: Self)
        ensures
            r.namespace@ == namespace@,
            r.structures@.len() == 0,
    {
        Self { namespace, structures: Vec::new() }
    }
}

impl<'a> Structure<'a> {
    /// A structure with no fields yet.
    pub fn new(name: &'a str, abst: &'a str) -> (r: Self)
        ensures
            r.name@ == name@,
            r.abst@ == abst@,
            r.field@.len() == 0,
    {
        Self { name, abst, field: Vec::new() }
    }
}

impl<'a> Field<'a> {
    /// An array field with the given dimensions.
    pub fn arr(name: &'a str, abst: &'a str, ctype: &'a str, dims: &'a [usize]) -> (r: Self)
        ensures
            r.name@ == name@,
            r.abst@ == abst@,
            r.ctype@ == ctype@,
            r.dims@ == dims@,
    {
        Self { name, abst, ctype, dims }
    }

    /// A plain variable: a field with no dimensions.
    pub fn var(name: &'a str, abst: &'a str, ctype: &'a str) -> (r: Self)
        ensures
            r.name@ == name@,
            r.abst@ == abst@,
            r.ctype@ == ctype@,
            r.dims@.len() == 0,
    {
        Self { name, abst, ctype, dims: &[] }
    }

    /// Whether the field is an array.
    pub fn is_array(&self) -> (r: bool)
        ensures
            r == spec_is_array(self.dims@),
    {
        match self.dims.len() {
            0 => false,
            1 => self.dims[0] > 1,
            _ => true,
        }
    }
}

} // verus!
