//! Name/value properties handed to the key factory, and the exact,
//! case-sensitive lookups the factory performs on them.

use vstd::prelude::*;

verus! {

/// A named string property.
pub struct Property {
    pub name: String,
    pub value: String,
    pub propagate: bool,
}

/// The mathematical value of a `Property`.
pub struct PropertyView {
    pub name: Seq<char>,
    pub value: Seq<char>,
    pub propagate: bool,
}

impl View for Property {
    type V = PropertyView;

    open spec fn view(&self) -> PropertyView {
        PropertyView { name: self.name@, value: self.value@, propagate: self.propagate }
    }
}

/// The views of a sequence of properties.
pub open spec fn props_view(ps: Seq<Property>) -> Seq<PropertyView> {
    ps.map_values(|p: Property| p@)
}

/// The value of the first property named `name`, starting the search at
/// index `i`, as an `iter().find(..)` lookup sees it.
pub open spec fn find_property_from(ps: Seq<PropertyView>, name: Seq<char>, i: int) -> Option<
    Seq<char>,
>
    decreases ps.len() - i,
{
    if i < 0 || i >= ps.len() {
        None
    } else if ps[i].name == name {
        Some(ps[i].value)
    } else {
        find_property_from(ps, name, i + 1)
    }
}

/// The value of the first property named `name`, if any.
pub open spec fn find_property(ps: Seq<PropertyView>, name: Seq<char>) -> Option<Seq<char>> {
    find_property_from(ps, name, 0)
}

/// Exact string comparison.
///
/// Relies on `str`'s `PartialEq::eq`, which the standard library
/// documents as comparing strings by their characters.
#[verifier::external_body]
pub fn str_eq(a: &str, b: &str) -> (r: bool)
    ensures
        r == (a@ == b@),
{
    a == b
}

/// Look up the first property named `name` and return a copy of its
/// value.
pub fn lookup_property(properties: &[Property], name: &str) -> (r: Option<String>)
    ensures
        match r {
            Some(v) => find_property(props_view(properties@), name@) == Some(v@),
            None => find_property(props_view(properties@), name@) is None,
        },
{
    let ghost ps = props_view(properties@);
    let mut i: usize = 0;
    while i < properties.len()
        invariant
            0 <= i <= properties.len(),
            ps == props_view(properties@),
            find_property_from(ps, name@, 0) == find_property_from(ps, name@, i as int),
        decreases properties.len() - i,
    {
        if str_eq(properties[i].name.as_str(), name) {
            let v = properties[i].value.clone();
            assert(v@ == ps[i as int].value);
            return Some(v);
        }
        i += 1;
    }
    None
}

} // verus!
