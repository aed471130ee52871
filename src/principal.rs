//! Principals.

use vstd::prelude::*;

verus! {

/// The identity of a user or a service, held in its textual form
/// (for example `2vxsx-fae`, the anonymous identity).
#[derive(Clone, Debug)]
pub struct Principal {
    pub text: String,
}

impl View for Principal {
    type V = Seq<char>;

    open spec fn view(&self) -> Seq<char> {
        self.text@
    }
}

impl Principal {
    pub fn from_text(text: String) -> (r: Principal)
        ensures
            r@ == text@,
    {
        Principal { text }
    }

    /// The identity of an unauthenticated caller.
    pub fn anonymous() -> (r: Principal)
        ensures
            r@ == "2vxsx-fae"@,
    {
        Principal { text: "2vxsx-fae".to_owned() }
    }

    /// Whether two principals are the same identity.
    pub fn same(&self, other: &Principal) -> (r: bool)
        ensures
            r == (self@ == other@),
    {
        self.text == other.text
    }

    /// A fresh value of the same identity.
    pub fn copy(&self) -> (r: Principal)
        ensures
            r == *self,
    {
        Principal { text: self.text.clone() }
    }

    /// The textual form.
    pub fn to_text(&self) -> (r: String)
        ensures
            r@ == self@,
    {
        self.text.clone()
    }
}

impl PartialEq for Principal {
    fn eq(&self, other: &Principal) -> (r: bool) {
        self.text == other.text
    }
}

impl vstd::std_specs::cmp::PartialEqSpecImpl for Principal {
    open spec fn obeys_eq_spec() -> bool {
        true
    }

    open spec fn eq_spec(&self, other: &Principal) -> bool {
        self@ == other@
    }
}

impl Eq for Principal {}

} // verus!
