//! Equality, conversion and a printable form of a stage.

use crate::conduit::ConduitM;
use vstd::prelude::*;
use vstd::std_specs::cmp::PartialEqSpec;

verus! {

impl<'a, I, O, A> From<A> for ConduitM<'a, I, O, A> {
    /// The stage that has finished with `a`.
    fn from(a: A) -> (r: Self) {
        ConduitM::Pure(Box::new(a))
    }
}

impl<'a, I, O, A> vstd::std_specs::convert::FromSpecImpl<A> for ConduitM<'a, I, O, A> {
    open spec fn obeys_from_spec() -> bool {
        true
    }

    open spec fn from_spec(a: A) -> Self {
        ConduitM::Pure(Box::new(a))
    }
}

impl<'a, I, O, A: PartialEq> PartialEq for ConduitM<'a, I, O, A> {
    /// Two stages are equal when both have finished, with equal results. A
    /// suspended stage equals nothing, itself included.
    fn eq(&self, other: &ConduitM<'a, I, O, A>) -> (r: bool) {
        match (self, other) {
            (ConduitM::Pure(a), ConduitM::Pure(b)) => **a == **b,
            _ => false,
        }
    }
}

impl<'a, I, O, A: PartialEq> vstd::std_specs::cmp::PartialEqSpecImpl for ConduitM<'a, I, O, A> {
    open spec fn obeys_eq_spec() -> bool {
        A::obeys_eq_spec()
    }

    open spec fn eq_spec(&self, other: &ConduitM<'a, I, O, A>) -> bool {
        match (self, other) {
            (ConduitM::Pure(a), ConduitM::Pure(b)) => (**a).eq_spec(&**b),
            _ => false,
        }
    }
}

/// `String::push_str` appends the given text to the string and leaves what
/// was there in place.
pub assume_specification[ String::push_str ](s: &mut String, text: &str)
    ensures
        final(s)@ == old(s)@ + text@,
;

/// The text that the `Debug` implementation of `A` writes for `a`, as
/// `format!` returns it for `{:?}`. Nothing is claimed of it: it is what
/// that implementation makes it.
#[verifier::external_body]
fn debug_text<A: core::fmt::Debug>(a: &A) -> (s: String) {
    format!("{:?}", a)
}

impl<'a, I, O, A: core::fmt::Debug> ConduitM<'a, I, O, A> {
    /// The stage in print: a finished stage shows its result, a suspended
    /// one only its variant.
    pub fn describe(&self) -> (r: String)
        ensures
            self is Pure ==> exists|t: Seq<char>| r@ == "Pure("@ + t + ")"@,
            self is Await ==> r@ == "Await(..)"@,
            self is Yield ==> r@ == "Yield(..)"@,
    {
        match self {
            ConduitM::Pure(a) => {
                let text = debug_text(&**a);
                let mut r = "Pure(".to_owned();
                r.push_str(text.as_str());
                r.push_str(")");
                r
            },
            ConduitM::Await(_) => "Await(..)".to_owned(),
            ConduitM::Yield(_, _) => "Yield(..)".to_owned(),
        }
    }
}

} // verus!
