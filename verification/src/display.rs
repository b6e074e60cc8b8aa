//! The renderable-to-text capability for the record's action label: any
//! type used as an action must say what text it logs as. Callers may
//! implement it for their own label types; bare strings render verbatim.

use vstd::prelude::*;

verus! {

/// How a value is written into logs.
pub trait LogDisplay {
    /// The text the value renders as. The default body exists so that label
    /// types outside the library can implement the trait at all; such
    /// implementations are unverified, nothing holds their `log_display` to
    /// this value, and the record's rendering contract carries no force for
    /// their text. Label types defined in this crate override it.
    open spec fn log_view(&self) -> Seq<char> {
        Seq::empty()
    }

    /// Renders the value as text.
    fn log_display(&self) -> (r: String)
        ensures
            r@ == self.log_view(),
    ;
}

/// Owned strings render verbatim, not debug-quoted.
impl LogDisplay for String {
    open spec fn log_view(&self) -> Seq<char> {
        self@
    }

    fn log_display(&self) -> (r: String) {
        self.clone()
    }
}

/// String slices render verbatim, not debug-quoted.
impl<'a> LogDisplay for &'a str {
    open spec fn log_view(&self) -> Seq<char> {
        (*self)@
    }

    fn log_display(&self) -> (r: String) {
        (*self).to_owned()
    }
}

} // verus!
