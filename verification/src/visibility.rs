//! The declared visibility of a type declaration.

use vstd::prelude::*;

verus! {

/// The closed set of visibilities a declaration can carry.
///
/// `Private` is the default when no visibility marker is present.
#[derive(Clone, Copy, Debug, PartialEq, Eq, Structural)]
pub enum Visibility {
    /// `pub`
    Pub,
    /// `pub(crate)`
    PubCrate,
    /// `pub(super)`
    PubSuper,
    /// No visibility marker.
    Private,
}

impl Visibility {
    /// The textual spelling of the visibility; `Private` renders to
    /// nothing.
    pub fn to_str(&self) -> (r: Option<&str>)
        ensures
            match *self {
                Visibility::Pub => r matches Some(s) && s@ == "pub"@,
                Visibility::PubCrate => r matches Some(s) && s@ == "pub(crate)"@,
                Visibility::PubSuper => r matches Some(s) && s@ == "pub(super)"@,
                Visibility::Private => r is None,
            },
    {
        match self {
            Visibility::Pub => Some("pub"),
            Visibility::PubCrate => Some("pub(crate)"),
            Visibility::PubSuper => Some("pub(super)"),
            Visibility::Private => None,
        }
    }
}

} // verus!
