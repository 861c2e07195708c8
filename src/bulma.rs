use vstd::prelude::*;

verus! {

/// Colour modifiers of the Bulma style sheet.
#[derive(Debug, Clone, Copy, PartialEq, Eq, Structural)]
pub enum BulmaColor {
    Link,
    Primary,
    Info,
    Success,
    Warning,
    Danger,
    Light,
}

impl BulmaColor {
    /// The CSS class that applies the colour.
    pub open spec fn spec_class(self) -> Seq<char> {
        match self {
            BulmaColor::Link => "is-link"@,
            BulmaColor::Primary => "is-primary"@,
            BulmaColor::Info => "is-info"@,
            BulmaColor::Success => "is-success"@,
            BulmaColor::Warning => "is-warning"@,
            BulmaColor::Danger => "is-danger"@,
            BulmaColor::Light => "is-light"@,
        }
    }

    /// The CSS class that applies the colour.
    pub fn class(&self) -> (r: &'static str)
        ensures
            r@ == self.spec_class(),
    {
        match self {
            BulmaColor::Link => "is-link",
            BulmaColor::Primary => "is-primary",
            BulmaColor::Info => "is-info",
            BulmaColor::Success => "is-success",
            BulmaColor::Warning => "is-warning",
            BulmaColor::Danger => "is-danger",
            BulmaColor::Light => "is-light",
        }
    }
}

} // verus!
