//! Errors raised while introspecting coerced attribute values.

use vstd::prelude::*;

verus! {

/// What went wrong with a target's attributes.
#[derive(Debug)]
pub enum AttributeError {
    /// The target declared both the current and the legacy spelling of
    /// the target-compatibility attribute; it may only have one.
    BothTargetCompatibleWith(String),
    /// The attribute was expected to be a list but held something else;
    /// the fields are the attribute's name and what was found.
    TargetCompatibleNotList(String, String),
}

impl AttributeError {
    /// The error's message.
    pub fn message(&self) -> (r: String)
        ensures
            match self {
                AttributeError::BothTargetCompatibleWith(t) => r@ == "`"@ + t@
                    + "` had both `target_compatible_with` and `compatible_with` attributes. It should only have one."@,
                AttributeError::TargetCompatibleNotList(name, got) => r@ == "expected `"@ + name@
                    + "` attribute to be a list but got `"@ + got@ + "`"@,
            },
    {
        match self {
            AttributeError::BothTargetCompatibleWith(t) => {
                let mut out = String::new();
                out.append("`");
                out.append(t.as_str());
                out.append(
                    "` had both `target_compatible_with` and `compatible_with` attributes. It should only have one.",
                );
                out
            },
            AttributeError::TargetCompatibleNotList(name, got) => {
                let mut out = String::new();
                out.append("expected `");
                out.append(name.as_str());
                out.append("` attribute to be a list but got `");
                out.append(got.as_str());
                out.append("`");
                out
            },
        }
    }
}

} // verus!
