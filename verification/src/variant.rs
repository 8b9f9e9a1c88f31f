//! The dialects in which a path can be read.

use vstd::prelude::*;

verus! {

/// Indicates which absolute paths are recognised.
#[derive(Clone, Copy, PartialEq, Eq, PartialOrd, Ord, Debug, Structural)]
pub enum FlexPathVariant {
    /// Paths are read the common way: a path is absolute when it begins
    /// with a separator.
    Common,
    /// Paths are read as Windows does: drives, UNC markers and
    /// extended-length markers make a path absolute too.
    Windows,
}

/// `std::path::MAIN_SEPARATOR`, the separator that the target platform
/// writes between the components of a path. Nothing is claimed of it: it
/// differs from one platform to another.
#[verifier::external_body]
fn main_separator() -> char {
    std::path::MAIN_SEPARATOR
}

/// The variant of the platforms that write `separator` between the
/// components of a path.
pub open spec fn variant_of(separator: char) -> FlexPathVariant {
    if separator == '\\' {
        FlexPathVariant::Windows
    } else {
        FlexPathVariant::Common
    }
}

impl FlexPathVariant {
    /// The variant of the platforms that write `separator` between the
    /// components of a path: `Windows` for the backslash, `Common` for
    /// anything else.
    pub fn for_separator(separator: char) -> (v: FlexPathVariant)
        ensures
            v == variant_of(separator),
    {
        if separator == '\\' {
            FlexPathVariant::Windows
        } else {
            FlexPathVariant::Common
        }
    }

    /// The variant that represents the build's target platform: `Windows`
    /// where the platform writes a backslash between the components of a
    /// path, `Common` elsewhere.
    pub fn native() -> FlexPathVariant {
        FlexPathVariant::for_separator(main_separator())
    }
}

} // verus!
