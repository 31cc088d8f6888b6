use vstd::prelude::*;

verus! {

/// An author of an app.
#[derive(Debug)]
pub struct Author {
    pub indentifier: String,
    pub public_key_source: String,
    pub signature: String,
}

/// Who may read the entries of a type.
#[derive(PartialEq, Eq, Structural, Clone, Copy, Debug)]
pub enum Sharing {
    Public,
    Private,
    Encrypted,
}

impl Sharing {
    /// The name under which the configuration files write this sharing.
    pub fn name(&self) -> (r: &'static str)
        ensures
            *self == Sharing::Public ==> r@ == "public"@,
            *self == Sharing::Private ==> r@ == "private"@,
            *self == Sharing::Encrypted ==> r@ == "encrypted"@,
    {
        match self {
            Sharing::Public => "public",
            Sharing::Private => "private",
            Sharing::Encrypted => "encrypted",
        }
    }
}

/// A link from an entry type to another.
#[derive(Debug)]
pub struct Link {
    pub target_type: String,
    pub tag: String,
    pub validation: Vec<u8>,
}

/// How a zome reports errors.
#[derive(PartialEq, Eq, Structural, Clone, Copy, Debug)]
pub enum ErrorHandling {
    ThrowErrors,
}

impl ErrorHandling {
    /// The name under which the configuration files write this policy.
    pub fn name(&self) -> (r: &'static str)
        ensures
            r@ == "throw-errors"@,
    {
        "throw-errors"
    }
}

/// The configuration of a zome.
#[derive(PartialEq, Eq, Structural, Clone, Copy, Debug)]
pub struct SubConfig {
    pub error_handling: ErrorHandling,
}

/// A capability of a zome; it has no settings yet.
#[derive(PartialEq, Eq, Structural, Clone, Copy, Debug)]
pub struct Capability {}

} // verus!
