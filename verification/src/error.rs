//! The ways in which an edit is refused.
use vstd::prelude::*;
use vstd::string::*;

verus! {

/// Why a step of a command did not go through. A refusal leaves the text it
/// was asked to edit as it was.
#[derive(Clone, Copy, Debug, PartialEq, Eq, Structural)]
pub enum ScaffoldError {
    /// The project has no manifest yet.
    NotInitialized,
    /// The feature, unit or route is already there.
    AlreadyExists,
    /// The layout has no closing tag of its head region.
    AnchorNotFound,
    /// The dispatcher has no root builder expression.
    DispatcherMalformed,
    /// The manifest is not a document with a table of features.
    ManifestMalformed,
    /// The name cannot name a unit: it is no identifier, or a reserved word.
    InvalidName,
    /// The formatting pass did not accept the generated source.
    FormatFailed,
    /// An installer or compiler left with a failure.
    ExternalToolFailed,
}

impl ScaffoldError {
    /// The sentence shown to the user.
    pub open spec fn describe(self) -> Seq<char> {
        match self {
            ScaffoldError::NotInitialized => "Kraken not initialized."@,
            ScaffoldError::AlreadyExists => "Already exists."@,
            ScaffoldError::AnchorNotFound => "Failed to find </head> tag in base.html"@,
            ScaffoldError::DispatcherMalformed => "Failed to find Router::new() in main.rs"@,
            ScaffoldError::ManifestMalformed => "Kraken.toml has no usable table of features."@,
            ScaffoldError::InvalidName => "The name is not an identifier."@,
            ScaffoldError::FormatFailed => "Failed to format the generated source."@,
            ScaffoldError::ExternalToolFailed => "An external command failed."@,
        }
    }

    /// The sentence shown to the user.
    pub fn message(&self) -> (text: String)
        ensures
            text@ == self.describe(),
    {
        match self {
            ScaffoldError::NotInitialized => String::from_str("Kraken not initialized."),
            ScaffoldError::AlreadyExists => String::from_str("Already exists."),
            ScaffoldError::AnchorNotFound => String::from_str(
                "Failed to find </head> tag in base.html",
            ),
            ScaffoldError::DispatcherMalformed => String::from_str(
                "Failed to find Router::new() in main.rs",
            ),
            ScaffoldError::ManifestMalformed => String::from_str(
                "Kraken.toml has no usable table of features.",
            ),
            ScaffoldError::InvalidName => String::from_str("The name is not an identifier."),
            ScaffoldError::FormatFailed => String::from_str("Failed to format the generated source."),
            ScaffoldError::ExternalToolFailed => String::from_str("An external command failed."),
        }
    }
}

} // verus!
