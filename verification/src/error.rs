//! The ways in which a request can fail.

use vstd::prelude::*;

verus! {

/// A request that cannot be carried out as it was stated. It is found
/// before any work is done.
#[derive(Debug, PartialEq, Eq)]
pub enum ConfigError {
    /// The format token, here in lower case, names none of the formats.
    UnsupportedFormat(String),
    /// A password was asked for without any character class to draw from.
    NoCharacterClass,
    /// A password was asked for that is shorter than the number of
    /// character classes it has to show.
    LengthTooShort { length: u8, required: u8 },
}

impl ConfigError {
    /// What [`ConfigError::message`] says.
    pub open spec fn message_text(&self) -> Seq<char> {
        match self {
            ConfigError::UnsupportedFormat(token) => "Unsupported format: "@ + token@,
            ConfigError::NoCharacterClass => "No character class selected"@,
            ConfigError::LengthTooShort { .. } => "Password length is smaller than the number of selected character classes"@,
        }
    }

    /// The error in words, for the user.
    pub fn message(&self) -> (text: String)
        ensures
            text@ == self.message_text(),
    {
        match self {
            ConfigError::UnsupportedFormat(token) => "Unsupported format: ".to_owned().concat(
                token.as_str(),
            ),
            ConfigError::NoCharacterClass => "No character class selected".to_owned(),
            ConfigError::LengthTooShort { .. } => "Password length is smaller than the number of selected character classes".to_owned(),
        }
    }
}

/// The encoder of the target format refused the records.
#[derive(Debug)]
pub enum EncodingError {
    Json(serde_json::Error),
    Yaml(serde_yaml::Error),
    Toml(toml::ser::Error),
}

/// A conversion that did not produce a document.
#[derive(Debug)]
pub enum ConvertError {
    /// The input is malformed: a row is not valid UTF-8, or it has another
    /// number of cells than the header.
    Parse(csv::Error),
    /// The records cannot be written in the target format.
    Encoding(EncodingError),
}

} // verus!
