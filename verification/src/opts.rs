//! The options of the two commands, and the names of the output formats.

use std::str::FromStr;
use vstd::prelude::*;
use vstd::std_specs::convert::FromSpecImpl;
use crate::error::ConfigError;

verus! {

/// What the program was asked to do.
#[derive(Debug)]
pub struct Opts {
    pub cmd: SubCommand,
}

/// The two commands.
#[derive(Debug)]
pub enum SubCommand {
    /// Convert a CSV file into another format.
    Csv(CsvOpts),
    /// Generate a random password.
    Genpass(GenpassOpts),
}

/// The encodings that a table can be converted into.
#[derive(Debug, Clone, Copy, PartialEq, Eq, Structural)]
pub enum OutputFormat {
    Json,
    Yaml,
    Toml,
}

/// The options of a conversion.
#[derive(Debug)]
pub struct CsvOpts {
    /// The path of the file to read.
    pub input: String,
    /// The path of the file to write, if one was given.
    pub output: Option<String>,
    /// The format to write.
    pub format: OutputFormat,
    /// The delimiter that was asked for. The conversion reads
    /// comma-separated input whatever this says.
    pub delimiter: String,
    /// Whether a header row was announced. The conversion takes the first
    /// row as the header whatever this says.
    pub header: bool,
}

/// What a password has to look like: its length and the character classes
/// that it draws from.
#[derive(Debug)]
pub struct GenpassOpts {
    pub length: u8,
    pub uppercase: bool,
    pub lowercase: bool,
    pub digits: bool,
    pub symbols: bool,
}

/// The lower-case form of `text` as `str::to_lowercase` gives it.
pub uninterp spec fn lowercase_of(text: Seq<char>) -> Seq<char>;

/// The format that bears the name `token`, letter for letter.
pub open spec fn format_named(token: Seq<char>) -> Option<OutputFormat> {
    if token == "json"@ {
        Some(OutputFormat::Json)
    } else if token == "yaml"@ {
        Some(OutputFormat::Yaml)
    } else if token == "toml"@ {
        Some(OutputFormat::Toml)
    } else {
        None
    }
}

/// The path that a conversion into `format` writes to where none is given.
pub open spec fn default_output(format: OutputFormat) -> Seq<char> {
    "output."@ + format.name()
}

/// Calls `str::to_lowercase`, which maps each character by the Unicode
/// tables. The contract gives the result a name: it is a function of the
/// characters of `text` alone.
#[verifier::external_body]
fn lowercase(text: &str) -> (lowered: String)
    ensures
        lowered@ == lowercase_of(text@),
{
    text.to_lowercase()
}

/// Accepts the path of an input file that exists. `exists` says whether it
/// does; the caller looks that up.
pub fn validate_input_file(filename: &str, exists: bool) -> (result: Result<String, &'static str>)
    ensures
        match result {
            Ok(path) => exists && path@ == filename@,
            Err(message) => !exists && message@ == "Input file does not exist"@,
        },
{
    match exists {
        true => Ok(filename.to_owned()),
        false => Err("Input file does not exist"),
    }
}

/// Reads a format token, whatever the case of its letters.
pub fn parse_format(format: &str) -> (result: Result<OutputFormat, ConfigError>)
    ensures
        match result {
            Ok(found) => format_named(lowercase_of(format@)) == Some(found),
            Err(ConfigError::UnsupportedFormat(token)) => format_named(lowercase_of(format@))
                is None && token@ == lowercase_of(format@),
            Err(_) => false,
        },
{
    OutputFormat::from_str(format)
}

impl OutputFormat {
    /// The name of the format, in lower case.
    pub open spec fn name(self) -> Seq<char> {
        match self {
            OutputFormat::Json => "json"@,
            OutputFormat::Yaml => "yaml"@,
            OutputFormat::Toml => "toml"@,
        }
    }

    /// The format that bears the name `token`, which is taken as it stands:
    /// a token in another case names no format.
    pub fn from_token(token: String) -> (result: Result<OutputFormat, ConfigError>)
        ensures
            match result {
                Ok(found) => format_named(token@) == Some(found),
                Err(error) => format_named(token@) is None && error
                    == ConfigError::UnsupportedFormat(token),
            },
    {
        if token == "json".to_owned() {
            Ok(OutputFormat::Json)
        } else if token == "yaml".to_owned() {
            Ok(OutputFormat::Yaml)
        } else if token == "toml".to_owned() {
            Ok(OutputFormat::Toml)
        } else {
            Err(ConfigError::UnsupportedFormat(token))
        }
    }

    /// The name of the format as a string.
    pub fn to_string(&self) -> (text: String)
        ensures
            text@ == self.name(),
    {
        let name: &'static str = <&'static str>::from(*self);
        name.to_owned()
    }
}

impl From<OutputFormat> for &'static str {
    fn from(format: OutputFormat) -> (name: Self) {
        match format {
            OutputFormat::Json => "json",
            OutputFormat::Yaml => "yaml",
            OutputFormat::Toml => "toml",
        }
    }
}

impl FromSpecImpl<OutputFormat> for &'static str {
    open spec fn obeys_from_spec() -> bool {
        true
    }

    open spec fn from_spec(format: OutputFormat) -> Self {
        match format {
            OutputFormat::Json => "json",
            OutputFormat::Yaml => "yaml",
            OutputFormat::Toml => "toml",
        }
    }
}

impl FromStr for OutputFormat {
    type Err = ConfigError;

    /// Reads a format token, whatever the case of its letters: the token is
    /// put into lower case and must then be the name of a format.
    fn from_str(format: &str) -> (result: Result<Self, Self::Err>)
        ensures
            match result {
                Ok(found) => format_named(lowercase_of(format@)) == Some(found),
                Err(ConfigError::UnsupportedFormat(token)) => format_named(
                    lowercase_of(format@),
                ) is None && token@ == lowercase_of(format@),
                Err(_) => false,
            },
    {
        OutputFormat::from_token(lowercase(format))
    }
}

impl CsvOpts {
    /// The path to write to: the one that was given, or else `output.` and
    /// the name of the format.
    pub fn output_path(&self) -> (path: String)
        ensures
            path@ == match self.output {
                Some(given) => given@,
                None => default_output(self.format),
            },
    {
        match &self.output {
            Some(given) => given.clone(),
            None => {
                let name: &'static str = <&'static str>::from(self.format);
                "output.".to_owned().concat(name)
            },
        }
    }
}

/// The three formats bear three names, and each name is read back as its
/// format.
pub proof fn lemma_names_are_read_back(format: OutputFormat)
    ensures
        format_named(format.name()) == Some(format),
{
    reveal_strlit("json");
    reveal_strlit("yaml");
    reveal_strlit("toml");
    assert("json"@[0] == 'j' && "yaml"@[0] == 'y' && "toml"@[0] == 't');
}

} // verus!
