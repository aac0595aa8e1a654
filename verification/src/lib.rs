//! Conversion of delimited text into JSON, YAML or TOML, and generation of
//! random passwords with a strength score.
//!
//! The crate is a library: it takes the bytes of a CSV document or the
//! description of a password and hands back text. Reading and writing files,
//! printing and argument parsing are left to the program around it.

pub mod encode;
pub mod error;
pub mod opts;
pub mod process;
pub mod record;
pub mod table;

pub use encode::{encode, TOML_FIELD};
pub use error::{ConfigError, ConvertError, EncodingError};
pub use opts::{
    parse_format, validate_input_file, CsvOpts, GenpassOpts, Opts, OutputFormat, SubCommand,
};
pub use process::gen_pass::{check_password_spec, process_genpass, CharClass, GeneratedPassword};
pub use process::{build_records, convert_table, process_csv, Player};
pub use record::Record;
pub use table::{read_table, Table};
