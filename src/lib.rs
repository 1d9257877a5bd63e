//! Converts a table of football players, read as delimited text, into a
//! pretty-printed JSON document.

pub mod decode;
pub mod json;
pub mod opts;
pub mod process;
pub mod record;

pub use decode::{decode_row, decode_rows, RowError};
pub use json::{decimal_text, format_document, format_object, player_to_json, players_to_json};
pub use opts::{verify_input_file, CsvOpts, Opts, PathError, SubCommand, DEFAULT_OUTPUT};
pub use process::{convert_table, process_csv, ConvertError, ParseError};
pub use record::{field_of_header, parse_kit, same_text, Field, Player};
