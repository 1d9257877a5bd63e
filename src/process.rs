//! The conversion of a delimited table into the JSON document of its players.

use vstd::prelude::*;
use crate::decode::{decode_rows, table_players, RowError};
use crate::json::{players_document, players_to_json};
use crate::record::PlayerView;

verus! {

#[verifier::external_type_specification]
#[verifier::external_body]
pub struct ExCsvError(csv::Error);

/// The header row and the data rows, as text cells, that the `csv` crate
/// reads from `data` with the field delimiter `delimiter`; `None` where it
/// refuses the data (text that is not UTF-8, rows of unequal width).
pub uninterp spec fn csv_table(data: Seq<u8>, delimiter: u8) -> Option<(Seq<Seq<char>>, Seq<Seq<Seq<char>>>)>;

/// Relies on csv::ReaderBuilder with a delimiter and `Reader::headers` and
/// `Reader::records`: the header row and then each data row, as text cells.
#[verifier::external_body]
fn read_table(data: &[u8], delimiter: u8) -> (r: Result<(Vec<String>, Vec<Vec<String>>), csv::Error>)
    ensures
        r matches Ok((h, rows)) ==> csv_table(data@, delimiter) == Some((h.deep_view(), rows.deep_view())),
        r is Err ==> csv_table(data@, delimiter) is None,
{
    let mut rdr = csv::ReaderBuilder::new().delimiter(delimiter).from_reader(data);
    let headers: Vec<String> = rdr.headers()?.iter().map(String::from).collect();
    let rows: Result<Vec<Vec<String>>, csv::Error> =
        rdr.records().map(|rec| rec.map(|rec| rec.iter().map(String::from).collect())).collect();
    Ok((headers, rows?))
}

/// Why the data could not be read as records.
#[derive(Debug)]
pub enum ParseError {
    /// The data is not a delimited table: text that is not UTF-8, or a row
    /// whose number of fields differs from the header's.
    Table(csv::Error),
    /// The data row at index `row` (counted from zero, after the header)
    /// could not be read as a player.
    Row { row: usize, reason: RowError },
}

/// Why a conversion failed.
#[derive(Debug)]
pub enum ConvertError {
    /// A record could not be read from the data.
    RecordParse(ParseError),
    /// The document could not be written.
    Serialization(serde_json::Error),
}

/// The document that the data converts to, where it converts.
pub open spec fn csv_document(data: Seq<u8>, delimiter: u8) -> Option<Seq<char>> {
    match csv_table(data, delimiter) {
        Some((h, rows)) => match table_players(h, rows) {
            Ok(ps) => Some(players_document(ps)),
            Err(_) => None,
        },
        None => None,
    }
}

/// Converts a table already split into cells: the document of its players,
/// or the first row that is not a player.
pub fn convert_table(headers: &Vec<String>, rows: &Vec<Vec<String>>) -> (r: Result<String, ConvertError>)
    ensures
        table_players(headers.deep_view(), rows.deep_view()) is Ok ==> r is Ok,
        r matches Ok(out) ==> (table_players(headers.deep_view(), rows.deep_view()) matches Ok(ps)
            && out@ == players_document(ps)),
        r matches Err(ConvertError::RecordParse(ParseError::Row { row, reason })) ==> table_players(
            headers.deep_view(),
            rows.deep_view(),
        ) == Err::<Seq<PlayerView>, (nat, RowError)>((row as nat, reason)),
        r is Err ==> r matches Err(ConvertError::RecordParse(ParseError::Row { .. })),
{
    match decode_rows(headers, rows) {
        Err((row, reason)) => Err(ConvertError::RecordParse(ParseError::Row { row, reason })),
        Ok(players) => match players_to_json(&players) {
            Ok(out) => Ok(out),
            Err(e) => Err(ConvertError::Serialization(e)),
        },
    }
}

/// Converts the delimited text `data`, whose first row is a header, into
/// the pretty-printed JSON list of its players, in the order of the rows.
/// It succeeds exactly when the data is a table whose every row is a player.
pub fn process_csv(data: &[u8], delimiter: u8) -> (r: Result<String, ConvertError>)
    ensures
        csv_document(data@, delimiter) is Some ==> r is Ok,
        r matches Ok(out) ==> csv_document(data@, delimiter) == Some(out@),
        r matches Err(ConvertError::RecordParse(ParseError::Table(_))) ==> csv_table(data@, delimiter) is None,
        r matches Err(ConvertError::RecordParse(ParseError::Row { row, reason })) ==> (csv_table(data@, delimiter) matches Some((h, rows))
            && table_players(h, rows) == Err::<Seq<PlayerView>, (nat, RowError)>((row as nat, reason))),
        r is Err ==> r matches Err(ConvertError::RecordParse(_)),
{
    match read_table(data, delimiter) {
        Err(e) => Err(ConvertError::RecordParse(ParseError::Table(e))),
        Ok((headers, rows)) => convert_table(&headers, &rows),
    }
}

/// The output depends on the input alone: two conversions of the same data
/// with the same delimiter that both succeed give the same document.
pub proof fn law_same_input_same_output(data: Seq<u8>, delimiter: u8, first: Seq<char>, second: Seq<char>)
    requires
        csv_document(data, delimiter) == Some(first),
        csv_document(data, delimiter) == Some(second),
    ensures
        first == second,
{
}

} // verus!
