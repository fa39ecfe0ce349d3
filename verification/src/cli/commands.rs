//! The decisions of the command line's commands: which input formats are read.

use vstd::prelude::*;
use crate::support::same_text;

verus! {

/// A format of input file.
#[derive(Debug, Clone, Copy, PartialEq, Eq, Structural)]
pub enum InputFormat {
    Csv,
    Json,
}

/// The format of an input file by its extension: `csv` and `json` are read, anything
/// else, and no extension, is refused with the message the command shows.
pub fn input_format(extension: Option<&str>) -> (r: Result<InputFormat, String>)
    ensures
        match extension {
            Some(e) => {
                &&& e@ == "csv"@ ==> r == Ok::<InputFormat, String>(InputFormat::Csv)
                &&& e@ == "json"@ ==> r == Ok::<InputFormat, String>(InputFormat::Json)
                &&& e@ != "csv"@ && e@ != "json"@ ==> r is Err
            },
            None => r is Err,
        },
{
    proof {
        reveal_strlit("csv");
        reveal_strlit("json");
    }
    assert("csv"@ != "json"@) by {
        assert("csv"@.len() != "json"@.len());
    }
    match extension {
        Some(e) => {
            if same_text(e, "csv") {
                Ok(InputFormat::Csv)
            } else if same_text(e, "json") {
                Ok(InputFormat::Json)
            } else {
                Err("Unsupported file format. Expected .csv or .json".to_string())
            }
        },
        None => Err("Unsupported file format. Expected .csv or .json".to_string()),
    }
}

/// The example formats that the `example` command shows: `csv` and `json`; anything
/// else is refused with the message the command shows.
pub fn example_format(format: &str) -> (r: Result<InputFormat, String>)
    ensures
        format@ == "csv"@ ==> r == Ok::<InputFormat, String>(InputFormat::Csv),
        format@ == "json"@ ==> r == Ok::<InputFormat, String>(InputFormat::Json),
        format@ != "csv"@ && format@ != "json"@ ==> r is Err,
{
    proof {
        reveal_strlit("csv");
        reveal_strlit("json");
    }
    assert("csv"@ != "json"@) by {
        assert("csv"@.len() != "json"@.len());
    }
    if same_text(format, "csv") {
        Ok(InputFormat::Csv)
    } else if same_text(format, "json") {
        Ok(InputFormat::Json)
    } else {
        let mut message = "Unsupported format: ".to_string();
        message.append(format);
        message.append(". Use 'csv' or 'json'");
        Err(message)
    }
}

} // verus!
