//! The failure taxonomy: every error aborts the run at its point of origin.
use vstd::prelude::*;
use vstd::string::StringExecFns;
use crate::value::dec_digits;

verus! {

/// Every failure the engine can report. Each variant carries what identifies
/// the offending input: a path, a zero-based per-file record index, the
/// pattern that did not compile, or the unrecognized configuration value.
#[derive(Debug, PartialEq, Eq)]
pub enum RavroError {
    /// The resolved input set is empty.
    NoInputFiles,
    /// A file could not be read from disk; carries its path.
    FileRead(String),
    /// A file's bytes could not be decompressed or its container envelope
    /// could not be parsed; carries its path.
    Decode(String),
    /// The configured codec name is not one of the supported codecs; carries
    /// the unrecognized name.
    UnknownCodec(String),
    /// The first file holds no record to infer the field names from.
    EmptyDataset,
    /// The first record of the first file is not a field-bearing record.
    SchemaShape,
    /// One record could not be decoded; carries the file's path and the
    /// record's zero-based index within that file.
    RecordDecode(String, usize),
    /// The search pattern is not a valid regular expression; carries it.
    InvalidPattern(String),
    /// The requested output format is not supported; carries it.
    UnsupportedFormat(String),
    /// The rendered output could not be written out.
    OutputWrite,
}

impl RavroError {
    /// The message text owed for this error, over the views of what the
    /// variant carries.
    pub open spec fn spec_message(self) -> Seq<char> {
        match self {
            RavroError::NoInputFiles => "No files found"@,
            RavroError::FileRead(p) => "Could not read from path "@ + p@,
            RavroError::Decode(p) => "Could not read Avro file "@ + p@,
            RavroError::UnknownCodec(c) => "Unrecognized codec "@ + c@,
            RavroError::EmptyDataset => "Avro must have at least one record row to infer schema"@,
            RavroError::SchemaShape => "First record is not a record-shaped value"@,
            RavroError::RecordDecode(p, i) => "Could not parse row "@ + dec_digits(i as nat)
                + " of "@ + p@,
            RavroError::InvalidPattern(p) => "Regular expression is invalid: "@ + p@,
            RavroError::UnsupportedFormat(f) => "Output format not recognized: "@ + f@,
            RavroError::OutputWrite => "Could not write output"@,
        }
    }

    /// The message naming the failure, for the error stream.
    pub fn message(&self) -> (s: String)
        ensures
            s@ == self.spec_message(),
    {
        match self {
            RavroError::NoInputFiles => "No files found".to_owned(),
            RavroError::FileRead(p) => {
                let mut s = "Could not read from path ".to_owned();
                s.append(p.as_str());
                s
            },
            RavroError::Decode(p) => {
                let mut s = "Could not read Avro file ".to_owned();
                s.append(p.as_str());
                s
            },
            RavroError::UnknownCodec(c) => {
                let mut s = "Unrecognized codec ".to_owned();
                s.append(c.as_str());
                s
            },
            RavroError::EmptyDataset => {
                "Avro must have at least one record row to infer schema".to_owned()
            },
            RavroError::SchemaShape => "First record is not a record-shaped value".to_owned(),
            RavroError::RecordDecode(p, i) => {
                let mut s = "Could not parse row ".to_owned();
                let digits = crate::value::index_text(*i);
                s.append(digits.as_str());
                s.append(" of ");
                s.append(p.as_str());
                s
            },
            RavroError::InvalidPattern(p) => {
                let mut s = "Regular expression is invalid: ".to_owned();
                s.append(p.as_str());
                s
            },
            RavroError::UnsupportedFormat(f) => {
                let mut s = "Output format not recognized: ".to_owned();
                s.append(f.as_str());
                s
            },
            RavroError::OutputWrite => "Could not write output".to_owned(),
        }
    }
}

} // verus!
