use vstd::prelude::*;

verus! {

/// Why a file, or a whole run, produced no records.
#[derive(PartialEq, Eq, Structural, Clone, Copy, Debug)]
pub enum ErrorKind {
    Unreadable,
    EmptyFile,
    InvalidEncoding,
    NotXml,
    MalformedXml,
    InvalidRootPath,
    MissingArchiveRoot,
}

/// A failure attached to one file.
#[derive(Debug)]
pub struct ConversionError {
    pub path: String,
    pub kind: ErrorKind,
    pub message: String,
}

/// The fixed description of each kind of failure.
pub open spec fn kind_message(k: ErrorKind) -> Seq<char> {
    match k {
        ErrorKind::Unreadable => "the file could not be read"@,
        ErrorKind::EmptyFile => "the file is empty"@,
        ErrorKind::InvalidEncoding => "the text encoding could not be determined"@,
        ErrorKind::NotXml => "the file is an HTML page, not XML"@,
        ErrorKind::MalformedXml => "the XML could not be read"@,
        ErrorKind::InvalidRootPath => "the path is neither an XML file nor a directory"@,
        ErrorKind::MissingArchiveRoot => "no directory with metadata.json and a data folder"@,
    }
}

impl ErrorKind {
    pub fn message(&self) -> (r: String)
        ensures
            r@ == kind_message(*self),
    {
        match self {
            ErrorKind::Unreadable => "the file could not be read".to_owned(),
            ErrorKind::EmptyFile => "the file is empty".to_owned(),
            ErrorKind::InvalidEncoding => "the text encoding could not be determined".to_owned(),
            ErrorKind::NotXml => "the file is an HTML page, not XML".to_owned(),
            ErrorKind::MalformedXml => "the XML could not be read".to_owned(),
            ErrorKind::InvalidRootPath => "the path is neither an XML file nor a directory".to_owned(),
            ErrorKind::MissingArchiveRoot => "no directory with metadata.json and a data folder".to_owned(),
        }
    }
}

} // verus!
