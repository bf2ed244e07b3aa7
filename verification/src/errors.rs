//! The closed set of failures a chunk-upload request can end in.
use vstd::prelude::*;
use vstd::string::*;

verus! {

/// Mathematical model of an error value: the same four-way classification,
/// with each message as a sequence of characters.
pub enum ErrorModel {
    InternalServerError(Seq<char>),
    BadRequest(Seq<char>),
    IoError(Seq<char>),
    HyperError(Seq<char>),
}

/// One variant per failure class: caller-correctable requests, storage
/// failures, transport failures while reading a body, and failures raised by
/// the HTTP layer itself. Each carries a human-readable reason.
#[derive(Debug)]
pub enum SliceBreadServerError {
    InternalServerError(String),
    BadRequest(String),
    IoError(String),
    HyperError(String),
}

impl View for SliceBreadServerError {
    type V = ErrorModel;

    open spec fn view(&self) -> ErrorModel {
        match self {
            SliceBreadServerError::InternalServerError(m) => ErrorModel::InternalServerError(m@),
            SliceBreadServerError::BadRequest(m) => ErrorModel::BadRequest(m@),
            SliceBreadServerError::IoError(m) => ErrorModel::IoError(m@),
            SliceBreadServerError::HyperError(m) => ErrorModel::HyperError(m@),
        }
    }
}

/// The rendering `message` produces for a given error model.
pub open spec fn spec_message(e: ErrorModel) -> Seq<char> {
    match e {
        ErrorModel::InternalServerError(m) => "Internal Server Error: "@ + m,
        ErrorModel::BadRequest(m) => "Bad Request: "@ + m,
        ErrorModel::IoError(m) => "IO Error: "@ + m,
        ErrorModel::HyperError(m) => "Hyper Error: "@ + m,
    }
}

impl SliceBreadServerError {
    /// Full human-readable rendering: the failure class followed by the reason.
    pub fn message(&self) -> (r: String)
        ensures
            r@ == spec_message(self@),
    {
        match self {
            SliceBreadServerError::InternalServerError(m) => {
                String::from_str("Internal Server Error: ").concat(m.as_str())
            },
            SliceBreadServerError::BadRequest(m) => {
                String::from_str("Bad Request: ").concat(m.as_str())
            },
            SliceBreadServerError::IoError(m) => String::from_str("IO Error: ").concat(m.as_str()),
            SliceBreadServerError::HyperError(m) => {
                String::from_str("Hyper Error: ").concat(m.as_str())
            },
        }
    }
}

} // verus!
