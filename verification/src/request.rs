//! Request metadata: the four required header fields as the transport hands
//! them over — raw bytes — their validation order, and the exact error each
//! kind of bad metadata produces.
use vstd::prelude::*;
use vstd::string::*;

use crate::errors::{ErrorModel, SliceBreadServerError};
use crate::numerals::{all_digits, dec_val, decimal_rep, digits_of, usize_to_string};

verus! {

/// Model of one inbound chunk request: each header's raw bytes as they
/// arrived (or absent), and the body bytes.
pub struct RequestModel {
    pub file_id: Option<Seq<u8>>,
    pub chunk_index: Option<Seq<u8>>,
    pub total_chunks: Option<Seq<u8>>,
    pub file_name: Option<Seq<u8>>,
    pub body: Seq<u8>,
}

/// One inbound chunk request, as the transport hands it over: the four
/// metadata fields still raw bytes, and the body already read.
pub struct UploadRequest {
    pub file_id: Option<Vec<u8>>,
    pub chunk_index: Option<Vec<u8>>,
    pub total_chunks: Option<Vec<u8>>,
    pub file_name: Option<Vec<u8>>,
    pub body: Vec<u8>,
}

impl View for UploadRequest {
    type V = RequestModel;

    open spec fn view(&self) -> RequestModel {
        RequestModel {
            file_id: match self.file_id {
                Some(b) => Some(b@),
                None => None,
            },
            chunk_index: match self.chunk_index {
                Some(b) => Some(b@),
                None => None,
            },
            total_chunks: match self.total_chunks {
                Some(b) => Some(b@),
                None => None,
            },
            file_name: match self.file_name {
                Some(b) => Some(b@),
                None => None,
            },
            body: self.body@,
        }
    }
}

/// Model of fully validated metadata.
pub struct ChunkMetaModel {
    pub file_id: Seq<char>,
    pub chunk_index: nat,
    pub total_chunks: nat,
    pub file_name: Seq<char>,
}

/// Fully validated metadata: the two counts parsed, `chunk_index` strictly
/// below `total_chunks`, and `total_chunks` at least one.
pub struct ChunkMeta {
    pub file_id: String,
    pub chunk_index: usize,
    pub total_chunks: usize,
    pub file_name: String,
}

impl View for ChunkMeta {
    type V = ChunkMetaModel;

    open spec fn view(&self) -> ChunkMetaModel {
        ChunkMetaModel {
            file_id: self.file_id@,
            chunk_index: self.chunk_index as nat,
            total_chunks: self.total_chunks as nat,
            file_name: self.file_name@,
        }
    }
}

/// Whether header bytes read as text: each byte visible ASCII, or a tab —
/// the transport's own rule for header values.
pub open spec fn is_header_text(b: Seq<u8>) -> bool {
    forall|i: int| 0 <= i < b.len() ==> (32 <= #[trigger] b[i] < 127 || b[i] == 9)
}

/// The characters that ASCII header bytes spell, one per byte.
pub open spec fn ascii_chars(b: Seq<u8>) -> Seq<char> {
    Seq::new(b.len(), |i: int| b[i] as char)
}

/// Whether a header's characters read as an in-range unsigned count.
pub open spec fn spec_parse_ok(s: Seq<char>) -> bool {
    let t = digits_of(s);
    t.len() > 0 && all_digits(t) && dec_val(t) <= usize::MAX
}

/// The count a header's characters denote.
pub open spec fn parsed_count(s: Seq<char>) -> nat {
    dec_val(digits_of(s))
}

/// Whether a present header's bytes read as text and as an in-range count.
pub open spec fn count_ok(b: Seq<u8>) -> bool {
    is_header_text(b) && spec_parse_ok(ascii_chars(b))
}

/// The count a present header's bytes denote.
pub open spec fn count_of(b: Seq<u8>) -> nat {
    parsed_count(ascii_chars(b))
}

/// The reason reported for an absent required header.
pub open spec fn missing_header_msg(name: Seq<char>) -> Seq<char> {
    "Missing header: "@ + name
}

/// The reason reported for a header whose bytes do not read as text.
pub open spec fn invalid_format_msg(name: Seq<char>) -> Seq<char> {
    "Invalid header format: "@ + name
}

/// The reason reported for a header that does not read as its expected type.
pub open spec fn invalid_header_msg(name: Seq<char>) -> Seq<char> {
    "Invalid header value: "@ + name
}

/// The reason reported when the chunk index is not strictly below the total.
pub open spec fn invalid_index_msg(chunk_index: nat, total_chunks: nat) -> Seq<char> {
    "Invalid X-Chunk-Index: "@ + decimal_rep(chunk_index) + " > X-Total-Chunks: "@ + decimal_rep(
        total_chunks,
    )
}

/// What validation decides for a request: the parsed metadata, or the first
/// failure. The fields are read in the order file id, chunk index, total
/// chunks, file name, each checked for presence, then for readable bytes,
/// then — for the counts — for a readable value; after the fields, an index
/// above the total is rejected, then a zero total, then an index equal to the
/// total (the valid indices end one below it).
pub open spec fn spec_validate(req: RequestModel) -> Result<ChunkMetaModel, ErrorModel> {
    match req.file_id {
        None => Err(ErrorModel::BadRequest(missing_header_msg("X-File-Id"@))),
        Some(fidb) => if !is_header_text(fidb) {
            Err(ErrorModel::BadRequest(invalid_format_msg("X-File-Id"@)))
        } else {
            match req.chunk_index {
                None => Err(ErrorModel::BadRequest(missing_header_msg("X-Chunk-Index"@))),
                Some(cib) => if !is_header_text(cib) {
                    Err(ErrorModel::BadRequest(invalid_format_msg("X-Chunk-Index"@)))
                } else if !spec_parse_ok(ascii_chars(cib)) {
                    Err(ErrorModel::BadRequest(invalid_header_msg("X-Chunk-Index"@)))
                } else {
                    match req.total_chunks {
                        None => Err(
                            ErrorModel::BadRequest(missing_header_msg("X-Total-Chunks"@)),
                        ),
                        Some(tcb) => if !is_header_text(tcb) {
                            Err(ErrorModel::BadRequest(invalid_format_msg("X-Total-Chunks"@)))
                        } else if !spec_parse_ok(ascii_chars(tcb)) {
                            Err(ErrorModel::BadRequest(invalid_header_msg("X-Total-Chunks"@)))
                        } else {
                            match req.file_name {
                                None => Err(
                                    ErrorModel::BadRequest(missing_header_msg("X-File-Name"@)),
                                ),
                                Some(fnb) => if !is_header_text(fnb) {
                                    Err(
                                        ErrorModel::BadRequest(
                                            invalid_format_msg("X-File-Name"@),
                                        ),
                                    )
                                } else {
                                    let ci = count_of(cib);
                                    let tc = count_of(tcb);
                                    if ci > tc {
                                        Err(ErrorModel::BadRequest(invalid_index_msg(ci, tc)))
                                    } else if tc == 0 {
                                        Err(
                                            ErrorModel::BadRequest(
                                                "Total chunks must be at least 1"@,
                                            ),
                                        )
                                    } else if ci == tc {
                                        Err(ErrorModel::BadRequest(invalid_index_msg(ci, tc)))
                                    } else {
                                        Ok(
                                            ChunkMetaModel {
                                                file_id: ascii_chars(fidb),
                                                chunk_index: ci,
                                                total_chunks: tc,
                                                file_name: ascii_chars(fnb),
                                            },
                                        )
                                    }
                                },
                            }
                        },
                    }
                },
            }
        },
    }
}

/// Relies on `String::from_utf8`: bytes in the ASCII range are valid UTF-8
/// and decode one to one to the characters with the same code points.
#[verifier::external_body]
fn ascii_to_string(bytes: Vec<u8>) -> (r: String)
    requires
        is_header_text(bytes@),
    ensures
        r@ == ascii_chars(bytes@),
{
    match String::from_utf8(bytes) {
        Ok(s) => s,
        Err(_) => String::new(),
    }
}

fn clone_bytes(b: &Vec<u8>) -> (r: Vec<u8>)
    ensures
        r@ == b@,
{
    let r = b.clone();
    proof {
        assert forall|i: int| 0 <= i < b@.len() implies r@[i] == b@[i] by {
            assert(cloned::<u8>(b@[i], r@[i]));
        }
        assert(r@ =~= b@);
    }
    r
}

/// Whether header bytes read as text, as `is_header_text` says.
fn check_header_text(b: &Vec<u8>) -> (r: bool)
    ensures
        r == is_header_text(b@),
{
    let n = b.len();
    let mut i: usize = 0;
    while i < n
        invariant
            i <= n,
            n == b@.len(),
            forall|j: int| 0 <= j < i ==> (32 <= #[trigger] b@[j] < 127 || b@[j] == 9),
        decreases n - i,
    {
        let x = b[i];
        if !(32 <= x && x < 127 || x == 9) {
            return false;
        }
        i = i + 1;
    }
    true
}

/// The error for an absent required header.
fn missing_header_error(name: &str) -> (e: SliceBreadServerError)
    ensures
        e@ == ErrorModel::BadRequest(missing_header_msg(name@)),
{
    SliceBreadServerError::BadRequest(String::from_str("Missing header: ").concat(name))
}

/// The error for a header whose bytes do not read as text.
fn invalid_format_error(name: &str) -> (e: SliceBreadServerError)
    ensures
        e@ == ErrorModel::BadRequest(invalid_format_msg(name@)),
{
    SliceBreadServerError::BadRequest(String::from_str("Invalid header format: ").concat(name))
}

/// The error for a header that does not read as its expected type.
fn invalid_header_error(name: &str) -> (e: SliceBreadServerError)
    ensures
        e@ == ErrorModel::BadRequest(invalid_header_msg(name@)),
{
    SliceBreadServerError::BadRequest(String::from_str("Invalid header value: ").concat(name))
}

/// The error for a chunk index that is not strictly below the total.
fn invalid_index_error(chunk_index: usize, total_chunks: usize) -> (e: SliceBreadServerError)
    ensures
        e@ == ErrorModel::BadRequest(invalid_index_msg(chunk_index as nat, total_chunks as nat)),
{
    let mut m = String::from_str("Invalid X-Chunk-Index: ");
    let ci = usize_to_string(chunk_index);
    m.append(ci.as_str());
    m.append(" > X-Total-Chunks: ");
    let tc = usize_to_string(total_chunks);
    m.append(tc.as_str());
    proof {
        assert(m@ =~= invalid_index_msg(chunk_index as nat, total_chunks as nat));
    }
    SliceBreadServerError::BadRequest(m)
}

/// Reads a required string-valued header: present and readable as text, or
/// the exact error for whichever failed first.
pub fn get_string_header(value: &Option<Vec<u8>>, name: &str) -> (r: Result<
    String,
    SliceBreadServerError,
>)
    ensures
        match r {
            Ok(s) => *value matches Some(b) && is_header_text(b@) && s@ == ascii_chars(b@),
            Err(e) => match *value {
                None => e@ == ErrorModel::BadRequest(missing_header_msg(name@)),
                Some(b) => !is_header_text(b@) && e@ == ErrorModel::BadRequest(
                    invalid_format_msg(name@),
                ),
            },
        },
{
    match value {
        Some(b) => {
            if check_header_text(b) {
                Ok(ascii_to_string(clone_bytes(b)))
            } else {
                Err(invalid_format_error(name))
            }
        },
        None => Err(missing_header_error(name)),
    }
}

/// Reads a required count-valued header: present, readable as text, and an
/// in-range count, or the exact error for whichever failed first.
pub fn get_count_header(value: &Option<Vec<u8>>, name: &str) -> (r: Result<
    usize,
    SliceBreadServerError,
>)
    ensures
        match r {
            Ok(c) => *value matches Some(b) && count_ok(b@) && c as nat == count_of(b@),
            Err(e) => match *value {
                None => e@ == ErrorModel::BadRequest(missing_header_msg(name@)),
                Some(b) => (!is_header_text(b@) && e@ == ErrorModel::BadRequest(
                    invalid_format_msg(name@),
                )) || (is_header_text(b@) && !spec_parse_ok(ascii_chars(b@)) && e@
                    == ErrorModel::BadRequest(invalid_header_msg(name@))),
            },
        },
{
    match value {
        Some(b) => {
            if !check_header_text(b) {
                return Err(invalid_format_error(name));
            }
            let s = ascii_to_string(clone_bytes(b));
            match crate::numerals::parse_usize(s.as_str()) {
                Some(c) => Ok(c),
                None => Err(invalid_header_error(name)),
            }
        },
        None => Err(missing_header_error(name)),
    }
}

/// Validates a request's metadata, as `spec_validate` describes.
pub fn validate(req: &UploadRequest) -> (r: Result<ChunkMeta, SliceBreadServerError>)
    ensures
        r matches Ok(m) ==> spec_validate(req@) matches Ok(mm) && mm == m@,
        r matches Err(e) ==> spec_validate(req@) matches Err(ee) && ee == e@,
{
    let file_id = match get_string_header(&req.file_id, "X-File-Id") {
        Ok(s) => s,
        Err(e) => {
            return Err(e);
        },
    };
    let chunk_index = match get_count_header(&req.chunk_index, "X-Chunk-Index") {
        Ok(c) => c,
        Err(e) => {
            return Err(e);
        },
    };
    let total_chunks = match get_count_header(&req.total_chunks, "X-Total-Chunks") {
        Ok(c) => c,
        Err(e) => {
            return Err(e);
        },
    };
    let file_name = match get_string_header(&req.file_name, "X-File-Name") {
        Ok(s) => s,
        Err(e) => {
            return Err(e);
        },
    };
    if chunk_index > total_chunks {
        return Err(invalid_index_error(chunk_index, total_chunks));
    }
    if total_chunks == 0 {
        return Err(
            SliceBreadServerError::BadRequest(String::from_str("Total chunks must be at least 1")),
        );
    }
    if chunk_index == total_chunks {
        return Err(invalid_index_error(chunk_index, total_chunks));
    }
    Ok(ChunkMeta { file_id, chunk_index, total_chunks, file_name })
}

} // verus!
