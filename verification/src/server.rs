//! The upload handler: stores each validated chunk, and on the request that
//! carries the highest valid index verifies every chunk is present, assembles
//! them in index order into the destination file, and removes the chunk
//! records.
//!
//! `Storage` is the model of the tree under the base upload directory. A
//! transport embedding that keeps the state in a real directory tree drives
//! the same verified pieces — validation, the finalization decision, the
//! chunk file naming and the ordered assembly — one call at a time.
use vstd::prelude::*;
use vstd::string::*;

use crate::errors::{ErrorModel, SliceBreadServerError};
use crate::numerals::{decimal_rep, usize_to_string};
use crate::request::{spec_validate, validate, RequestModel, UploadRequest};
use crate::storage::{empty_dir, DirModel, Entry, EntryModel, Storage, UploadDir};

verus! {

/// The reason reported when finalization finds a chunk has never arrived.
pub open spec fn missing_chunk_msg(i: nat) -> Seq<char> {
    "Missing chunk: "@ + decimal_rep(i)
}

/// The first index in `[i, total)` that has no chunk bytes, if any.
pub open spec fn first_missing_from(chunks: Map<int, Seq<u8>>, i: nat, total: nat) -> Option<nat>
    decreases total - i,
{
    if i >= total {
        None
    } else if !chunks.contains_key(i as int) {
        Some(i)
    } else {
        first_missing_from(chunks, (i + 1) as nat, total)
    }
}

/// The concatenation of the chunk bytes for indices `0 .. total`, in index
/// order.
pub open spec fn assembled_from(chunks: Map<int, Seq<u8>>, total: nat) -> Seq<u8>
    decreases total,
{
    if total == 0 {
        Seq::empty()
    } else {
        assembled_from(chunks, (total - 1) as nat) + chunks[total - 1]
    }
}

/// The chunk records left once indices `0 .. i` are deleted.
pub open spec fn without_chunks_upto(chunks: Map<int, Seq<u8>>, i: nat) -> Map<int, Seq<u8>>
    decreases i,
{
    if i == 0 {
        chunks
    } else {
        without_chunks_upto(chunks, (i - 1) as nat).remove(i - 1)
    }
}

/// The concatenation of a list of byte strings, in order.
pub open spec fn concat_all(parts: Seq<Seq<u8>>) -> Seq<u8>
    decreases parts.len(),
{
    if parts.len() == 0 {
        Seq::empty()
    } else {
        concat_all(parts.drop_last()) + parts.last()
    }
}

/// The byte strings a list of byte vectors holds.
pub open spec fn views_of(parts: Seq<Vec<u8>>) -> Seq<Seq<u8>> {
    Seq::new(parts.len(), |i: int| parts[i]@)
}

/// What one validated chunk does to its upload's directory: the body is
/// stored under its index; when the index is the highest valid one, either
/// the first missing index is reported, or — unless a directory occupies the
/// destination name — the chunks are assembled in index order into the
/// destination file and their records removed.
pub open spec fn spec_process(
    dir: DirModel,
    chunk_index: nat,
    total_chunks: nat,
    file_name: Seq<char>,
    body: Seq<u8>,
) -> (DirModel, Result<(), ErrorModel>)
    recommends
        0 < total_chunks,
        chunk_index < total_chunks,
{
    let stored = DirModel { chunks: dir.chunks.insert(chunk_index as int, body), entries: dir.entries };
    if chunk_index + 1 == total_chunks {
        match first_missing_from(stored.chunks, 0, total_chunks) {
            Some(i) => (stored, Err(ErrorModel::BadRequest(missing_chunk_msg(i)))),
            None => if stored.entries.contains_key(file_name) && stored.entries[file_name] is Dir {
                (stored, Err(ErrorModel::IoError("Is a directory"@)))
            } else {
                (
                    DirModel {
                        chunks: without_chunks_upto(stored.chunks, total_chunks),
                        entries: stored.entries.insert(
                            file_name,
                            EntryModel::File(assembled_from(stored.chunks, total_chunks)),
                        ),
                    },
                    Ok(()),
                )
            },
        }
    } else {
        (stored, Ok(()))
    }
}

/// Model of the response every stored chunk is answered with.
pub struct ResponseModel {
    pub status: int,
    pub body: Seq<char>,
}

/// The response to a handled request: a status code and a plain-text body.
#[derive(Debug)]
pub struct UploadResponse {
    pub status: u16,
    pub body: String,
}

impl View for UploadResponse {
    type V = ResponseModel;

    open spec fn view(&self) -> ResponseModel {
        ResponseModel { status: self.status as int, body: self.body@ }
    }
}

/// The confirmation every successfully stored chunk is answered with,
/// whether or not it triggered assembly.
pub open spec fn created_response() -> ResponseModel {
    ResponseModel { status: 201, body: "File uploaded successfuly"@ }
}

/// What one request does to the stored tree: nothing on invalid metadata, and
/// otherwise `spec_process` on the directory of its upload id (created on
/// demand).
pub open spec fn spec_call(st: Map<Seq<char>, DirModel>, req: RequestModel) -> (
    Map<Seq<char>, DirModel>,
    Result<ResponseModel, ErrorModel>,
) {
    match spec_validate(req) {
        Err(e) => (st, Err(e)),
        Ok(meta) => {
            let dir0 = if st.contains_key(meta.file_id) {
                st[meta.file_id]
            } else {
                empty_dir()
            };
            let (dir1, res) = spec_process(
                dir0,
                meta.chunk_index,
                meta.total_chunks,
                meta.file_name,
                req.body,
            );
            (
                st.insert(meta.file_id, dir1),
                match res {
                    Err(e) => Err(e),
                    Ok(u) => Ok(created_response()),
                },
            )
        },
    }
}

/// Scanning forward over present chunks does not change the first missing
/// index.
pub proof fn lemma_first_missing_prefix(chunks: Map<int, Seq<u8>>, i: nat, total: nat)
    requires
        i <= total,
        forall|j: int| 0 <= j < i ==> chunks.contains_key(j),
    ensures
        first_missing_from(chunks, 0, total) == first_missing_from(chunks, i, total),
    decreases i,
{
    if i > 0 {
        lemma_first_missing_prefix(chunks, (i - 1) as nat, total);
        assert(chunks.contains_key(i - 1));
    }
}

/// Gathered chunk bytes concatenate to the assembled file.
pub proof fn lemma_concat_assembled(pv: Seq<Seq<u8>>, chunks: Map<int, Seq<u8>>, total: nat)
    requires
        pv.len() == total,
        forall|j: int| 0 <= j < total ==> pv[j] == chunks[j],
    ensures
        concat_all(pv) == assembled_from(chunks, total),
    decreases total,
{
    if total > 0 {
        assert forall|j: int| 0 <= j < total - 1 implies pv.drop_last()[j] == chunks[j] by {
            assert(pv.drop_last()[j] == pv[j]);
        }
        lemma_concat_assembled(pv.drop_last(), chunks, (total - 1) as nat);
        assert(pv.last() == chunks[total - 1]);
    }
}

/// The error for a chunk found missing at finalization.
pub fn missing_chunk_error(i: usize) -> (e: SliceBreadServerError)
    ensures
        e@ == ErrorModel::BadRequest(missing_chunk_msg(i as nat)),
{
    let mut m = String::from_str("Missing chunk: ");
    let d = usize_to_string(i);
    m.append(d.as_str());
    SliceBreadServerError::BadRequest(m)
}

/// The on-disk name of one chunk's file.
pub open spec fn spec_chunk_file_name(i: nat) -> Seq<char> {
    "chunk_"@ + decimal_rep(i) + ".bin"@
}

/// Renders the on-disk name of one chunk's file.
pub fn chunk_file_name(i: usize) -> (r: String)
    ensures
        r@ == spec_chunk_file_name(i as nat),
{
    let mut m = String::from_str("chunk_");
    let d = usize_to_string(i);
    m.append(d.as_str());
    m.append(".bin");
    proof {
        assert(m@ =~= spec_chunk_file_name(i as nat));
    }
    m
}

/// A chunk is the finalization trigger exactly when it carries the highest
/// valid index for its upload.
pub fn is_final_chunk(chunk_index: usize, total_chunks: usize) -> (r: bool)
    requires
        total_chunks > 0,
    ensures
        r == (chunk_index == total_chunks - 1),
{
    chunk_index == total_chunks - 1
}

/// Concatenates the gathered chunk bodies in order.
pub fn assemble(parts: &Vec<Vec<u8>>) -> (out: Vec<u8>)
    ensures
        out@ == concat_all(views_of(parts@)),
{
    let ghost pv = views_of(parts@);
    let mut out: Vec<u8> = Vec::new();
    let mut i: usize = 0;
    while i < parts.len()
        invariant
            i <= parts.len(),
            pv == views_of(parts@),
            pv.len() == parts@.len(),
            out@ == concat_all(pv.take(i as int)),
        decreases parts.len() - i,
    {
        let ghost prev = out@;
        out.extend_from_slice(parts[i].as_slice());
        proof {
            assert(pv[i as int] == parts@[i as int]@);
            assert forall|k: int| 0 <= k < out@.len() implies out@[k] == (prev + pv[i as int])[k] by {
                if k >= prev.len() {
                    assert(cloned::<u8>(parts@[i as int]@[k - prev.len()], out@[k]));
                }
            }
            assert(out@ =~= prev + pv[i as int]);
            assert(pv.take(i + 1).drop_last() =~= pv.take(i as int));
            assert(pv.take(i + 1).last() == pv[i as int]);
        }
        i = i + 1;
    }
    proof {
        assert(pv.take(parts@.len() as int) =~= pv);
    }
    out
}

/// Handles one validated chunk against its upload's directory, as
/// `spec_process` describes.
#[verifier::loop_isolation(false)]
pub fn process_chunk(
    dir: &mut UploadDir,
    chunk_index: usize,
    total_chunks: usize,
    file_name: &String,
    body: &Vec<u8>,
) -> (r: Result<(), SliceBreadServerError>)
    requires
        0 < total_chunks,
        chunk_index < total_chunks,
    ensures
        ({
            let (d, res) = spec_process(
                old(dir)@,
                chunk_index as nat,
                total_chunks as nat,
                file_name@,
                body@,
            );
            &&& final(dir)@ == d
            &&& match r {
                Ok(u) => res is Ok,
                Err(e) => res matches Err(em) && em == e@,
            }
        }),
{
    let body_copy = body.clone();
    proof {
        assert(body_copy@ =~= body@);
    }
    dir.chunks.insert(chunk_index, body_copy);
    let ghost stored = dir@;
    if chunk_index == total_chunks - 1 {
        let mut i: usize = 0;
        while i < total_chunks
            invariant
                i <= total_chunks,
                dir@ == stored,
                forall|j: int| 0 <= j < i ==> stored.chunks.contains_key(j),
            decreases total_chunks - i,
        {
            if !dir.chunks.contains(i) {
                proof {
                    lemma_first_missing_prefix(stored.chunks, i as nat, total_chunks as nat);
                }
                return Err(missing_chunk_error(i));
            }
            i = i + 1;
        }
        proof {
            lemma_first_missing_prefix(stored.chunks, total_chunks as nat, total_chunks as nat);
        }
        match dir.entries.get(file_name) {
            Some(Entry::Dir) => {
                return Err(SliceBreadServerError::IoError(String::from_str("Is a directory")));
            },
            _ => {},
        }
        let mut parts: Vec<Vec<u8>> = Vec::new();
        let mut i: usize = 0;
        while i < total_chunks
            invariant
                i <= total_chunks,
                dir@ == stored,
                forall|j: int| 0 <= j < total_chunks ==> stored.chunks.contains_key(j),
                parts@.len() == i,
                forall|j: int| 0 <= j < i ==> views_of(parts@)[j] == stored.chunks[j],
            decreases total_chunks - i,
        {
            match dir.chunks.get(i) {
                Some(b) => {
                    let b_copy = b.clone();
                    proof {
                        assert(b_copy@ =~= b@);
                    }
                    parts.push(b_copy);
                },
                None => {
                    return vstd::pervasive::unreached();
                },
            }
            i = i + 1;
        }
        let out = assemble(&parts);
        proof {
            lemma_concat_assembled(views_of(parts@), stored.chunks, total_chunks as nat);
        }
        dir.entries.insert(file_name.clone(), Entry::File(out));
        let ghost entries_after = dir@.entries;
        let mut i: usize = 0;
        while i < total_chunks
            invariant
                i <= total_chunks,
                dir@.entries == entries_after,
                dir@.chunks == without_chunks_upto(stored.chunks, i as nat),
            decreases total_chunks - i,
        {
            dir.chunks.remove(i);
            i = i + 1;
        }
        Ok(())
    } else {
        Ok(())
    }
}

/// The upload handler. It holds only the base directory all uploads live
/// under; everything else an upload needs is read back from storage on each
/// request.
#[derive(Clone)]
pub struct SliceBreadServer {
    base_files_dir: String,
}

impl SliceBreadServer {
    /// The directory all uploads live under.
    pub closed spec fn spec_base_dir(&self) -> Seq<char> {
        self.base_files_dir@
    }

    /// A handler rooted at the given base directory.
    pub fn new(dir: String) -> (s: Self)
        ensures
            s.spec_base_dir() == dir@,
    {
        SliceBreadServer { base_files_dir: dir }
    }

    /// The base directory this handler was rooted at.
    pub fn base_dir(&self) -> (r: &String)
        ensures
            r@ == self.spec_base_dir(),
    {
        &self.base_files_dir
    }

    /// Handles one chunk request against the stored tree, as `spec_call`
    /// describes: validation first, then the chunk write, then — for the
    /// finalization trigger — assembly of the destination file.
    pub fn call(&self, storage: &mut Storage, req: &UploadRequest) -> (r: Result<
        UploadResponse,
        SliceBreadServerError,
    >)
        ensures
            ({
                let (st, res) = spec_call(old(storage)@, req@);
                &&& final(storage)@ == st
                &&& match r {
                    Ok(resp) => res matches Ok(rm) && rm == resp@,
                    Err(e) => res matches Err(em) && em == e@,
                }
            }),
    {
        let meta = match validate(req) {
            Ok(m) => m,
            Err(e) => {
                return Err(e);
            },
        };
        let mut dir = storage.take_dir(&meta.file_id);
        let result = process_chunk(
            &mut dir,
            meta.chunk_index,
            meta.total_chunks,
            &meta.file_name,
            &req.body,
        );
        storage.put_dir(meta.file_id, dir);
        proof {
            assert(storage@ =~= spec_call(old(storage)@, req@).0);
        }
        match result {
            Ok(u) => Ok(
                UploadResponse { status: 201, body: String::from_str("File uploaded successfuly") },
            ),
            Err(e) => Err(e),
        }
    }
}

} // verus!
