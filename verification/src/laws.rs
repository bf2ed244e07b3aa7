//! Laws of the upload handler, stated over its functional model and proved
//! once for every storage state, upload id, and payload.
use vstd::prelude::*;

use crate::errors::ErrorModel;
use crate::numerals::{decimal_rep, digits_of, is_digit, lemma_decimal_rep_value};
use crate::request::{
    ascii_chars, count_of, count_ok, invalid_index_msg, is_header_text, spec_parse_ok,
    spec_validate, ChunkMetaModel, RequestModel,
};
use crate::server::{
    concat_all, first_missing_from, lemma_concat_assembled, lemma_first_missing_prefix,
    missing_chunk_msg, spec_call, without_chunks_upto, ResponseModel,
};
use crate::storage::{empty_dir, DirModel, EntryModel};

verus! {

/// The bytes of the decimal rendering of `n`, as a count header carries them.
pub open spec fn decimal_bytes(n: nat) -> Seq<u8>
    decreases n,
{
    if n < 10 {
        seq![(48 + n) as u8]
    } else {
        decimal_bytes(n / 10) + seq![(48 + n % 10) as u8]
    }
}

proof fn lemma_digit_byte_char(d: int)
    requires
        0 <= d < 10,
    ensures
        ((48 + d) as u8) as char == crate::numerals::digit_char(d),
{
}

/// A rendered count's bytes spell its decimal rendering, character for byte.
proof fn lemma_decimal_bytes_chars(n: nat)
    ensures
        ascii_chars(decimal_bytes(n)) == decimal_rep(n),
        is_header_text(decimal_bytes(n)),
    decreases n,
{
    if n < 10 {
        lemma_digit_byte_char(n as int);
        assert(ascii_chars(decimal_bytes(n)) =~= decimal_rep(n));
    } else {
        lemma_decimal_bytes_chars(n / 10);
        lemma_digit_byte_char((n % 10) as int);
        let pb = decimal_bytes(n / 10);
        let b = decimal_bytes(n);
        assert forall|i: int| 0 <= i < b.len() implies (32 <= #[trigger] b[i] < 127 || b[i]
            == 9) by {
            if i < pb.len() {
                assert(b[i] == pb[i]);
                assert(32 <= pb[i] < 127 || pb[i] == 9);
            } else {
                assert(b[i] == (48 + n % 10) as u8);
            }
        }
        assert forall|i: int| 0 <= i < ascii_chars(b).len() implies #[trigger] ascii_chars(b)[i]
            == decimal_rep(n)[i] by {
            if i < pb.len() {
                assert(b[i] == pb[i]);
                assert(ascii_chars(pb)[i] == decimal_rep(n / 10)[i]);
                assert(decimal_rep(n)[i] == decimal_rep(n / 10)[i]);
            } else {
                assert(b[i] == (48 + n % 10) as u8);
                assert(decimal_rep(n)[i] == crate::numerals::digit_char((n % 10) as int));
            }
        }
        assert(ascii_chars(b) =~= decimal_rep(n));
    }
}

/// A rendered count's bytes read as text and back as the same count.
proof fn lemma_decimal_bytes(n: nat)
    requires
        n <= usize::MAX,
    ensures
        is_header_text(decimal_bytes(n)),
        ascii_chars(decimal_bytes(n)) == decimal_rep(n),
        count_ok(decimal_bytes(n)),
        count_of(decimal_bytes(n)) == n,
{
    lemma_decimal_rep_value(n);
    lemma_decimal_bytes_chars(n);
    let s = decimal_rep(n);
    assert(is_digit(s[0]));
    assert(s[0] != '+');
    assert(digits_of(s) == s);
}

/// The request that carries chunk `index` of `total` for one upload, with the
/// counts rendered in decimal as a client would send them.
pub open spec fn chunk_request(
    id: Seq<u8>,
    name: Seq<u8>,
    index: nat,
    total: nat,
    body: Seq<u8>,
) -> RequestModel {
    RequestModel {
        file_id: Some(id),
        chunk_index: Some(decimal_bytes(index)),
        total_chunks: Some(decimal_bytes(total)),
        file_name: Some(name),
        body,
    }
}

/// The storage left, and whether every request succeeded, after chunks
/// `0 .. k` of an upload are sent in index order.
pub open spec fn send_ordered(
    st: Map<Seq<char>, DirModel>,
    id: Seq<u8>,
    name: Seq<u8>,
    bodies: Seq<Seq<u8>>,
    total: nat,
    k: nat,
) -> (Map<Seq<char>, DirModel>, bool)
    decreases k,
{
    if k == 0 {
        (st, true)
    } else {
        let prev = send_ordered(st, id, name, bodies, total, (k - 1) as nat);
        let step = spec_call(prev.0, chunk_request(id, name, (k - 1) as nat, total, bodies[k - 1]));
        (step.0, prev.1 && step.1 is Ok)
    }
}

/// The chunk records after bodies `0 .. k` have landed, each under its index.
pub open spec fn chunks_upto(bodies: Seq<Seq<u8>>, k: nat) -> Map<int, Seq<u8>>
    decreases k,
{
    if k == 0 {
        Map::empty()
    } else {
        chunks_upto(bodies, (k - 1) as nat).insert(k - 1, bodies[k - 1])
    }
}

proof fn lemma_chunks_upto(bodies: Seq<Seq<u8>>, k: nat)
    ensures
        forall|j: int| #[trigger] chunks_upto(bodies, k).contains_key(j) <==> 0 <= j < k,
        forall|j: int| 0 <= j < k ==> chunks_upto(bodies, k)[j] == bodies[j],
    decreases k,
{
    if k > 0 {
        lemma_chunks_upto(bodies, (k - 1) as nat);
        assert forall|j: int| #[trigger] chunks_upto(bodies, k).contains_key(j) <==> 0 <= j < k by {
            let prev = chunks_upto(bodies, (k - 1) as nat).contains_key(j);
        }
        assert forall|j: int| 0 <= j < k implies chunks_upto(bodies, k)[j] == bodies[j] by {
            if j < k - 1 {
                assert(chunks_upto(bodies, (k - 1) as nat)[j] == bodies[j]);
            }
        }
    }
}

proof fn lemma_without_chunks_upto(m: Map<int, Seq<u8>>, i: nat)
    ensures
        forall|j: int| #[trigger]
            without_chunks_upto(m, i).contains_key(j) <==> (m.contains_key(j) && !(0 <= j < i)),
    decreases i,
{
    if i > 0 {
        lemma_without_chunks_upto(m, (i - 1) as nat);
        assert forall|j: int| #[trigger]
            without_chunks_upto(m, i).contains_key(j) <==> (m.contains_key(j) && !(0 <= j
                < i)) by {
            let prev = without_chunks_upto(m, (i - 1) as nat).contains_key(j);
        }
    }
}

/// A well-formed chunk request passes validation, with exactly its metadata.
proof fn lemma_validate_chunk_request(
    id: Seq<u8>,
    name: Seq<u8>,
    index: nat,
    total: nat,
    body: Seq<u8>,
)
    requires
        index < total,
        1 <= total <= usize::MAX,
        is_header_text(id),
        is_header_text(name),
    ensures
        spec_validate(chunk_request(id, name, index, total, body)) == Ok::<
            ChunkMetaModel,
            ErrorModel,
        >(
            ChunkMetaModel {
                file_id: ascii_chars(id),
                chunk_index: index,
                total_chunks: total,
                file_name: ascii_chars(name),
            },
        ),
{
    lemma_decimal_bytes(index);
    lemma_decimal_bytes(total);
}

proof fn lemma_send_ordered_partial(
    st: Map<Seq<char>, DirModel>,
    id: Seq<u8>,
    name: Seq<u8>,
    bodies: Seq<Seq<u8>>,
    k: nat,
)
    requires
        1 <= bodies.len() <= usize::MAX,
        !st.contains_key(ascii_chars(id)),
        is_header_text(id),
        is_header_text(name),
        k <= bodies.len() - 1,
    ensures
        ({
            let r = send_ordered(st, id, name, bodies, bodies.len(), k);
            &&& r.1
            &&& r.0 == if k == 0 {
                st
            } else {
                st.insert(
                    ascii_chars(id),
                    DirModel { chunks: chunks_upto(bodies, k), entries: Map::empty() },
                )
            }
        }),
    decreases k,
{
    let total = bodies.len();
    if k > 0 {
        lemma_send_ordered_partial(st, id, name, bodies, (k - 1) as nat);
        lemma_validate_chunk_request(id, name, (k - 1) as nat, total, bodies[k - 1]);
        let prev = send_ordered(st, id, name, bodies, total, (k - 1) as nat);
        let req = chunk_request(id, name, (k - 1) as nat, total, bodies[k - 1]);
        let step = spec_call(prev.0, req);
        if k == 1 {
            assert(empty_dir().chunks.insert(0, bodies[0]) =~= chunks_upto(bodies, 1));
        } else {
            assert(chunks_upto(bodies, (k - 1) as nat).insert(k - 1, bodies[k - 1]) =~= chunks_upto(
                bodies,
                k,
            ));
            assert(step.0 =~= st.insert(
                ascii_chars(id),
                DirModel { chunks: chunks_upto(bodies, k), entries: Map::empty() },
            ));
        }
    }
}

/// For every complete upload sent in index order — any id, any destination
/// name, any bodies — every request succeeds, the destination file holds
/// exactly the concatenation of the chunk bodies in index order, and no chunk
/// records remain.
pub proof fn theorem_ordered_upload(
    st: Map<Seq<char>, DirModel>,
    id: Seq<u8>,
    name: Seq<u8>,
    bodies: Seq<Seq<u8>>,
)
    requires
        1 <= bodies.len() <= usize::MAX,
        !st.contains_key(ascii_chars(id)),
        is_header_text(id),
        is_header_text(name),
    ensures
        ({
            let r = send_ordered(st, id, name, bodies, bodies.len(), bodies.len());
            &&& r.1
            &&& r.0 == st.insert(
                ascii_chars(id),
                DirModel {
                    chunks: Map::empty(),
                    entries: Map::<Seq<char>, EntryModel>::empty().insert(
                        ascii_chars(name),
                        EntryModel::File(concat_all(bodies)),
                    ),
                },
            )
        }),
{
    let total = bodies.len();
    lemma_send_ordered_partial(st, id, name, bodies, (total - 1) as nat);
    lemma_validate_chunk_request(id, name, (total - 1) as nat, total, bodies[total - 1]);
    let prev = send_ordered(st, id, name, bodies, total, (total - 1) as nat);
    let req = chunk_request(id, name, (total - 1) as nat, total, bodies[total - 1]);
    let step = spec_call(prev.0, req);
    let dir0 = if prev.0.contains_key(ascii_chars(id)) {
        prev.0[ascii_chars(id)]
    } else {
        empty_dir()
    };
    let stored = dir0.chunks.insert(total - 1, bodies[total - 1]);
    assert(stored =~= chunks_upto(bodies, total));
    lemma_chunks_upto(bodies, total);
    assert forall|j: int| 0 <= j < total implies chunks_upto(bodies, total).contains_key(j) by {}
    lemma_first_missing_prefix(chunks_upto(bodies, total), total, total);
    lemma_concat_assembled(bodies, chunks_upto(bodies, total), total);
    lemma_without_chunks_upto(chunks_upto(bodies, total), total);
    assert(without_chunks_upto(chunks_upto(bodies, total), total) =~= Map::<int, Seq<u8>>::empty());
    assert(step.0 =~= st.insert(
        ascii_chars(id),
        DirModel {
            chunks: Map::empty(),
            entries: Map::<Seq<char>, EntryModel>::empty().insert(
                ascii_chars(name),
                EntryModel::File(concat_all(bodies)),
            ),
        },
    ));
}

/// The first missing index really is the first: scanning from `p`, it is
/// missing, lies in range, and everything before it is present.
proof fn lemma_first_missing_least(chunks: Map<int, Seq<u8>>, p: nat, total: nat)
    requires
        p <= total,
        exists|j: int| p <= j < total && !chunks.contains_key(j),
    ensures
        first_missing_from(chunks, p, total) matches Some(i) && p <= i < total
            && !chunks.contains_key(i as int) && (forall|j: int|
            p <= j < i ==> chunks.contains_key(j)),
    decreases total - p,
{
    let j0 = choose|j: int| p <= j < total && !chunks.contains_key(j);
    if chunks.contains_key(p as int) {
        assert(p + 1 <= j0 < total && !chunks.contains_key(j0));
        lemma_first_missing_least(chunks, (p + 1) as nat, total);
    }
}

/// Finalizing while some earlier chunk has never arrived reports the first
/// missing index found by the scan from zero, and leaves every stored chunk —
/// including the finalizing one just written — in place; no file is
/// assembled.
pub proof fn theorem_finalize_missing(
    st: Map<Seq<char>, DirModel>,
    id: Seq<u8>,
    name: Seq<u8>,
    body: Seq<u8>,
    total: nat,
)
    requires
        1 <= total <= usize::MAX,
        is_header_text(id),
        is_header_text(name),
        ({
            let dir0 = if st.contains_key(ascii_chars(id)) {
                st[ascii_chars(id)]
            } else {
                empty_dir()
            };
            exists|j: int| 0 <= j < total - 1 && !dir0.chunks.contains_key(j)
        }),
    ensures
        ({
            let dir0 = if st.contains_key(ascii_chars(id)) {
                st[ascii_chars(id)]
            } else {
                empty_dir()
            };
            let stored = dir0.chunks.insert(total - 1, body);
            let r = spec_call(st, chunk_request(id, name, (total - 1) as nat, total, body));
            &&& r.0 == st.insert(ascii_chars(id), DirModel { chunks: stored, entries: dir0.entries })
            &&& first_missing_from(stored, 0, total) matches Some(i) && i < total
                && !stored.contains_key(i as int) && (forall|j: int|
                0 <= j < i ==> stored.contains_key(j)) && r.1 == Err::<
                ResponseModel,
                ErrorModel,
            >(ErrorModel::BadRequest(missing_chunk_msg(i)))
        }),
{
    lemma_validate_chunk_request(id, name, (total - 1) as nat, total, body);
    let dir0 = if st.contains_key(ascii_chars(id)) {
        st[ascii_chars(id)]
    } else {
        empty_dir()
    };
    let stored = dir0.chunks.insert(total - 1, body);
    let j0 = choose|j: int| 0 <= j < total - 1 && !dir0.chunks.contains_key(j);
    assert(0 <= j0 < total && !stored.contains_key(j0));
    lemma_first_missing_least(stored, 0, total);
}

/// Whatever metadata validation rejects — an absent field, unreadable bytes,
/// an unreadable count, a zero total, an out-of-range index — the stored tree
/// is untouched and the failure is a bad request.
pub proof fn theorem_rejected_request_writes_nothing(
    st: Map<Seq<char>, DirModel>,
    req: RequestModel,
)
    requires
        spec_validate(req) is Err,
    ensures
        spec_call(st, req).0 == st,
        spec_call(st, req).1 matches Err(e) && e is BadRequest,
{
}

/// A chunk index at or beyond the total is rejected with the exact reason
/// naming both counts, and storage is untouched.
pub proof fn theorem_index_out_of_range(st: Map<Seq<char>, DirModel>, req: RequestModel)
    requires
        req.file_id matches Some(f) && is_header_text(f),
        req.file_name matches Some(fname) && is_header_text(fname),
        req.chunk_index matches Some(c) && count_ok(c),
        req.total_chunks matches Some(t) && count_ok(t),
        1 <= count_of(req.total_chunks->0),
        count_of(req.chunk_index->0) >= count_of(req.total_chunks->0),
    ensures
        spec_call(st, req).0 == st,
        spec_call(st, req).1 == Err::<ResponseModel, ErrorModel>(
            ErrorModel::BadRequest(
                invalid_index_msg(count_of(req.chunk_index->0), count_of(req.total_chunks->0)),
            ),
        ),
{
}

/// A total of zero is rejected as a bad request whatever the rest of the
/// request holds, and storage is untouched.
pub proof fn theorem_zero_total(st: Map<Seq<char>, DirModel>, req: RequestModel)
    requires
        req.total_chunks matches Some(t) && count_ok(t) && count_of(t) == 0,
    ensures
        spec_call(st, req).0 == st,
        spec_call(st, req).1 matches Err(e) && e is BadRequest,
{
}

/// When the first failing check is an absent field, the request is rejected
/// with a reason that opens with "Missing header: ", and storage is
/// untouched.
pub proof fn theorem_missing_field(st: Map<Seq<char>, DirModel>, req: RequestModel)
    requires
        ({
            ||| req.file_id is None
            ||| ({
                &&& req.file_id matches Some(f)
                &&& is_header_text(f)
                &&& req.chunk_index is None
            })
            ||| ({
                &&& req.file_id matches Some(f)
                &&& is_header_text(f)
                &&& req.chunk_index matches Some(c)
                &&& count_ok(c)
                &&& req.total_chunks is None
            })
            ||| ({
                &&& req.file_id matches Some(f)
                &&& is_header_text(f)
                &&& req.chunk_index matches Some(c)
                &&& count_ok(c)
                &&& req.total_chunks matches Some(t)
                &&& count_ok(t)
                &&& req.file_name is None
            })
        }),
    ensures
        spec_call(st, req).0 == st,
        spec_call(st, req).1 matches Err(e) && e matches ErrorModel::BadRequest(m) && (
        "Missing header: "@).is_prefix_of(m),
{
    assert(("Missing header: "@ + "X-File-Id"@).subrange(0, "Missing header: "@.len() as int)
        =~= "Missing header: "@);
    assert(("Missing header: "@ + "X-Chunk-Index"@).subrange(0, "Missing header: "@.len() as int)
        =~= "Missing header: "@);
    assert(("Missing header: "@ + "X-Total-Chunks"@).subrange(0, "Missing header: "@.len() as int)
        =~= "Missing header: "@);
    assert(("Missing header: "@ + "X-File-Name"@).subrange(0, "Missing header: "@.len() as int)
        =~= "Missing header: "@);
}

/// When the first failing check is a present header whose bytes do not read
/// as text, the request is rejected with a reason that opens with
/// "Invalid header format: ", and storage is untouched.
pub proof fn theorem_malformed_header_bytes(st: Map<Seq<char>, DirModel>, req: RequestModel)
    requires
        ({
            ||| (req.file_id matches Some(f) && !is_header_text(f))
            ||| ({
                &&& req.file_id matches Some(f)
                &&& is_header_text(f)
                &&& req.chunk_index matches Some(c)
                &&& !is_header_text(c)
            })
            ||| ({
                &&& req.file_id matches Some(f)
                &&& is_header_text(f)
                &&& req.chunk_index matches Some(c)
                &&& count_ok(c)
                &&& req.total_chunks matches Some(t)
                &&& !is_header_text(t)
            })
            ||| ({
                &&& req.file_id matches Some(f)
                &&& is_header_text(f)
                &&& req.chunk_index matches Some(c)
                &&& count_ok(c)
                &&& req.total_chunks matches Some(t)
                &&& count_ok(t)
                &&& req.file_name matches Some(n)
                &&& !is_header_text(n)
            })
        }),
    ensures
        spec_call(st, req).0 == st,
        spec_call(st, req).1 matches Err(e) && e matches ErrorModel::BadRequest(m) && (
        "Invalid header format: "@).is_prefix_of(m),
{
    assert(("Invalid header format: "@ + "X-File-Id"@).subrange(
        0,
        "Invalid header format: "@.len() as int,
    ) =~= "Invalid header format: "@);
    assert(("Invalid header format: "@ + "X-Chunk-Index"@).subrange(
        0,
        "Invalid header format: "@.len() as int,
    ) =~= "Invalid header format: "@);
    assert(("Invalid header format: "@ + "X-Total-Chunks"@).subrange(
        0,
        "Invalid header format: "@.len() as int,
    ) =~= "Invalid header format: "@);
    assert(("Invalid header format: "@ + "X-File-Name"@).subrange(
        0,
        "Invalid header format: "@.len() as int,
    ) =~= "Invalid header format: "@);
}

/// A present, readable numeric field that does not read as an in-range count
/// is rejected with a reason that opens with "Invalid header value: ", and
/// storage is untouched.
pub proof fn theorem_unparsable_field(st: Map<Seq<char>, DirModel>, req: RequestModel)
    requires
        req.file_id matches Some(f) && is_header_text(f),
        req.chunk_index matches Some(c) && is_header_text(c),
        ({
            ||| !spec_parse_ok(ascii_chars(req.chunk_index->0))
            ||| ({
                &&& count_ok(req.chunk_index->0)
                &&& req.total_chunks matches Some(t)
                &&& is_header_text(t)
                &&& !spec_parse_ok(ascii_chars(t))
            })
        }),
    ensures
        spec_call(st, req).0 == st,
        spec_call(st, req).1 matches Err(e) && e matches ErrorModel::BadRequest(m) && (
        "Invalid header value: "@).is_prefix_of(m),
{
    assert(("Invalid header value: "@ + "X-Chunk-Index"@).subrange(
        0,
        "Invalid header value: "@.len() as int,
    ) =~= "Invalid header value: "@);
    assert(("Invalid header value: "@ + "X-Total-Chunks"@).subrange(
        0,
        "Invalid header value: "@.len() as int,
    ) =~= "Invalid header value: "@);
}

/// Resending a chunk before finalization succeeds and overwrites that
/// chunk's stored bytes with the latest payload; nothing else of the upload
/// changes.
pub proof fn theorem_resend_overwrites(
    st: Map<Seq<char>, DirModel>,
    id: Seq<u8>,
    name: Seq<u8>,
    index: nat,
    total: nat,
    b1: Seq<u8>,
    b2: Seq<u8>,
)
    requires
        index + 1 < total,
        total <= usize::MAX,
        is_header_text(id),
        is_header_text(name),
    ensures
        ({
            let dir0 = if st.contains_key(ascii_chars(id)) {
                st[ascii_chars(id)]
            } else {
                empty_dir()
            };
            let r1 = spec_call(st, chunk_request(id, name, index, total, b1));
            let r2 = spec_call(r1.0, chunk_request(id, name, index, total, b2));
            &&& r1.1 is Ok
            &&& r2.1 is Ok
            &&& r2.0 == st.insert(
                ascii_chars(id),
                DirModel { chunks: dir0.chunks.insert(index as int, b2), entries: dir0.entries },
            )
        }),
{
    lemma_validate_chunk_request(id, name, index, total, b1);
    lemma_validate_chunk_request(id, name, index, total, b2);
    let dir0 = if st.contains_key(ascii_chars(id)) {
        st[ascii_chars(id)]
    } else {
        empty_dir()
    };
    let r1 = spec_call(st, chunk_request(id, name, index, total, b1));
    let r2 = spec_call(r1.0, chunk_request(id, name, index, total, b2));
    assert(dir0.chunks.insert(index as int, b1).insert(index as int, b2) =~= dir0.chunks.insert(
        index as int,
        b2,
    ));
    assert(r2.0 =~= st.insert(
        ascii_chars(id),
        DirModel { chunks: dir0.chunks.insert(index as int, b2), entries: dir0.entries },
    ));
}

} // verus!
