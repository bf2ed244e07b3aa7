//! The library's pieces one by one: numeral parsing and rendering, message
//! rendering, the finalization decision, assembly, and the spec'd edge cases.
use slice_bread::numerals::{parse_usize, usize_to_string};
use slice_bread::server::{assemble, chunk_file_name, is_final_chunk, missing_chunk_error};
use slice_bread::{SliceBreadServer, SliceBreadServerError, Storage, UploadRequest};

fn req(
    file_id: Option<&str>,
    file_name: Option<&str>,
    chunk_index: Option<&str>,
    total_chunks: Option<&str>,
    body: &[u8],
) -> UploadRequest {
    UploadRequest {
        file_id: file_id.map(|s| s.as_bytes().to_vec()),
        chunk_index: chunk_index.map(|s| s.as_bytes().to_vec()),
        total_chunks: total_chunks.map(|s| s.as_bytes().to_vec()),
        file_name: file_name.map(|s| s.as_bytes().to_vec()),
        body: body.to_vec(),
    }
}

#[test]
fn scenario_skipped_chunk_leaves_sent_chunks_in_place() {
    let mut storage = Storage::new();
    let service = SliceBreadServer::new(String::from("uploads"));

    let file_id = "t9";
    let file_name = "out.txt";

    service
        .call(&mut storage, &req(Some(file_id), Some(file_name), Some("0"), Some("3"), b"aa"))
        .unwrap();
    let res = service.call(
        &mut storage,
        &req(Some(file_id), Some(file_name), Some("2"), Some("3"), b"cc"),
    );
    assert!(
        matches!(res.unwrap_err(), SliceBreadServerError::BadRequest(ref msg) if msg == "Missing chunk: 1")
    );

    assert!(storage.has_chunk(file_id, 0));
    assert!(!storage.has_chunk(file_id, 1));
    assert!(storage.has_chunk(file_id, 2));
    assert!(storage.dest_file(file_id, file_name).is_none());
}

#[test]
fn scenario_out_of_range_index_writes_nothing() {
    let mut storage = Storage::new();
    let service = SliceBreadServer::new(String::from("uploads"));

    let res = service.call(
        &mut storage,
        &req(Some("t3"), Some("out.txt"), Some("2"), Some("1"), b"zz"),
    );
    assert!(matches!(res.unwrap_err(), SliceBreadServerError::BadRequest(_)));
    assert!(!storage.upload_dir_exists("t3"));
}

#[test]
fn scenario_index_equal_to_total_is_rejected() {
    let mut storage = Storage::new();
    let service = SliceBreadServer::new(String::from("uploads"));

    let res = service.call(
        &mut storage,
        &req(Some("t3b"), Some("out.txt"), Some("1"), Some("1"), b"zz"),
    );
    assert!(
        matches!(res.unwrap_err(), SliceBreadServerError::BadRequest(ref msg) if msg == "Invalid X-Chunk-Index: 1 > X-Total-Chunks: 1")
    );
    assert!(!storage.upload_dir_exists("t3b"));
}

#[test]
fn scenario_zero_total_always_rejected() {
    let mut storage = Storage::new();
    let service = SliceBreadServer::new(String::from("uploads"));

    let res = service.call(
        &mut storage,
        &req(Some("t4"), Some("out.txt"), Some("0"), Some("0"), b"zz"),
    );
    assert!(
        matches!(res.unwrap_err(), SliceBreadServerError::BadRequest(ref msg) if msg == "Total chunks must be at least 1")
    );

    // Whatever the index says, a zero total is still a bad request.
    let res = service.call(
        &mut storage,
        &req(Some("t4"), Some("out.txt"), Some("5"), Some("0"), b"zz"),
    );
    assert!(matches!(res.unwrap_err(), SliceBreadServerError::BadRequest(_)));
    assert!(!storage.upload_dir_exists("t4"));
}

#[test]
fn scenario_resend_overwrites_before_finalization() {
    let mut storage = Storage::new();
    let service = SliceBreadServer::new(String::from("uploads"));

    let file_id = "t6";
    let file_name = "out.txt";

    service
        .call(&mut storage, &req(Some(file_id), Some(file_name), Some("0"), Some("2"), b"a"))
        .unwrap();
    service
        .call(&mut storage, &req(Some(file_id), Some(file_name), Some("0"), Some("2"), b"b"))
        .unwrap();
    assert_eq!(storage.chunk_content(file_id, 0).unwrap().as_slice(), b"b");

    service
        .call(&mut storage, &req(Some(file_id), Some(file_name), Some("1"), Some("2"), b"c"))
        .unwrap();
    assert_eq!(storage.dest_file(file_id, file_name).unwrap().as_slice(), b"bc");
}

#[test]
fn scenario_file_name_is_read_after_the_counts() {
    let mut storage = Storage::new();
    let service = SliceBreadServer::new(String::from("uploads"));

    // An unreadable chunk index wins over the absent file name.
    let res = service.call(&mut storage, &req(Some("t7"), None, Some("x"), Some("2"), b"zz"));
    assert!(
        matches!(res.unwrap_err(), SliceBreadServerError::BadRequest(ref msg) if msg == "Invalid header value: X-Chunk-Index")
    );

    // An absent file id wins over everything else.
    let res = service.call(&mut storage, &req(None, None, Some("x"), Some("0"), b"zz"));
    assert!(
        matches!(res.unwrap_err(), SliceBreadServerError::BadRequest(ref msg) if msg == "Missing header: X-File-Id")
    );
}

#[test]
fn scenario_unreadable_header_bytes_are_rejected() {
    let mut storage = Storage::new();
    let service = SliceBreadServer::new(String::from("uploads"));

    let mut r = req(Some("t8"), Some("out.txt"), Some("0"), Some("1"), b"zz");
    // A control byte cannot read as header text.
    r.file_id = Some(vec![0x74, 0x01]);
    let res = service.call(&mut storage, &r);
    assert!(
        matches!(res.unwrap_err(), SliceBreadServerError::BadRequest(ref msg) if msg == "Invalid header format: X-File-Id")
    );
    assert!(!storage.upload_dir_exists("t8"));
}

#[test]
fn parse_usize_accepts_exactly_digit_strings_in_range() {
    assert_eq!(parse_usize("0"), Some(0));
    assert_eq!(parse_usize("007"), Some(7));
    assert_eq!(parse_usize("1234567890"), Some(1234567890));
    assert_eq!(parse_usize("18446744073709551615"), Some(usize::MAX));

    // A single leading plus sign is accepted, as the standard parser does.
    assert_eq!(parse_usize("+1"), Some(1));
    assert_eq!(parse_usize("+007"), Some(7));

    assert_eq!(parse_usize(""), None);
    assert_eq!(parse_usize("+"), None);
    assert_eq!(parse_usize("++1"), None);
    assert_eq!(parse_usize("1 "), None);
    assert_eq!(parse_usize(" 1"), None);
    assert_eq!(parse_usize("one"), None);
    assert_eq!(parse_usize("-1"), None);
    assert_eq!(parse_usize("18446744073709551616"), None);
}

#[test]
fn usize_to_string_renders_decimal() {
    assert_eq!(usize_to_string(0).as_str(), "0");
    assert_eq!(usize_to_string(42).as_str(), "42");
    assert_eq!(usize_to_string(1234567890).as_str(), "1234567890");
}

#[test]
fn chunk_file_name_follows_the_layout() {
    assert_eq!(chunk_file_name(0).as_str(), "chunk_0.bin");
    assert_eq!(chunk_file_name(17).as_str(), "chunk_17.bin");
}

#[test]
fn missing_chunk_error_names_the_index() {
    let e = missing_chunk_error(3);
    assert!(matches!(e, SliceBreadServerError::BadRequest(ref msg) if msg == "Missing chunk: 3"));
}

#[test]
fn is_final_chunk_is_the_highest_index() {
    assert!(is_final_chunk(0, 1));
    assert!(is_final_chunk(2, 3));
    assert!(!is_final_chunk(1, 3));
}

#[test]
fn assemble_concatenates_in_order() {
    let parts = vec![b"ab".to_vec(), b"".to_vec(), b"c".to_vec()];
    assert_eq!(assemble(&parts).as_slice(), b"abc");
    assert_eq!(assemble(&Vec::new()).as_slice(), b"");
}

#[test]
fn error_messages_name_the_failure_class() {
    assert_eq!(
        SliceBreadServerError::BadRequest("x".to_string()).message().as_str(),
        "Bad Request: x"
    );
    assert_eq!(SliceBreadServerError::IoError("x".to_string()).message().as_str(), "IO Error: x");
    assert_eq!(
        SliceBreadServerError::InternalServerError("x".to_string()).message().as_str(),
        "Internal Server Error: x"
    );
    assert_eq!(
        SliceBreadServerError::HyperError("x".to_string()).message().as_str(),
        "Hyper Error: x"
    );
}
