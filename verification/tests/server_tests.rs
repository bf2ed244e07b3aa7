//! End-to-end behaviour of the upload handler, one request at a time.
use slice_bread::{SliceBreadServer, SliceBreadServerError, Storage, UploadRequest};

fn req(
    file_id: Option<&str>,
    file_name: Option<&str>,
    chunk_index: Option<&str>,
    total_chunks: Option<&str>,
    body: &[u8],
) -> UploadRequest {
    UploadRequest {
        file_id: file_id.map(|s| s.as_bytes().to_vec()),
        chunk_index: chunk_index.map(|s| s.as_bytes().to_vec()),
        total_chunks: total_chunks.map(|s| s.as_bytes().to_vec()),
        file_name: file_name.map(|s| s.as_bytes().to_vec()),
        body: body.to_vec(),
    }
}

#[test]
fn test_full_upload_success() {
    let mut storage = Storage::new();
    let service = SliceBreadServer::new(String::from("uploads"));

    let file_id = "test123";
    let file_name = "hello.txt";

    // Upload chunk 0
    let res = service
        .call(
            &mut storage,
            &req(Some(file_id), Some(file_name), Some("0"), Some("2"), b"Hello, "),
        )
        .unwrap();
    assert_eq!(res.status, 201);

    let written = storage.chunk_content(file_id, 0).unwrap();
    assert_eq!(written.as_slice(), b"Hello, ");

    // Upload chunk 1 (final chunk)
    let res = service
        .call(
            &mut storage,
            &req(Some(file_id), Some(file_name), Some("1"), Some("2"), b"World!"),
        )
        .unwrap();
    assert_eq!(res.status, 201);

    // Check final file content
    let content = storage.dest_file(file_id, file_name).unwrap();
    assert_eq!(content.as_slice(), b"Hello, World!");
}

#[test]
fn test_single_chunk_file_upload() {
    let mut storage = Storage::new();
    let service = SliceBreadServer::new(String::from("uploads"));

    let file_id = "test1238";
    let file_name = "hello.txt";

    let res = service
        .call(
            &mut storage,
            &req(Some(file_id), Some(file_name), Some("0"), Some("1"), b"Hello, World!"),
        )
        .unwrap();
    assert_eq!(res.status, 201);

    let content = storage.dest_file(file_id, file_name).unwrap();
    assert_eq!(content.as_slice(), b"Hello, World!");
}

#[test]
fn test_missing_x_file_id_header() {
    let mut storage = Storage::new();
    let service = SliceBreadServer::new(String::from("uploads"));

    let file_id = "test12321";
    let file_name = "hello.txt";

    let res = service.call(
        &mut storage,
        &req(None, Some(file_name), Some("0"), Some("1    "), b"Hello, World!"),
    );
    assert!(
        matches!(res.unwrap_err(), SliceBreadServerError::BadRequest(ref msg) if msg.contains("Missing header"))
    );

    assert!(storage.dest_file(file_id, file_name).is_none());
}

#[test]
fn test_missing_x_file_name_header() {
    let mut storage = Storage::new();
    let service = SliceBreadServer::new(String::from("uploads"));

    let file_id = "test12321";
    let file_name = "hello.txt";

    let res = service.call(
        &mut storage,
        &req(Some(file_id), None, Some("0"), Some("1"), b"Hello, World!"),
    );
    assert!(
        matches!(res.unwrap_err(), SliceBreadServerError::BadRequest(ref msg) if msg.contains("Missing header"))
    );

    assert!(storage.dest_file(file_id, file_name).is_none());
}

#[test]
fn test_missing_x_chunk_index_header() {
    let mut storage = Storage::new();
    let service = SliceBreadServer::new(String::from("uploads"));

    let file_id = "test12321";
    let file_name = "hello.txt";

    let res = service.call(
        &mut storage,
        &req(Some(file_id), Some(file_name), None, Some("2"), b"Hello, World!"),
    );
    assert!(
        matches!(res.unwrap_err(), SliceBreadServerError::BadRequest(ref msg) if msg.contains("Missing header"))
    );

    assert!(storage.dest_file(file_id, file_name).is_none());
}

#[test]
fn test_missing_x_total_chunks_header() {
    let mut storage = Storage::new();
    let service = SliceBreadServer::new(String::from("uploads"));

    let file_id = "test12321";
    let file_name = "hello.txt";

    let res = service.call(
        &mut storage,
        &req(Some(file_id), Some(file_name), Some("0"), None, b"Hello, World!"),
    );
    assert!(
        matches!(res.unwrap_err(), SliceBreadServerError::BadRequest(ref msg) if msg.contains("Missing header"))
    );

    assert!(storage.dest_file(file_id, file_name).is_none());
}

#[test]
fn test_invalid_chunk_index_format() {
    let mut storage = Storage::new();
    let service = SliceBreadServer::new(String::from("uploads"));

    let file_id = "test12321";
    let file_name = "hello.txt";

    let res = service.call(
        &mut storage,
        &req(Some(file_id), Some(file_name), Some("one"), Some("2"), b"Hello, World!"),
    );
    assert!(
        matches!(res.unwrap_err(), SliceBreadServerError::BadRequest(ref msg) if msg.contains("Invalid header"))
    );

    assert!(storage.dest_file(file_id, file_name).is_none());
}

#[test]
fn test_invalid_total_chunks_format() {
    let mut storage = Storage::new();
    let service = SliceBreadServer::new(String::from("uploads"));

    let file_id = "test12321";
    let file_name = "hello.txt";

    let res = service.call(
        &mut storage,
        &req(Some(file_id), Some(file_name), Some("0"), Some("one"), b"Hello, World!"),
    );
    assert!(
        matches!(res.unwrap_err(), SliceBreadServerError::BadRequest(ref msg) if msg.contains("Invalid header"))
    );

    assert!(storage.dest_file(file_id, file_name).is_none());
}

#[test]
fn test_chunk_index_greater_than_total_chunks() {
    let mut storage = Storage::new();
    let service = SliceBreadServer::new(String::from("uploads"));

    let res = service.call(
        &mut storage,
        &req(Some("test123"), Some("hello.txt"), Some("2"), Some("1"), b"Hello, "),
    );
    assert!(
        matches!(res.unwrap_err(), SliceBreadServerError::BadRequest(ref msg) if msg.eq("Invalid X-Chunk-Index: 2 > X-Total-Chunks: 1"))
    );
}

#[test]
fn test_missing_intermediate_chunk_on_finalization() {
    let mut storage = Storage::new();
    let service = SliceBreadServer::new(String::from("uploads"));

    let file_id = "test12663";
    let file_name = "hello.txt";

    // Upload chunk 0
    let res = service
        .call(
            &mut storage,
            &req(Some(file_id), Some(file_name), Some("0"), Some("3"), b"Hello, "),
        )
        .unwrap();
    assert_eq!(res.status, 201);

    // Upload final chunk
    let res = service.call(
        &mut storage,
        &req(Some(file_id), Some(file_name), Some("2"), Some("3"), b"World!"),
    );
    assert!(
        matches!(res.unwrap_err(), SliceBreadServerError::BadRequest(ref msg) if msg.eq("Missing chunk: 1"))
    );
}

#[test]
fn test_write_failure_returns_internal_server_error() {
    let mut storage = Storage::new();
    let service = SliceBreadServer::new(String::from("uploads"));

    let file_id = "test123";
    let file_name = "hello.txt";

    // Something already made a directory where the destination file goes.
    storage.make_dir_entry(file_id, file_name);

    let res = service.call(
        &mut storage,
        &req(Some(file_id), Some(file_name), Some("0"), Some("1"), b"Hello, "),
    );
    assert!(
        matches!(res.unwrap_err(), SliceBreadServerError::IoError(ref e) if e.contains("Is a directory"))
    );
}

#[test]
fn test_output_file_creation_failure() {
    let mut storage = Storage::new();
    let service = SliceBreadServer::new(String::from("uploads"));

    let file_id = "test445562";
    let file_name = "hello.txt";

    storage.make_dir_entry(file_id, file_name);

    let res = service.call(
        &mut storage,
        &req(Some(file_id), Some(file_name), Some("0"), Some("1"), b"Hello, "),
    );
    assert!(
        matches!(res.unwrap_err(), SliceBreadServerError::IoError(ref e) if e.contains("Is a directory"))
    );
}

#[test]
fn test_chunks_are_deleted_after_merge() {
    let mut storage = Storage::new();
    let service = SliceBreadServer::new(String::from("uploads"));

    let file_id = "file123";
    let file_name = "final.txt";

    // Send single chunk (merge will happen)
    let res = service
        .call(
            &mut storage,
            &req(Some(file_id), Some(file_name), Some("0"), Some("1"), b"Hello, world!"),
        )
        .unwrap();
    assert_eq!(res.status, 201);

    assert!(!storage.has_chunk(file_id, 0));
}

#[test]
fn test_final_file_has_correct_content() {
    let mut storage = Storage::new();
    let service = SliceBreadServer::new(String::from("uploads"));

    let file_id = "fileContent";
    let file_name = "content.txt";

    service
        .call(&mut storage, &req(Some(file_id), Some(file_name), Some("0"), Some("3"), b"one "))
        .unwrap();
    service
        .call(&mut storage, &req(Some(file_id), Some(file_name), Some("1"), Some("3"), b"two "))
        .unwrap();
    service
        .call(&mut storage, &req(Some(file_id), Some(file_name), Some("2"), Some("3"), b"three"))
        .unwrap();

    let content = storage.dest_file(file_id, file_name).unwrap();
    assert_eq!(content.as_slice(), b"one two three");
}

#[test]
fn test_empty_chunk_upload() {
    let mut storage = Storage::new();
    let service = SliceBreadServer::new(String::from("uploads"));

    let file_id = "fileEmpty";
    let file_name = "empty.txt";

    let res = service
        .call(&mut storage, &req(Some(file_id), Some(file_name), Some("0"), Some("1"), b""))
        .unwrap();
    assert_eq!(res.status, 201);

    let written = storage.dest_file(file_id, file_name).unwrap();
    assert_eq!(written.len(), 0);
}

#[test]
fn test_duplicate_chunk_upload() {
    let mut storage = Storage::new();
    let service = SliceBreadServer::new(String::from("uploads"));

    let file_id = "fileDup";
    let file_name = "dup.txt";

    // First upload
    let res1 = service
        .call(&mut storage, &req(Some(file_id), Some(file_name), Some("0"), Some("1"), b"first"))
        .unwrap();
    assert_eq!(res1.status, 201);

    // Second upload with same chunk index
    let res2 = service
        .call(&mut storage, &req(Some(file_id), Some(file_name), Some("0"), Some("1"), b"second"))
        .unwrap();
    assert_eq!(res2.status, 201);

    let content = String::from_utf8(storage.dest_file(file_id, file_name).unwrap().clone()).unwrap();

    // Depending on implementation: expect "second" or "first"
    assert!(["first", "second"].contains(&content.as_str()));
}

#[test]
fn test_large_chunk_upload() {
    let mut storage = Storage::new();
    let service = SliceBreadServer::new(String::from("uploads"));

    let file_id = "fileLarge";
    let file_name = "large.txt";

    let big_data = "A".repeat(10 * 1024 * 1024); // 10 MB

    let res = service
        .call(
            &mut storage,
            &req(Some(file_id), Some(file_name), Some("0"), Some("1"), big_data.as_bytes()),
        )
        .unwrap();
    assert_eq!(res.status, 201);

    let written = storage.dest_file(file_id, file_name).unwrap();
    assert_eq!(written.len(), big_data.len());
}

#[test]
fn test_concurrent_uploads_same_file_id() {
    let mut storage = Storage::new();
    let service = SliceBreadServer::new(String::from("uploads"));

    let file_id = "fileConcurrent";
    let file_name = "multi.txt";

    let chunks = vec!["One", "Two", "Three", "Four"];

    for (i, chunk) in chunks.iter().enumerate() {
        let res = service.call(
            &mut storage,
            &req(
                Some(file_id),
                Some(file_name),
                Some(&i.to_string()),
                Some(&chunks.len().to_string()),
                chunk.as_bytes(),
            ),
        );
        assert!(res.is_ok());
    }

    let result = String::from_utf8(storage.dest_file(file_id, file_name).unwrap().clone()).unwrap();

    for chunk in &chunks {
        assert!(result.contains(chunk));
    }
}
