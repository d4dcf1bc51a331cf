use stellar_tokens::doc_manager::{
    count_chars, get_document, get_document_by_index, get_document_count, get_documents, remove_document,
    set_document,
    DocumentError, DocumentStorage, BUCKET_SIZE, MAX_DOCUMENTS, MAX_URI_LEN,
};
use stellar_tokens::hash32::Hash32;

/// The first 32 bytes of `s`, zero-padded, as a name.
fn name32(s: &str) -> Hash32 {
    let mut b = [0u8; 32];
    let n = s.len().min(32);
    b[..n].copy_from_slice(&s.as_bytes()[..n]);
    let w = |i: usize| u64::from_be_bytes([b[i], b[i + 1], b[i + 2], b[i + 3], b[i + 4], b[i + 5], b[i + 6], b[i + 7]]);
    Hash32 { w0: w(0), w1: w(8), w2: w(16), w3: w(24) }
}

/// A stand-in content hash: distinct contents give distinct values.
fn content_hash(s: &str) -> Hash32 {
    let mut h: u64 = 0xcbf29ce484222325;
    for c in s.bytes() {
        h = (h ^ c as u64).wrapping_mul(0x100000001b3);
    }
    Hash32 { w0: h, w1: h.rotate_left(13), w2: h.rotate_left(29), w3: h.rotate_left(47) }
}

fn uri(s: &str) -> Vec<u8> {
    s.as_bytes().to_vec()
}

fn doc_exists(docs: &DocumentStorage, name: &Hash32) -> bool {
    get_document(docs, name).is_ok()
}

#[test]
fn set_document_success() {
    let mut d = DocumentStorage::new();
    let name = name32("test_doc");
    let u = uri("https://example.com/doc.pdf");
    let hash = content_hash("document content");
    set_document(&mut d, &name, &u, &hash, 7).unwrap();
    let stored = get_document(&d, &name).unwrap();
    assert_eq!(stored.uri, u);
    assert_eq!(stored.document_hash, hash);
    assert_eq!(stored.timestamp, 7);
}

#[test]
fn set_document_update_existing() {
    let mut d = DocumentStorage::new();
    let name = name32("test_doc");
    let uri1 = uri("https://example.com/doc_v1.pdf");
    let hash1 = content_hash("document content v1");
    let uri2 = uri("https://example.com/doc_v2.pdf");
    let hash2 = content_hash("document content v2");
    set_document(&mut d, &name, &uri1, &hash1, 10).unwrap();
    let doc1_timestamp = get_document(&d, &name).unwrap().timestamp;
    set_document(&mut d, &name, &uri2, &hash2, 20).unwrap();
    let doc2 = get_document(&d, &name).unwrap();
    assert_eq!(doc2.uri, uri2);
    assert_eq!(doc2.document_hash, hash2);
    assert!(doc2.timestamp >= doc1_timestamp);
    assert_eq!(get_document_count(&d), 1);
}

#[test]
fn get_document_not_found() {
    let d = DocumentStorage::new();
    assert_eq!(get_document(&d, &name32("nonexistent")).err(), Some(DocumentError::DocumentNotFound));
}

#[test]
fn remove_document_success() {
    let mut d = DocumentStorage::new();
    let name = name32("test_doc");
    set_document(&mut d, &name, &uri("https://example.com/doc.pdf"), &content_hash("document content"), 1).unwrap();
    assert_eq!(get_document_count(&d), 1);
    remove_document(&mut d, &name).unwrap();
    assert_eq!(get_document_count(&d), 0);
}

#[test]
fn remove_document_not_found() {
    let mut d = DocumentStorage::new();
    assert_eq!(remove_document(&mut d, &name32("nonexistent")), Err(DocumentError::DocumentNotFound));
}

#[test]
fn get_documents_empty() {
    let d = DocumentStorage::new();
    assert_eq!(get_documents(&d, 0).len(), 0);
}

#[test]
fn get_documents_multiple() {
    let mut d = DocumentStorage::new();
    let name1 = name32("doc1");
    let name2 = name32("doc2");
    let name3 = name32("doc3");
    set_document(&mut d, &name1, &uri("https://example.com/doc1.pdf"), &content_hash("document 1 content"), 1).unwrap();
    set_document(&mut d, &name2, &uri("https://example.com/doc2.pdf"), &content_hash("document 2 content"), 1).unwrap();
    set_document(&mut d, &name3, &uri("https://example.com/doc3.pdf"), &content_hash("document 3 content"), 1).unwrap();
    let documents = get_documents(&d, 0);
    assert_eq!(documents.len(), 3);
    let found: Vec<Hash32> = documents.iter().map(|(n, _)| *n).collect();
    assert!(found.contains(&name1));
    assert!(found.contains(&name2));
    assert!(found.contains(&name3));
}

#[test]
fn get_documents_after_removal() {
    let mut d = DocumentStorage::new();
    let name1 = name32("doc1");
    let name2 = name32("doc2");
    set_document(&mut d, &name1, &uri("https://example.com/doc1.pdf"), &content_hash("document 1 content"), 1).unwrap();
    set_document(&mut d, &name2, &uri("https://example.com/doc2.pdf"), &content_hash("document 2 content"), 1).unwrap();
    assert_eq!(get_document_count(&d), 2);
    remove_document(&mut d, &name1).unwrap();
    let documents = get_documents(&d, 0);
    assert_eq!(documents.len(), 1);
    assert_eq!(documents[0].0, name2);
    assert_eq!(get_document_count(&d), 1);
}

#[test]
fn document_exists_functionality() {
    let mut d = DocumentStorage::new();
    let name = name32("test_doc");
    assert!(!doc_exists(&d, &name));
    set_document(&mut d, &name, &uri("https://example.com/doc.pdf"), &content_hash("document content"), 1).unwrap();
    assert!(doc_exists(&d, &name));
    remove_document(&mut d, &name).unwrap();
    assert!(!doc_exists(&d, &name));
}

#[test]
fn document_count_tracking() {
    let mut d = DocumentStorage::new();
    assert_eq!(get_document_count(&d), 0);
    let name1 = name32("doc1");
    let name2 = name32("doc2");
    let hash1 = content_hash("document 1 content");
    set_document(&mut d, &name1, &uri("https://example.com/doc1.pdf"), &hash1, 1).unwrap();
    assert_eq!(get_document_count(&d), 1);
    set_document(&mut d, &name2, &uri("https://example.com/doc2.pdf"), &content_hash("document 2 content"), 1).unwrap();
    assert_eq!(get_document_count(&d), 2);
    set_document(&mut d, &name1, &uri("https://example.com/doc1_updated.pdf"), &hash1, 2).unwrap();
    assert_eq!(get_document_count(&d), 2);
    remove_document(&mut d, &name1).unwrap();
    assert_eq!(get_document_count(&d), 1);
    remove_document(&mut d, &name2).unwrap();
    assert_eq!(get_document_count(&d), 0);
}

#[test]
fn swap_and_pop_behavior() {
    let mut d = DocumentStorage::new();
    let names: Vec<Hash32> = ["doc1", "doc2", "doc3", "doc4", "doc5"].iter().map(|s| name32(s)).collect();
    let u = uri("https://example.com/doc.pdf");
    let hash = content_hash("content");
    for n in &names {
        set_document(&mut d, n, &u, &hash, 1).unwrap();
    }
    assert_eq!(get_document_count(&d), 5);
    remove_document(&mut d, &names[1]).unwrap();
    assert_eq!(get_document_count(&d), 4);
    assert!(!doc_exists(&d, &names[1]));
    assert_eq!(get_document_by_index(&d, 1).unwrap().0, names[4]);
    assert!(doc_exists(&d, &names[0]));
    assert!(doc_exists(&d, &names[2]));
    assert!(doc_exists(&d, &names[3]));
    assert!(doc_exists(&d, &names[4]));
}

#[test]
fn max_documents_limit() {
    let mut d = DocumentStorage::new();
    let u = uri("https://example.com/doc.pdf");
    let hash = content_hash("content");
    for i in 0..MAX_DOCUMENTS {
        set_document(&mut d, &name32(&format!("doc_{}", i)), &u, &hash, 1).unwrap();
    }
    assert_eq!(
        set_document(&mut d, &name32("one_too_many"), &u, &hash, 1),
        Err(DocumentError::MaxDocumentsReached)
    );
    // A document already there can still be updated.
    set_document(&mut d, &name32("doc_0"), &u, &content_hash("new content"), 2).unwrap();
    assert_eq!(get_document_count(&d), MAX_DOCUMENTS);
}

#[test]
fn get_document_by_index_success() {
    let mut d = DocumentStorage::new();
    let name1 = name32("doc1");
    let name2 = name32("doc2");
    let name3 = name32("doc3");
    let u = uri("https://example.com/doc.pdf");
    let hash = content_hash("content");
    set_document(&mut d, &name1, &u, &hash, 1).unwrap();
    set_document(&mut d, &name2, &u, &hash, 1).unwrap();
    set_document(&mut d, &name3, &u, &hash, 1).unwrap();
    let (n0, d0) = get_document_by_index(&d, 0).unwrap();
    assert_eq!(n0, name1);
    assert_eq!(d0.uri, u);
    assert_eq!(get_document_by_index(&d, 1).unwrap().0, name2);
    assert_eq!(get_document_by_index(&d, 2).unwrap().0, name3);
}

#[test]
fn get_document_by_index_out_of_bounds() {
    let mut d = DocumentStorage::new();
    set_document(&mut d, &name32("doc1"), &uri("https://example.com/doc.pdf"), &content_hash("content"), 1).unwrap();
    assert_eq!(get_document_by_index(&d, 1).err(), Some(DocumentError::DocumentNotFound));
}

#[test]
fn add_document_to_new_bucket() {
    let mut d = DocumentStorage::new();
    let u = uri("https://example.com/doc.pdf");
    let hash = content_hash("content");
    for i in 0..BUCKET_SIZE {
        set_document(&mut d, &name32(&format!("doc_bucket0_{}", i)), &u, &hash, 1).unwrap();
    }
    assert_eq!(get_document_count(&d), BUCKET_SIZE);
    let (last0, _) = get_document_by_index(&d, BUCKET_SIZE - 1).unwrap();
    assert_eq!(last0, name32(&format!("doc_bucket0_{}", BUCKET_SIZE - 1)));
    let name_bucket1 = name32("doc_bucket1_0");
    set_document(&mut d, &name_bucket1, &u, &hash, 1).unwrap();
    assert_eq!(get_document_count(&d), BUCKET_SIZE + 1);
    let (n, doc) = get_document_by_index(&d, BUCKET_SIZE).unwrap();
    assert_eq!(n, name_bucket1);
    assert_eq!(doc.uri, u);
    assert_eq!(get_documents(&d, 0).len(), BUCKET_SIZE as usize);
    assert_eq!(get_documents(&d, 1).len(), 1);
}

#[test]
fn swap_and_pop_across_different_buckets() {
    let mut d = DocumentStorage::new();
    let u = uri("https://example.com/doc.pdf");
    let hash = content_hash("content");
    for i in 0..75 {
        set_document(&mut d, &name32(&format!("doc_{}", i)), &u, &hash, 1).unwrap();
    }
    assert_eq!(get_document_count(&d), 75);
    let to_remove = name32("doc_10");
    remove_document(&mut d, &to_remove).unwrap();
    assert_eq!(get_document_count(&d), 74);
    assert!(!doc_exists(&d, &to_remove));
    assert_eq!(get_document_by_index(&d, 10).unwrap().0, name32("doc_74"));
    assert_eq!(get_document(&d, &name32("doc_74")).unwrap().uri, u);
}

#[test]
fn remove_last_document_in_bucket() {
    let mut d = DocumentStorage::new();
    let u = uri("https://example.com/doc.pdf");
    let hash = content_hash("content");
    for i in 0..BUCKET_SIZE {
        set_document(&mut d, &name32(&format!("doc_{}", i)), &u, &hash, 1).unwrap();
    }
    assert_eq!(get_document_count(&d), BUCKET_SIZE);
    let last = name32(&format!("doc_{}", BUCKET_SIZE - 1));
    remove_document(&mut d, &last).unwrap();
    assert_eq!(get_document_count(&d), BUCKET_SIZE - 1);
    assert!(!doc_exists(&d, &last));
    assert_eq!(get_document_by_index(&d, 0).unwrap().0, name32("doc_0"));
}

#[test]
fn set_document_uri_too_long() {
    let mut d = DocumentStorage::new();
    let long_uri = vec![b'a'; (MAX_URI_LEN + 1) as usize];
    assert_eq!(
        set_document(&mut d, &name32("test_doc"), &long_uri, &content_hash("document content"), 1),
        Err(DocumentError::UriTooLong)
    );
    // Exactly the limit is fine.
    let max_uri = vec![b'a'; MAX_URI_LEN as usize];
    set_document(&mut d, &name32("test_doc"), &max_uri, &content_hash("document content"), 1).unwrap();
}

#[test]
fn removing_a_document_leaves_the_others_as_they_were() {
    let mut d = DocumentStorage::new();
    let a = name32("a");
    let b = name32("b");
    set_document(&mut d, &a, &uri("ua"), &content_hash("ca"), 3).unwrap();
    set_document(&mut d, &b, &uri("ub"), &content_hash("cb"), 4).unwrap();
    remove_document(&mut d, &a).unwrap();
    let kept = get_document(&d, &b).unwrap();
    assert_eq!(kept.uri, uri("ub"));
    assert_eq!(kept.document_hash, content_hash("cb"));
    assert_eq!(kept.timestamp, 4);
}

#[test]
fn the_uri_limit_counts_characters_not_bytes() {
    let mut d = DocumentStorage::new();
    // 101 two-byte characters: 202 bytes, 101 characters.
    let accented = "\u{e9}".repeat(101).into_bytes();
    assert_eq!(accented.len(), 202);
    assert_eq!(count_chars(&accented), 101);
    set_document(&mut d, &name32("accented"), &accented, &content_hash("c"), 1).unwrap();
    let too_many = "\u{e9}".repeat(MAX_URI_LEN as usize + 1).into_bytes();
    assert_eq!(
        set_document(&mut d, &name32("long"), &too_many, &content_hash("c"), 1),
        Err(DocumentError::UriTooLong)
    );
    assert_eq!(count_chars(&"a\u{20ac}\u{1f600}".as_bytes().to_vec()), 3);
}
