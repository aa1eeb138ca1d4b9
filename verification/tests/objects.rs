use object_database::blob::Blob;
use object_database::commit::{Commit, Contributor, Timestamp, MAX_SECONDS, MIN_SECONDS};
use object_database::encoding::{
    bytes_equal, decimal_digits, find_nul, frame_bytes, unframe_bytes, ObjectError,
};
use object_database::hash::ObjectId;
use object_database::object::Object;
use object_database::tree::{bytes_in_order, entries_in_order, Entry, Tree};

const HELLO_ID: &str = "ce013625030ba8dba906f756967f9e9ca394464a";

fn hello_id() -> ObjectId {
    Blob::new(b"hello\n").object_id()
}

#[test]
fn blob_serializes_with_header() {
    let blob = Blob::new(b"hello\n");
    assert_eq!(blob.serialize(), b"blob 6\0hello\n".to_vec());
}

#[test]
fn empty_blob_serializes_with_zero_length() {
    let blob = Blob::new(b"");
    assert_eq!(blob.serialize(), b"blob 0\0".to_vec());
    assert_eq!(blob.object_id().as_hex(), "e69de29bb2d1d6434b8b29ae775ad8c2e48c5391");
}

#[test]
fn blob_id_of_hello() {
    let hex = hello_id().as_hex();
    assert_eq!(hex.len(), 40);
    assert!(hex.starts_with("ce013625030ba8dba906f756967f9e9ca394464"));
    assert_eq!(hex, HELLO_ID);
}

#[test]
fn identity_is_the_digest_of_the_encoding() {
    let blob = Blob::new(b"hello\n");
    let direct = ObjectId::compute(&blob.serialize());
    assert_eq!(direct.as_bytes(), blob.object_id().as_bytes());
    assert_ne!(direct.as_bytes().to_vec(), blob.serialize());
    assert_eq!(
        ObjectId::compute(b"").as_hex(),
        "da39a3ee5e6b4b0d3255bfef95601890afd80709"
    );
    assert_eq!(
        ObjectId::compute(b"abc").as_hex(),
        "a9993e364706816aba3e25717850c26c9cd0d89d"
    );
}

#[test]
fn identity_is_deterministic() {
    let blob = Blob::new(b"some bytes");
    assert_eq!(blob.object_id().as_bytes(), blob.object_id().as_bytes());
}

#[test]
fn equal_contents_give_equal_ids() {
    let a = Blob::new(b"same");
    let b = Blob::new(&b"same".to_vec());
    assert_eq!(a.object_id().as_hex(), b.object_id().as_hex());
    assert_eq!(a.serialize(), b.serialize());
    let c = Blob::new(b"other");
    assert_ne!(a.object_id().as_hex(), c.object_id().as_hex());
}

#[test]
fn hex_forms_agree() {
    let id = ObjectId([
        0x00, 0x01, 0x0a, 0x0f, 0x10, 0x7f, 0x80, 0xff, 0xab, 0xcd, 0xef, 0x12, 0x34, 0x56, 0x78,
        0x9a, 0xbc, 0xde, 0xf0, 0x99,
    ]);
    assert_eq!(id.as_hex(), "00010a0f107f80ffabcdef123456789abcdef099");
    assert_eq!(id.hex_bytes(), id.as_hex().into_bytes());
    assert_eq!(id.as_bytes()[7], 0xff);
}

#[test]
fn blob_round_trip() {
    let blob = Blob::new(b"hello\n");
    let back = Blob::deserialize(blob.serialize()).unwrap();
    assert_eq!(back.contents, b"hello\n".to_vec());
}

#[test]
fn blob_round_trip_with_embedded_nul() {
    let contents = b"a\0b\0\0c".to_vec();
    let blob = Blob::new(&contents);
    let back = Blob::deserialize(blob.serialize()).unwrap();
    assert_eq!(back.contents, contents);
}

#[test]
fn blob_round_trip_empty() {
    let back = Blob::deserialize(Blob::new(b"").serialize()).unwrap();
    assert!(back.contents.is_empty());
}

#[test]
fn deserialize_without_nul_is_parse_error() {
    let r = Blob::deserialize(b"blob 5 hello".to_vec());
    assert!(matches!(r, Err(ObjectError::ParseError)));
    let r = Blob::deserialize(Vec::new());
    assert!(matches!(r, Err(ObjectError::ParseError)));
}

#[test]
fn deserialize_with_wrong_length_is_parse_error() {
    let r = Blob::deserialize(b"blob 5\0hello\n".to_vec());
    assert!(matches!(r, Err(ObjectError::ParseError)));
    let r = Blob::deserialize(b"blob 7\0hello\n".to_vec());
    assert!(matches!(r, Err(ObjectError::ParseError)));
    let r = Blob::deserialize(b"blob 06\0hello\n".to_vec());
    assert!(matches!(r, Err(ObjectError::ParseError)));
    let r = Blob::deserialize(b"blob \0".to_vec());
    assert!(matches!(r, Err(ObjectError::ParseError)));
}

#[test]
fn deserialize_with_wrong_kind_is_parse_error() {
    let r = Blob::deserialize(b"tree 6\0hello\n".to_vec());
    assert!(matches!(r, Err(ObjectError::ParseError)));
    let r = Blob::deserialize(b"blub 6\0hello\n".to_vec());
    assert!(matches!(r, Err(ObjectError::ParseError)));
    let r = Blob::deserialize(b"\0".to_vec());
    assert!(matches!(r, Err(ObjectError::ParseError)));
}

#[test]
fn tree_and_commit_decoding_is_not_implemented() {
    let tree = Tree::new(vec![Entry::new("a.txt", hello_id())]);
    assert!(matches!(
        Tree::deserialize(tree.serialize()),
        Err(ObjectError::NotImplemented)
    ));
    assert!(matches!(
        Commit::deserialize(b"commit 0\0".to_vec()),
        Err(ObjectError::NotImplemented)
    ));
}

#[test]
fn frame_and_unframe() {
    assert_eq!(frame_bytes(b"blob", b"abc"), b"blob 3\0abc".to_vec());
    assert_eq!(unframe_bytes(b"blob", b"blob 3\0abc"), Ok(b"abc".to_vec()));
    assert_eq!(unframe_bytes(b"tree", b"blob 3\0abc"), Err(ObjectError::ParseError));
    let long = vec![7u8; 1234];
    let framed = frame_bytes(b"blob", &long);
    assert_eq!(&framed[..10], b"blob 1234\0");
    assert_eq!(unframe_bytes(b"blob", &framed), Ok(long));
}

#[test]
fn nul_search_and_equality() {
    assert_eq!(find_nul(b"ab\0cd\0"), Some(2));
    assert_eq!(find_nul(b"abcd"), None);
    assert_eq!(find_nul(b""), None);
    assert!(bytes_equal(b"abc", b"abc"));
    assert!(!bytes_equal(b"abc", b"abd"));
    assert!(!bytes_equal(b"abc", b"ab"));
}

#[test]
fn decimal_rendering() {
    assert_eq!(decimal_digits(0), b"0".to_vec());
    assert_eq!(decimal_digits(9), b"9".to_vec());
    assert_eq!(decimal_digits(10), b"10".to_vec());
    assert_eq!(decimal_digits(100644), b"100644".to_vec());
    assert_eq!(decimal_digits(u64::MAX), b"18446744073709551615".to_vec());
}

#[test]
fn entry_has_regular_file_mode() {
    let entry = Entry::new("a.txt", hello_id());
    assert_eq!(entry.mode, 100644);
    assert_eq!(entry.path, "a.txt");
    assert_eq!(entry.object_id.as_hex(), HELLO_ID);
}

#[test]
fn tree_serializes_one_entry() {
    let id = hello_id();
    let tree = Tree::new(vec![Entry::new("a.txt", id)]);
    let mut expected = b"tree 33\0100644 a.txt\0".to_vec();
    expected.extend_from_slice(&id.as_bytes());
    assert_eq!(tree.serialize(), expected);
    assert_eq!(tree.len(), 1);
    assert_eq!(tree.entry(0).path, "a.txt");
}

#[test]
fn empty_tree() {
    let tree = Tree::new(Vec::new());
    assert_eq!(tree.serialize(), b"tree 0\0".to_vec());
    assert_eq!(tree.object_id().as_hex(), "4b825dc642cb6eb9a060e54bf8d69288fbee4904");
}

#[test]
fn tree_is_order_independent() {
    let a = Blob::new(b"a").object_id();
    let b = Blob::new(b"b").object_id();
    let c = Blob::new(b"c").object_id();
    let first = Tree::new(vec![
        Entry::new("b.txt", b),
        Entry::new("a.txt", a),
        Entry::new("src/c.txt", c),
    ]);
    let second = Tree::new(vec![
        Entry::new("src/c.txt", c),
        Entry::new("b.txt", b),
        Entry::new("a.txt", a),
    ]);
    assert_eq!(first.serialize(), second.serialize());
    assert_eq!(first.object_id().as_hex(), second.object_id().as_hex());
    assert_eq!(first.entry(0).path, "a.txt");
    assert_eq!(first.entry(1).path, "b.txt");
    assert_eq!(first.entry(2).path, "src/c.txt");
}

#[test]
fn tree_sorts_by_raw_name_bytes() {
    let id = hello_id();
    let tree = Tree::new(vec![
        Entry::new("b", id),
        Entry::new("a.txt", id),
        Entry::new("B", id),
        Entry::new("a", id),
        Entry::new("\u{e9}", id),
    ]);
    let names: Vec<String> = (0..tree.len()).map(|i| tree.entry(i).path.clone()).collect();
    assert_eq!(names, vec!["B", "a", "a.txt", "b", "\u{e9}"]);
}

#[test]
fn byte_order() {
    assert!(bytes_in_order(b"", b""));
    assert!(bytes_in_order(b"", b"a"));
    assert!(!bytes_in_order(b"a", b""));
    assert!(bytes_in_order(b"a", b"a"));
    assert!(bytes_in_order(b"a", b"ab"));
    assert!(!bytes_in_order(b"ab", b"a"));
    assert!(bytes_in_order(b"ab", b"b"));
    assert!(!bytes_in_order(b"b", b"ab"));
    assert!(bytes_in_order(&[0x7f], &[0x80]));
}

#[test]
fn entry_order_breaks_ties_by_digest() {
    let low = ObjectId([0u8; 20]);
    let high = ObjectId([1u8; 20]);
    assert!(entries_in_order(&Entry::new("a", low), &Entry::new("a", high)));
    assert!(!entries_in_order(&Entry::new("a", high), &Entry::new("a", low)));
    assert!(entries_in_order(&Entry::new("a", high), &Entry::new("b", low)));
    assert!(entries_in_order(&Entry::new("a", low), &Entry::new("a", low)));
}

fn sample_commit(message: &str) -> Commit {
    Commit::new(
        Contributor::new("Ada Lovelace", "ada@example.org"),
        Timestamp::new(1700000000, 0).unwrap(),
        Contributor::new("Grace Hopper", "grace@example.org"),
        Timestamp::new(1700000060, -90).unwrap(),
        message.to_string(),
        hello_id(),
    )
}

#[test]
fn commit_serializes_without_indentation() {
    let commit = sample_commit("first\nsecond line\n");
    let payload = format!(
        "tree {}\nauthor Ada Lovelace <ada@example.org> 1700000000 +0000\ncommitter Grace Hopper <grace@example.org> 1700000060 -0130\n\nfirst\nsecond line\n",
        HELLO_ID
    );
    let expected = format!("commit {}\0{}", payload.len(), payload);
    assert_eq!(commit.serialize(), expected.into_bytes());
    assert_eq!(
        commit.object_id().as_bytes(),
        ObjectId::compute(&commit.serialize()).as_bytes()
    );
}

#[test]
fn contributor_renders_name_and_address() {
    let c = Contributor::new("Martin S\u{f6}derman", "m@example.org");
    assert_eq!(c.to_bytes(), "Martin S\u{f6}derman <m@example.org>".as_bytes().to_vec());
}

#[test]
fn timestamp_renders_seconds_and_offset() {
    let text = |seconds: i64, minutes: i32| Timestamp::new(seconds, minutes).unwrap().to_bytes();
    assert_eq!(text(0, 0), b"0 +0000".to_vec());
    assert_eq!(text(1700000000, 60), b"1700000000 +0100".to_vec());
    assert_eq!(text(-5, -330), b"-5 -0530".to_vec());
    assert_eq!(text(12, 845), b"12 +1405".to_vec());
    assert_eq!(text(7, 9), b"7 +0009".to_vec());
    assert_eq!(text(7, -1439), b"7 -2359".to_vec());
    assert_eq!(text(7, 1439), b"7 +2359".to_vec());
    assert_eq!(text(MAX_SECONDS, 1439), b"8210266876799 +2359".to_vec());
    assert_eq!(text(MIN_SECONDS, -1439), b"-8334601228800 -2359".to_vec());
    assert_eq!(text(MIN_SECONDS, 1439), b"-8334601228800 +2359".to_vec());
    assert_eq!(text(MAX_SECONDS, -1439), b"8210266876799 -2359".to_vec());
}

#[test]
fn timestamp_keeps_its_parts() {
    let stamp = Timestamp::new(1700000000, -90).unwrap();
    assert_eq!(stamp.seconds(), 1700000000);
    assert_eq!(stamp.offset_minutes(), -90);
}

#[test]
fn timestamp_range() {
    assert!(Timestamp::new(MIN_SECONDS, 0).is_some());
    assert!(Timestamp::new(MIN_SECONDS - 1, 0).is_none());
    assert!(Timestamp::new(MAX_SECONDS, 0).is_some());
    assert!(Timestamp::new(MAX_SECONDS + 1, 0).is_none());
    assert!(Timestamp::new(i64::MIN, 0).is_none());
    assert!(Timestamp::new(i64::MAX, 0).is_none());
    assert!(Timestamp::new(0, 1439).is_some());
    assert!(Timestamp::new(0, 1440).is_none());
    assert!(Timestamp::new(0, -1439).is_some());
    assert!(Timestamp::new(0, -1440).is_none());
    assert!(chrono::DateTime::from_timestamp(MIN_SECONDS, 0).is_some());
    assert!(chrono::DateTime::from_timestamp(MIN_SECONDS - 1, 0).is_none());
    assert!(chrono::DateTime::from_timestamp(MAX_SECONDS, 0).is_some());
    assert!(chrono::DateTime::from_timestamp(MAX_SECONDS + 1, 0).is_none());
}

#[test]
fn summary_stops_at_newline() {
    assert_eq!(sample_commit("hello\nworld").message_summary(), b"hello".to_vec());
    assert_eq!(sample_commit("\nworld").message_summary(), Vec::<u8>::new());
}

#[test]
fn summary_stops_at_forty_bytes() {
    let message = "abcdefghijklmnopqrstuvwxyzABCDEFGHIJKLMNOPQRSTUVWX";
    assert_eq!(message.len(), 50);
    assert_eq!(
        sample_commit(message).message_summary(),
        message.as_bytes()[..40].to_vec()
    );
    let late = format!("{}\nrest", &message[..45]);
    assert_eq!(
        sample_commit(&late).message_summary(),
        message.as_bytes()[..40].to_vec()
    );
}

#[test]
fn summary_of_short_message_is_the_message() {
    assert_eq!(sample_commit("short").message_summary(), b"short".to_vec());
    assert_eq!(sample_commit("").message_summary(), Vec::<u8>::new());
    let exact = "0123456789012345678901234567890123456789";
    assert_eq!(sample_commit(exact).message_summary(), exact.as_bytes().to_vec());
}

#[test]
fn contributor_as_text() {
    let c = Contributor::new("Ada Lovelace", "ada@example.org");
    assert_eq!(c.to_text(), "Ada Lovelace <ada@example.org>");
    assert_eq!(c.to_text().into_bytes(), c.to_bytes());
}

#[test]
fn tree_knows_repeated_names() {
    let a = Blob::new(b"a").object_id();
    let b = Blob::new(b"b").object_id();
    let distinct = Tree::new(vec![Entry::new("y", a), Entry::new("x", b), Entry::new("z", a)]);
    assert!(distinct.has_unique_names());
    let repeated = Tree::new(vec![Entry::new("x", a), Entry::new("y", a), Entry::new("x", b)]);
    assert!(!repeated.has_unique_names());
    assert!(Tree::new(Vec::new()).has_unique_names());
    assert!(Tree::new(vec![Entry::new("x", a)]).has_unique_names());
}
