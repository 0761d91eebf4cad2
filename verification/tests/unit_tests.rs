//! Unit tests of the leaf components: hashes, deltas, manifest content.

use mercurial_bundles::delta::{apply, Delta, Fragment};
use mercurial_bundles::hash::{NodeHash, HASH_LEN};
use mercurial_bundles::manifest::{Details, EntryType, ManifestContent};
use mercurial_bundles::path::RepoPath;

#[test]
fn test_null_hash_normalization() {
    let null = NodeHash::null_hash();
    assert!(null.is_null());
    assert!(null.into_option().is_none());
    let one = NodeHash::from_bytes(vec![1u8; HASH_LEN]);
    assert!(!one.is_null());
    let kept = one.into_option().unwrap();
    assert_eq!(kept.bytes, vec![1u8; HASH_LEN]);
}

#[test]
fn test_repo_path_equality() {
    assert!(RepoPath::root() == RepoPath::root());
    let a = RepoPath::dir(b"a".to_vec()).unwrap();
    let b = RepoPath::dir(b"b".to_vec()).unwrap();
    assert!(a == a.clone());
    assert!(a != b);
    assert!(a != RepoPath::root());
    assert!(RepoPath::dir(Vec::new()).is_err());
}

#[test]
fn test_delta_fulltext_apply() {
    let delta = Delta::new_fulltext(b"full text".to_vec());
    assert_eq!(delta.fragments().len(), 1);
    assert_eq!(delta.fragments()[0].start, 0);
    assert_eq!(delta.fragments()[0].end, 0);
    let base: Vec<u8> = Vec::new();
    assert_eq!(apply(&base, &delta), b"full text".to_vec());
}

#[test]
fn test_delta_splice() {
    // Replace "hello" by "howdy", keep " ", replace "world" by "there".
    let base = b"hello world".to_vec();
    let delta = Delta {
        frags: vec![
            Fragment {
                start: 0,
                end: 5,
                content: b"howdy".to_vec(),
            },
            Fragment {
                start: 6,
                end: 11,
                content: b"there".to_vec(),
            },
        ],
    };
    assert_eq!(apply(&base, &delta), b"howdy there".to_vec());
}

#[test]
fn test_manifest_generate_exact_bytes() {
    let mut mc = ManifestContent::new();
    mc.push_entry(
        b"a".to_vec(),
        Details::new(NodeHash::from_bytes(vec![0x11; HASH_LEN]), EntryType::File),
    );
    mc.push_entry(
        b"dir".to_vec(),
        Details::new(NodeHash::from_bytes(vec![0xab; HASH_LEN]), EntryType::Tree),
    );
    let mut expected = Vec::new();
    expected.extend_from_slice(b"a\0");
    expected.extend_from_slice("11".repeat(HASH_LEN).as_bytes());
    expected.extend_from_slice(b"\n");
    expected.extend_from_slice(b"dir\0");
    expected.extend_from_slice("ab".repeat(HASH_LEN).as_bytes());
    expected.extend_from_slice(b"t\n");
    assert_eq!(mc.generate(), expected);
}

#[test]
fn test_manifest_parse_roundtrip() {
    let mut mc = ManifestContent::new();
    mc.push_entry(
        b"x/y".to_vec(),
        Details::new(
            NodeHash::from_bytes((0..HASH_LEN as u8).collect()),
            EntryType::Executable,
        ),
    );
    mc.push_entry(
        b"z".to_vec(),
        Details::new(
            NodeHash::from_bytes(vec![0xfe; HASH_LEN]),
            EntryType::Symlink,
        ),
    );
    let bytes = mc.generate();
    let parsed = ManifestContent::parse(&bytes).unwrap();
    assert_eq!(parsed.files.len(), 2);
    assert_eq!(parsed.files[0].0, b"x/y".to_vec());
    assert_eq!(parsed.files[0].1.id.bytes, mc.files[0].1.id.bytes);
    assert_eq!(parsed.files[0].1.flag, EntryType::Executable);
    assert_eq!(parsed.files[1].0, b"z".to_vec());
    assert_eq!(parsed.files[1].1.flag, EntryType::Symlink);
}

#[test]
fn test_manifest_parse_empty() {
    let parsed = ManifestContent::parse(&Vec::new()).unwrap();
    assert!(parsed.files.is_empty());
}

#[test]
fn test_manifest_parse_rejects_malformation() {
    // No NUL separator.
    assert!(ManifestContent::parse(&b"plain".to_vec()).is_none());
    // Empty path.
    let mut bytes = b"\0".to_vec();
    bytes.extend_from_slice("11".repeat(HASH_LEN).as_bytes());
    bytes.push(b'\n');
    assert!(ManifestContent::parse(&bytes).is_none());
    // Hex too short.
    assert!(ManifestContent::parse(&b"a\01234\n".to_vec()).is_none());
    // A digit out of the hex alphabet.
    let mut bytes = b"a\0".to_vec();
    bytes.extend_from_slice("1g".repeat(HASH_LEN).as_bytes());
    bytes.push(b'\n');
    assert!(ManifestContent::parse(&bytes).is_none());
    // An unknown flag byte.
    let mut bytes = b"a\0".to_vec();
    bytes.extend_from_slice("11".repeat(HASH_LEN).as_bytes());
    bytes.extend_from_slice(b"q\n");
    assert!(ManifestContent::parse(&bytes).is_none());
}
