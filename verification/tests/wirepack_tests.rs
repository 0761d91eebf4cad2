//! Tests of the wirepack tree-manifest parser.

use mercurial_bundles::delta::Delta;
use mercurial_bundles::errors::{ErrorKind, TreeError};
use mercurial_bundles::hash::{NodeHash, HASH_LEN};
use mercurial_bundles::manifest::{Details, EntryType, ManifestContent};
use mercurial_bundles::path::RepoPath;
use mercurial_bundles::wirepack::{
    DataEntry, HistoryEntry, Part, TreemanifestBundle2Parser, TreemanifestEntry,
    TreemanifestPartProcessor, WirePackPartProcessor,
};

fn hash_of(byte: u8) -> NodeHash {
    NodeHash::from_bytes(vec![byte; HASH_LEN])
}

fn ones_hash() -> NodeHash {
    hash_of(0x11)
}

fn twos_hash() -> NodeHash {
    hash_of(0x22)
}

fn threes_hash() -> NodeHash {
    hash_of(0x33)
}

fn fours_hash() -> NodeHash {
    hash_of(0x44)
}

fn null_hash() -> NodeHash {
    NodeHash::null_hash()
}

fn get_history_meta() -> Part {
    Part::HistoryMeta {
        path: RepoPath::root(),
        entry_count: 1,
    }
}

fn get_history_entry() -> Part {
    Part::History(HistoryEntry {
        node: ones_hash(),
        p1: twos_hash(),
        p2: threes_hash(),
        linknode: fours_hash(),
        copy_from: None,
    })
}

fn get_data_meta() -> Part {
    Part::DataMeta {
        path: RepoPath::root(),
        entry_count: 1,
    }
}

fn get_revlog_manifest_content() -> ManifestContent {
    let mut mc = ManifestContent::new();
    mc.push_entry(
        b"test_dir/test_file".to_vec(),
        Details::new(ones_hash(), EntryType::File),
    );
    mc.push_entry(
        b"test_dir2/test_manifest".to_vec(),
        Details::new(twos_hash(), EntryType::Tree),
    );
    mc
}

fn get_data_entry() -> Part {
    let data = get_revlog_manifest_content().generate();
    Part::Data(DataEntry {
        node: ones_hash(),
        delta_base: null_hash(),
        delta: Delta::new_fulltext(data),
    })
}

fn hash_eq(a: &NodeHash, b: &NodeHash) -> bool {
    a.bytes == b.bytes
}

fn opt_hash_eq(a: &Option<NodeHash>, b: &Option<NodeHash>) -> bool {
    match (a, b) {
        (None, None) => true,
        (Some(x), Some(y)) => hash_eq(x, y),
        _ => false,
    }
}

fn details_eq(a: &Details, b: &Details) -> bool {
    hash_eq(&a.id, &b.id) && a.flag == b.flag
}

fn mc_eq(a: &ManifestContent, b: &ManifestContent) -> bool {
    a.files.len() == b.files.len()
        && a.files
            .iter()
            .zip(b.files.iter())
            .all(|(x, y)| x.0 == y.0 && details_eq(&x.1, &y.1))
}

fn entry_eq(a: &TreemanifestEntry, b: &TreemanifestEntry) -> bool {
    hash_eq(&a.node, &b.node)
        && a.data == b.data
        && opt_hash_eq(&a.p1, &b.p1)
        && opt_hash_eq(&a.p2, &b.p2)
        && a.path == b.path
        && mc_eq(&a.manifest_content, &b.manifest_content)
}

fn get_expected_entry() -> TreemanifestEntry {
    let data = get_revlog_manifest_content().generate();
    let entry = TreemanifestEntry::new(
        ones_hash(),
        data,
        twos_hash(),
        threes_hash(),
        RepoPath::root(),
    )
    .unwrap();
    assert!(
        mc_eq(&entry.manifest_content, &get_revlog_manifest_content()),
        "Sanity check for manifest content failed"
    );
    entry
}

fn assert_fails(parts: Vec<Part>) {
    assert!(TreemanifestBundle2Parser::parse_parts(&parts).is_err());
}

#[test]
fn test_simple() {
    let parts = vec![
        get_history_meta(),
        get_history_entry(),
        get_data_meta(),
        get_data_entry(),
        get_history_meta(),
        get_history_entry(),
        get_data_meta(),
        get_data_entry(),
        Part::End,
    ];
    let entries = TreemanifestBundle2Parser::parse_parts(&parts).unwrap();
    let expected = vec![get_expected_entry(), get_expected_entry()];
    assert_eq!(entries.len(), expected.len());
    for (got, want) in entries.iter().zip(expected.iter()) {
        assert!(entry_eq(got, want));
    }
}

#[test]
fn test_broken() {
    let parts = vec![get_history_meta(), get_history_entry(), Part::End];
    assert_fails(parts);
    let parts = vec![
        get_history_meta(),
        get_history_entry(),
        get_data_meta(),
        Part::End,
    ];
    assert_fails(parts);
    let parts = vec![
        get_history_meta(),
        get_history_entry(),
        get_data_entry(),
        get_data_meta(),
        Part::End,
    ];
    assert_fails(parts);
    let parts = vec![
        get_history_meta(),
        get_history_entry(),
        Part::DataMeta {
            path: RepoPath::dir(b"dir".to_vec()).unwrap(),
            entry_count: 1,
        },
        get_data_entry(),
        Part::End,
    ];
    assert_fails(parts);
}

#[test]
fn test_one_cycle_emits_one_entry() {
    // One path with one history and one data entry, delta base null:
    // exactly one completed entry, nothing more.
    let data = get_revlog_manifest_content().generate();
    let parts = vec![
        Part::HistoryMeta {
            path: RepoPath::root(),
            entry_count: 1,
        },
        Part::History(HistoryEntry {
            node: ones_hash(),
            p1: null_hash(),
            p2: null_hash(),
            linknode: null_hash(),
            copy_from: None,
        }),
        Part::DataMeta {
            path: RepoPath::root(),
            entry_count: 1,
        },
        Part::Data(DataEntry {
            node: ones_hash(),
            delta_base: null_hash(),
            delta: Delta::new_fulltext(data.clone()),
        }),
        Part::End,
    ];
    let entries = TreemanifestBundle2Parser::parse_parts(&parts).unwrap();
    assert_eq!(entries.len(), 1);
    let entry = &entries[0];
    assert!(hash_eq(&entry.node, &ones_hash()));
    assert!(entry.p1.is_none());
    assert!(entry.p2.is_none());
    assert!(entry.path == RepoPath::root());
    assert_eq!(entry.data, data);
    assert!(mc_eq(
        &entry.manifest_content,
        &ManifestContent::parse(&data).unwrap()
    ));
}

#[test]
fn test_two_path_cycles_in_wire_order() {
    // Two consecutive path-cycles ("baz", then the root) yield two
    // entries in wire order, each independently validated.
    let baz = RepoPath::dir(b"baz".to_vec()).unwrap();
    let data = get_revlog_manifest_content().generate();
    let parts = vec![
        Part::HistoryMeta {
            path: baz.clone(),
            entry_count: 1,
        },
        Part::History(HistoryEntry {
            node: ones_hash(),
            p1: null_hash(),
            p2: null_hash(),
            linknode: null_hash(),
            copy_from: None,
        }),
        Part::DataMeta {
            path: baz.clone(),
            entry_count: 1,
        },
        Part::Data(DataEntry {
            node: ones_hash(),
            delta_base: null_hash(),
            delta: Delta::new_fulltext(data.clone()),
        }),
        Part::HistoryMeta {
            path: RepoPath::root(),
            entry_count: 1,
        },
        Part::History(HistoryEntry {
            node: twos_hash(),
            p1: threes_hash(),
            p2: null_hash(),
            linknode: null_hash(),
            copy_from: None,
        }),
        Part::DataMeta {
            path: RepoPath::root(),
            entry_count: 1,
        },
        Part::Data(DataEntry {
            node: twos_hash(),
            delta_base: null_hash(),
            delta: Delta::new_fulltext(data.clone()),
        }),
        Part::End,
    ];
    let entries = TreemanifestBundle2Parser::parse_parts(&parts).unwrap();
    assert_eq!(entries.len(), 2);
    assert!(entries[0].path == baz);
    assert!(hash_eq(&entries[0].node, &ones_hash()));
    assert!(entries[1].path == RepoPath::root());
    assert!(hash_eq(&entries[1].node, &twos_hash()));
    assert!(opt_hash_eq(&entries[1].p1, &Some(threes_hash())));
    assert!(entries[1].p2.is_none());
}

fn expect_tree_error(parts: Vec<Part>, want: TreeError) {
    match TreemanifestBundle2Parser::parse_parts(&parts) {
        Err(ErrorKind::MalformedTreemanifestPart(e)) => assert_eq!(e, want),
        other => panic!("expected tree error, got {:?}", other.is_ok()),
    }
}

#[test]
fn test_wrong_history_count() {
    let parts = vec![Part::HistoryMeta {
        path: RepoPath::root(),
        entry_count: 2,
    }];
    expect_tree_error(parts, TreeError::WrongHistoryCount(2));
}

#[test]
fn test_wrong_data_count() {
    let parts = vec![
        get_history_meta(),
        get_history_entry(),
        Part::DataMeta {
            path: RepoPath::root(),
            entry_count: 0,
        },
    ];
    expect_tree_error(parts, TreeError::WrongDataCount(0));
}

#[test]
fn test_path_mismatch() {
    let parts = vec![
        get_history_meta(),
        get_history_entry(),
        Part::DataMeta {
            path: RepoPath::dir(b"other".to_vec()).unwrap(),
            entry_count: 1,
        },
    ];
    expect_tree_error(parts, TreeError::PathMismatch);
}

#[test]
fn test_wrong_delta_base() {
    let parts = vec![
        get_history_meta(),
        get_history_entry(),
        get_data_meta(),
        Part::Data(DataEntry {
            node: ones_hash(),
            delta_base: twos_hash(),
            delta: Delta::new_fulltext(Vec::new()),
        }),
    ];
    expect_tree_error(parts, TreeError::WrongDeltaBase);
}

#[test]
fn test_path_already_set() {
    let parts = vec![get_history_meta(), get_history_meta()];
    expect_tree_error(parts, TreeError::PathAlreadySet);
}

#[test]
fn test_node_already_set() {
    let parts = vec![get_history_meta(), get_history_entry(), get_history_entry()];
    expect_tree_error(parts, TreeError::NodeAlreadySet);
}

#[test]
fn test_missing_node() {
    // A second data entry in one cycle finds the node already consumed.
    let parts = vec![
        get_history_meta(),
        get_history_entry(),
        get_data_meta(),
        get_data_entry(),
        get_data_entry(),
    ];
    expect_tree_error(parts, TreeError::MissingNode);
}

#[test]
fn test_incomplete_cycle() {
    let parts = vec![get_history_meta(), get_history_entry(), Part::End];
    expect_tree_error(parts, TreeError::IncompleteCycle);
}

#[test]
fn test_p1_p2_already_set() {
    // Unreachable through the token stream (a history token always sets
    // the node first), but the assembler defends each field on its own.
    let entry = HistoryEntry {
        node: ones_hash(),
        p1: twos_hash(),
        p2: threes_hash(),
        linknode: fours_hash(),
        copy_from: None,
    };
    let mut p = TreemanifestPartProcessor {
        node: None,
        p1: Some(twos_hash()),
        p2: None,
        path: None,
    };
    match p.history(&entry) {
        Err(ErrorKind::MalformedTreemanifestPart(e)) => assert_eq!(e, TreeError::P1AlreadySet),
        _ => panic!("expected P1AlreadySet"),
    }
    let mut p = TreemanifestPartProcessor {
        node: None,
        p1: None,
        p2: Some(threes_hash()),
        path: None,
    };
    match p.history(&entry) {
        Err(ErrorKind::MalformedTreemanifestPart(e)) => assert_eq!(e, TreeError::P2AlreadySet),
        _ => panic!("expected P2AlreadySet"),
    }
}

#[test]
fn test_missing_fields_at_data() {
    let data_entry = DataEntry {
        node: ones_hash(),
        delta_base: null_hash(),
        delta: Delta::new_fulltext(Vec::new()),
    };
    let mut p = TreemanifestPartProcessor {
        node: Some(ones_hash()),
        p1: None,
        p2: None,
        path: None,
    };
    match p.data(&data_entry) {
        Err(ErrorKind::MalformedTreemanifestPart(e)) => assert_eq!(e, TreeError::MissingP1),
        _ => panic!("expected MissingP1"),
    }
    let mut p = TreemanifestPartProcessor {
        node: Some(ones_hash()),
        p1: Some(twos_hash()),
        p2: None,
        path: None,
    };
    match p.data(&data_entry) {
        Err(ErrorKind::MalformedTreemanifestPart(e)) => assert_eq!(e, TreeError::MissingP2),
        _ => panic!("expected MissingP2"),
    }
    let mut p = TreemanifestPartProcessor {
        node: Some(ones_hash()),
        p1: Some(twos_hash()),
        p2: Some(threes_hash()),
        path: None,
    };
    match p.data(&data_entry) {
        Err(ErrorKind::MalformedTreemanifestPart(e)) => assert_eq!(e, TreeError::MissingPath),
        _ => panic!("expected MissingPath"),
    }
}

#[test]
fn test_content_parse_error() {
    // Bytes that are no manifest: the entry's construction fails with the
    // content parser's error.
    let parts = vec![
        get_history_meta(),
        get_history_entry(),
        get_data_meta(),
        Part::Data(DataEntry {
            node: ones_hash(),
            delta_base: null_hash(),
            delta: Delta::new_fulltext(b"not a manifest".to_vec()),
        }),
    ];
    match TreemanifestBundle2Parser::parse_parts(&parts) {
        Err(ErrorKind::ContentParse) => {}
        _ => panic!("expected ContentParse"),
    }
}

#[test]
fn test_parser_fused_after_end() {
    let mut parser = TreemanifestBundle2Parser::new();
    assert!(parser.feed(&Part::End).unwrap().is_none());
    // After the end token the parser consumes nothing further.
    let r = parser.feed(&get_history_meta()).unwrap();
    assert!(r.is_none());
    let r = parser.feed(&get_history_meta()).unwrap();
    assert!(r.is_none());
}
