use quickstore::codec::{compress_data, decompress_data};
use quickstore::container::{pack_container, unpack_container};
use quickstore::tree::TreeNode;
use quickstore::StoreError;

fn cv(s: &str) -> Vec<char> {
    s.chars().collect()
}

fn file(name: &str, content: &[u8]) -> TreeNode {
    TreeNode::File { name: cv(name), content: content.to_vec() }
}

fn dir(name: &str, children: Vec<TreeNode>) -> TreeNode {
    TreeNode::Dir { name: cv(name), children }
}

fn lookup<'a>(entries: &'a [(Vec<char>, Vec<u8>)], path: &str) -> Option<&'a [u8]> {
    let want = cv(path);
    for e in entries {
        if e.0 == want {
            return Some(&e.1);
        }
    }
    None
}

#[test]
fn single_file_round_trip() {
    let data: Vec<u8> = b"hello".to_vec();
    let packed = compress_data(&data);
    assert!(!packed.is_empty());
    let restored = decompress_data(&packed).unwrap();
    assert_eq!(restored, data);
}

#[test]
fn single_file_round_trip_empty_and_binary() {
    for data in [Vec::new(), vec![0u8, 255, 1, 2, 3, 0], vec![7u8; 100_000]] {
        let packed = compress_data(&data);
        let restored = decompress_data(&packed).unwrap();
        assert_eq!(restored, data);
    }
}

#[test]
fn decompress_refuses_empty_input() {
    assert!(decompress_data(&Vec::new()).is_err());
}

#[test]
fn tree_round_trip() {
    let root = dir(
        "root",
        vec![file("a.txt", b"hi"), dir("sub", vec![file("b.txt", b"bye")])],
    );
    let bytes = pack_container(&vec![root]).unwrap();
    let entries = unpack_container(&bytes).unwrap();
    assert_eq!(entries.len(), 2);
    assert_eq!(lookup(&entries, "a.txt"), Some(&b"hi"[..]));
    assert_eq!(lookup(&entries, "sub/b.txt"), Some(&b"bye"[..]));
}

#[test]
fn tree_round_trip_deep_and_empty_file() {
    let root = dir(
        "top",
        vec![
            dir("x", vec![dir("y", vec![file("deep.bin", &[0u8, 1, 2])])]),
            file("empty", b""),
        ],
    );
    let bytes = pack_container(&vec![root]).unwrap();
    let entries = unpack_container(&bytes).unwrap();
    assert_eq!(entries.len(), 2);
    assert_eq!(lookup(&entries, "x/y/deep.bin"), Some(&[0u8, 1, 2][..]));
    assert_eq!(lookup(&entries, "empty"), Some(&b""[..]));
}

#[test]
fn archive_paths_never_collide() {
    let root = dir(
        "root",
        vec![
            file("a.txt", b"one"),
            dir("a", vec![file("txt", b"two")]),
            dir("b", vec![file("a.txt", b"three")]),
        ],
    );
    let bytes = pack_container(&vec![root]).unwrap();
    let entries = unpack_container(&bytes).unwrap();
    assert_eq!(entries.len(), 3);
    for i in 0..entries.len() {
        for j in (i + 1)..entries.len() {
            assert_ne!(entries[i].0, entries[j].0);
        }
    }
}

#[test]
fn file_root_is_stored_bare() {
    let bytes = pack_container(&vec![file("notes.txt", b"hi")]).unwrap();
    let entries = unpack_container(&bytes).unwrap();
    assert_eq!(entries.len(), 1);
    assert_eq!(lookup(&entries, "notes.txt"), Some(&b"hi"[..]));
}

#[test]
fn several_roots_share_one_container() {
    let roots = vec![
        dir("one", vec![file("a.txt", b"1")]),
        dir("two", vec![file("b.txt", b"2")]),
        file("loose.txt", b"3"),
    ];
    let bytes = pack_container(&roots).unwrap();
    let entries = unpack_container(&bytes).unwrap();
    assert_eq!(entries.len(), 3);
    assert_eq!(lookup(&entries, "a.txt"), Some(&b"1"[..]));
    assert_eq!(lookup(&entries, "b.txt"), Some(&b"2"[..]));
    assert_eq!(lookup(&entries, "loose.txt"), Some(&b"3"[..]));
}

#[test]
fn colliding_roots_are_refused() {
    let roots = vec![file("x", b"one"), file("x", b"two")];
    assert_eq!(pack_container(&roots), Err(StoreError::InvalidInput));
}

#[test]
fn empty_directory_packs_to_empty_container() {
    let bytes = pack_container(&vec![dir("root", vec![])]).unwrap();
    let entries = unpack_container(&bytes).unwrap();
    assert!(entries.is_empty());
}

#[test]
fn corrupt_container_is_refused() {
    assert_eq!(
        unpack_container(&vec![0u8, 1, 2, 3]),
        Err(StoreError::CorruptContainer)
    );
}

#[test]
fn fetching_an_unknown_entry_reports_not_found() {
    let bytes = pack_container(&vec![file("a.txt", b"hi")]).unwrap();
    let mut reader = quickstore::archive::reader_open(&bytes).unwrap();
    assert_eq!(
        quickstore::archive::reader_fetch(&mut reader, &cv("nope")),
        Err(StoreError::EntryNotFound)
    );
    assert_eq!(
        quickstore::archive::reader_fetch(&mut reader, &cv("a.txt")),
        Ok(b"hi".to_vec())
    );
}

#[test]
fn compress_twice_needs_force() {
    // the second run's overwrite decision: the destination now exists
    let data = b"hello".to_vec();
    let first = compress_data(&data);
    assert_eq!(
        quickstore::policy::check_overwrite(true, false),
        Err(StoreError::AlreadyExists)
    );
    // with force the rewrite goes ahead and reflects the latest input
    assert_eq!(quickstore::policy::check_overwrite(true, true), Ok(()));
    let second = compress_data(&b"hello again".to_vec());
    assert_eq!(decompress_data(&second).unwrap(), b"hello again".to_vec());
    assert_eq!(decompress_data(&first).unwrap(), b"hello".to_vec());
}
