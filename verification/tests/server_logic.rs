//! Server-side logic: path confinement, dispatch, the chunk schedule,
//! positional reads, and the file-handle cache.

use fftp::server::{
    dispatch, is_confined, plan_chunks, read_range, Action, HandleCache,
};
use fftp::Request;

#[test]
fn confinement_accepts_root_and_children() {
    let root = b"/srv".to_vec();
    assert!(is_confined(&root, &b"/srv".to_vec()));
    assert!(is_confined(&root, &b"/srv/a.txt".to_vec()));
    assert!(is_confined(&root, &b"/srv/sub/dir/x".to_vec()));
}

#[test]
fn confinement_rejects_escapes() {
    let root = b"/srv".to_vec();
    assert!(!is_confined(&root, &b"/etc/passwd".to_vec()));
    assert!(!is_confined(&root, &b"/".to_vec()));
    // A sibling whose name merely extends the root is outside it.
    assert!(!is_confined(&root, &b"/srv2/a".to_vec()));
    assert!(!is_confined(&root, &b"/srvx".to_vec()));
}

#[test]
fn traversal_is_denied() {
    // Root /tmp/ff-root, request path "../etc/passwd": the canonical
    // resolution the filesystem would hand back is /etc/passwd, which
    // escapes the root, so the reply is NotAllowed.
    let root = b"/tmp/ff-root".to_vec();
    let req = Request::Download { path: b"../etc/passwd".to_vec() };
    let canon = Some(b"/etc/passwd".to_vec());
    let action = dispatch(&req, canon, &root);
    assert!(matches!(action, Action::Deny));
}

#[test]
fn symlink_escape_is_denied() {
    // Root /srv, symlink /srv/link -> /etc/passwd: canonicalization
    // resolves the symlink, so the path it hands back escapes the root.
    let root = b"/srv".to_vec();
    let req = Request::Download { path: b"link".to_vec() };
    let canon = Some(b"/etc/passwd".to_vec());
    assert!(matches!(dispatch(&req, canon, &root), Action::Deny));
}

#[test]
fn missing_file_is_denied() {
    // Canonicalization fails on a missing file; the dispatcher denies
    // without touching the filesystem.
    let root = b"/srv".to_vec();
    let req = Request::Download { path: b"nope.txt".to_vec() };
    assert!(matches!(dispatch(&req, None, &root), Action::Deny));
}

#[test]
fn dispatch_by_variant() {
    let root = b"/srv".to_vec();
    let canon = b"/srv/a.txt".to_vec();
    let list = Request::List { path: b"a.txt".to_vec() };
    match dispatch(&list, Some(canon.clone()), &root) {
        Action::ListDir { path } => assert_eq!(path, canon),
        other => panic!("expected ListDir, got another action: {:?}", matches!(other, Action::Deny)),
    }
    let dl = Request::Download { path: b"a.txt".to_vec() };
    match dispatch(&dl, Some(canon.clone()), &root) {
        Action::StreamFile { path } => assert_eq!(path, canon),
        _ => panic!("expected StreamFile"),
    }
    let part = Request::DownloadPart { path: b"a.txt".to_vec(), start_byte: 3, len: 9 };
    match dispatch(&part, Some(canon.clone()), &root) {
        Action::ReadPart { path, start_byte, len } => {
            assert_eq!(path, canon);
            assert_eq!(start_byte, 3);
            assert_eq!(len, 9);
        },
        _ => panic!("expected ReadPart"),
    }
}

#[test]
fn chunk_schedule_exact() {
    // A 10-byte file at chunk size 4: ceil(10/4) = 3 data parts and the
    // terminal empty part.
    assert_eq!(plan_chunks(10, 4), vec![(0, 4), (4, 4), (8, 2), (10, 0)]);
    // An exact multiple still ends with the empty terminal part.
    assert_eq!(plan_chunks(8, 4), vec![(0, 4), (4, 4), (8, 0)]);
    // An empty file yields only the terminal part.
    assert_eq!(plan_chunks(0, 4096), vec![(0, 0)]);
    // A file smaller than one chunk.
    assert_eq!(plan_chunks(5, 4096), vec![(0, 5), (5, 0)]);
}

#[test]
fn chunk_starts_step_by_chunk_size() {
    let n: u32 = 1_000_000;
    let c: u32 = 4096;
    let plan = plan_chunks(n, c);
    let data_parts = plan.len() - 1;
    assert_eq!(data_parts as u32, n.div_ceil(c));
    let mut expected_start: u32 = 0;
    for (start, len) in &plan[..data_parts] {
        assert_eq!(*start, expected_start);
        expected_start += len;
    }
    assert_eq!(plan[data_parts], (n, 0));
    assert_eq!(expected_start, n);
}

#[test]
fn partial_range_exact() {
    // A 10000-byte file; the range [1234, 1734) comes back exactly.
    let content: Vec<u8> = (0..10_000u32).map(|i| (i % 251) as u8).collect();
    let data = read_range(&content, 1234, 500).unwrap();
    assert_eq!(data.len(), 500);
    assert_eq!(&data[..], &content[1234..1734]);
}

#[test]
fn out_of_range_read_fails() {
    let content = b"hello".to_vec();
    assert!(read_range(&content, 3, 3).is_none());
    assert!(read_range(&content, 6, 0).is_none());
    assert_eq!(read_range(&content, 5, 0).unwrap(), Vec::<u8>::new());
}

#[test]
fn download_part_idempotent() {
    // The same range request twice yields byte-identical data.
    let content: Vec<u8> = (0..10_000u32).map(|i| (i % 253) as u8).collect();
    let first = read_range(&content, 1234, 500).unwrap();
    let second = read_range(&content, 1234, 500).unwrap();
    assert_eq!(first, second);
}

#[test]
fn handle_cache_reuses_slots() {
    let mut cache = HandleCache::new();
    let (slot_a, fresh_a) = cache.get_or_insert(b"/srv/a".to_vec());
    assert!(fresh_a);
    assert_eq!(slot_a, 0);
    let (slot_b, fresh_b) = cache.get_or_insert(b"/srv/b".to_vec());
    assert!(fresh_b);
    assert_eq!(slot_b, 1);
    let (again, fresh_again) = cache.get_or_insert(b"/srv/a".to_vec());
    assert!(!fresh_again);
    assert_eq!(again, 0);
    assert_eq!(cache.find(&b"/srv/b".to_vec()), Some(1));
    assert_eq!(cache.find(&b"/srv/c".to_vec()), None);
}
