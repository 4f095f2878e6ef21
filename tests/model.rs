use pb_filesystem::cast::CastFrom;
use pb_filesystem::darwin::{dirent, rlimit, stat, DarwinFileStream, DarwinHandle, DarwinPath, DarwinPlatform, O_APPEND, O_CREAT, O_DIRECTORY, O_EXCL, O_RDWR, O_TRUNC};
use pb_filesystem::error::{check_result, Error};
use pb_filesystem::filesystem::{Block, PermitEvent, PermitLedger};
use pb_filesystem::handle::{drop_action, file_kind_of, read_block_size, DirectoryDetails, DropAction, FileDetails};
use pb_filesystem::id_gen::{BuildTargetId, FileId, Gen};
use pb_filesystem::interner::{intern, interned_count, lookup_key, new_interner, resolve};
use pb_filesystem::path::{PbFilename, PbPath};
use pb_filesystem::platform::{OpenOptions, Platform, PlatformPath, TodoPlatform, APPEND, CREATE, DIRECTORY, EXCLUSIVE, READ_ONLY, READ_WRITE, TRUNCATE};
use pb_filesystem::trie::{InternedPath, TrieError, TrieMap, TrieNode};
use pb_filesystem::tree::{classify_entry, edge_of, join_path, put_child, EntryAction};
use pb_filesystem::types::{DirectoryEntry, FileMetadata, FileStat, FileType, Timespec, Xxh128Hash, Xxh64Hash};

fn sample_stat(kind: FileType) -> FileStat {
    FileStat {
        size: 3,
        kind,
        inode: 9,
        mode: 0o100644,
        user: 1,
        group: 2,
        mtime: Timespec { secs: 5, nanos: 6 },
        ctime: Timespec { secs: 7, nanos: 8 },
        optimal_blocksize: None,
    }
}

#[test]
fn errno_mapping() {
    assert_eq!(Error::from_darwin_sys(1), Error::PermissionDenied);
    assert_eq!(Error::from_darwin_sys(2), Error::NotFound);
    assert_eq!(Error::from_darwin_sys(3), Error::NoProcess);
    assert_eq!(Error::from_darwin_sys(34), Error::Unknown(34));
    assert!(Error::from_darwin_sys(34).is_result_too_large());
    assert!(!Error::NotFound.is_result_too_large());
}

#[test]
fn check_result_maps_failures() {
    assert_eq!(check_result(5, Some(2)), Ok(5));
    assert_eq!(check_result(-1, Some(2)), Err(Error::NotFound));
    assert_eq!(check_result(-1, None), Err(Error::Unknown(-1)));
}

#[test]
fn open_flags_follow_options() {
    assert_eq!(DarwinPlatform::open_flags(OpenOptions::from_bits(READ_ONLY)), (0, 0));
    assert_eq!(DarwinPlatform::open_flags(OpenOptions::from_bits(READ_WRITE)), (O_RDWR, 0));
    assert_eq!(DarwinPlatform::open_flags(OpenOptions::directory()), (O_DIRECTORY, 0));
    assert_eq!(DarwinPlatform::open_flags(OpenOptions::from_bits(CREATE)), (O_CREAT | O_RDWR, 0o666));
    assert_eq!(DarwinPlatform::open_flags(OpenOptions::from_bits(TRUNCATE)), (O_TRUNC | O_RDWR, 0));
    assert_eq!(O_CREAT | O_RDWR, 0x202);
    assert_eq!(DarwinPlatform::open_flags(OpenOptions::from_bits(APPEND)), (O_APPEND | O_RDWR, 0));
    assert_eq!(
        DarwinPlatform::open_flags(OpenOptions::from_bits(READ_ONLY | CREATE | EXCLUSIVE | TRUNCATE | APPEND)),
        (O_RDWR | O_CREAT | O_EXCL | O_TRUNC | O_APPEND, 0o666)
    );
    assert_eq!(DarwinPlatform::open_flags(OpenOptions::from_bits(READ_WRITE | DIRECTORY)), (O_RDWR | O_DIRECTORY, 0));
}

#[test]
fn options_builders_set_bits() {
    let d = FileDetails::new().with_create().with_exclusive().with_truncate().with_append();
    assert_eq!(d.flags.bits, READ_ONLY | CREATE | EXCLUSIVE | TRUNCATE | APPEND);
    assert!(d.flags.contains(CREATE));
    assert!(!d.flags.contains(DIRECTORY));
    assert!(!DirectoryDetails::new().create);
    assert!(DirectoryDetails::new().with_create().create);
}

#[test]
fn raw_stat_conversion() {
    let mut raw = stat::default();
    raw.st_size = 42;
    raw.st_mode = 0x4000 | 0o755;
    raw.st_ino = 77;
    raw.st_blksize = 512;
    raw.st_mtime = 10;
    raw.st_mtime_nsec = 11;
    let st = DarwinPlatform::file_stat(&raw).unwrap();
    assert_eq!(st.size, 42);
    assert_eq!(st.kind, FileType::Directory);
    assert_eq!(st.inode, 77);
    assert_eq!(st.mode, 0x4000 | 0o755);
    assert_eq!(st.optimal_blocksize, Some(512));
    assert_eq!(st.mtime, Timespec { secs: 10, nanos: 11 });
    raw.st_mode = 0xA000;
    raw.st_blksize = -1;
    let st = DarwinPlatform::file_stat(&raw).unwrap();
    assert_eq!(st.kind, FileType::Symlink);
    assert_eq!(st.optimal_blocksize, None);
    raw.st_mode = 0x1000;
    assert_eq!(DarwinPlatform::file_stat(&raw).unwrap().kind, FileType::File);
    raw.st_size = -3;
    assert!(matches!(DarwinPlatform::file_stat(&raw), Err(Error::InvalidData(_))));
}

fn raw_entry(name: &[u8], d_type: u8) -> dirent {
    let mut d_name = [0u8; 1024];
    d_name[..name.len()].copy_from_slice(name);
    dirent { d_ino: 5, d_seekoff: 0, d_reclen: 0, d_namlen: name.len() as u16, d_type, d_name }
}

#[test]
fn raw_dirent_conversion() {
    let e = DarwinPlatform::directory_entry(&raw_entry("héllo".as_bytes(), 4)).unwrap();
    assert_eq!(e, DirectoryEntry { inode: 5, name: "héllo".to_string(), kind: FileType::Directory });
    assert_eq!(DarwinPlatform::directory_entry(&raw_entry(b"l", 10)).unwrap().kind, FileType::Symlink);
    assert_eq!(DarwinPlatform::directory_entry(&raw_entry(b"f", 8)).unwrap().kind, FileType::File);
    assert_eq!(DarwinPlatform::directory_entry(&raw_entry(b"u", 0)).unwrap().kind, FileType::File);
    assert!(matches!(DarwinPlatform::directory_entry(&raw_entry(&[0xff, 0xfe], 8)), Err(Error::InvalidData(_))));
    let mut long = raw_entry(b"x", 8);
    long.d_namlen = 2000;
    assert!(matches!(DarwinPlatform::directory_entry(&long), Err(Error::InvalidData(_))));
}

#[test]
fn darwin_handles_round_trip() {
    assert_eq!(DarwinHandle::from_raw(7).into_raw(), 7);
    assert_eq!(DarwinFileStream::from_raw(-3).into_raw(), -3);
    assert_eq!(DarwinPlatform::handle_max_from_limits(&rlimit { rlim_cur: 256, rlim_max: 1024 }), 256);
    let p = DarwinPath::try_new("/tmp/x".to_string()).unwrap();
    assert_eq!(p.into_inner(), "/tmp/x");
}

#[test]
fn todo_platform_fails_every_call() {
    assert_eq!(TodoPlatform::open("/x".to_string(), OpenOptions::read_only()), Err(Error::Unknown(78)));
    assert!(TodoPlatform::stat("/x".to_string()).is_err());
    assert!(TodoPlatform::file_handle_max().is_err());
    let mut buf = [0u8; 4];
    assert!(TodoPlatform::read(1, &mut buf, 0).is_err());
}

#[test]
fn timespec_from_millis() {
    assert_eq!(Timespec::from_epoch_millis(1_234), Timespec { secs: 1, nanos: 234_000_000 });
    assert_eq!(Timespec::from_epoch_millis(0), Timespec { secs: 0, nanos: 0 });
    assert_eq!(Timespec::from_epoch_millis(999), Timespec { secs: 0, nanos: 999_000_000 });
}

#[test]
fn hashes_and_metadata() {
    assert_eq!(Xxh64Hash::new(5), Xxh64Hash(5));
    assert_eq!(Xxh128Hash::new(6), Xxh128Hash(6));
    let st = sample_stat(FileType::File);
    let m = FileMetadata::from_stat(&st, Xxh64Hash::new(1));
    assert_eq!(m.size, 3);
    assert_eq!(m.inode, 9);
    assert_eq!(m.mtime, Timespec { secs: 5, nanos: 6 });
    assert_eq!(m.fingerprint, Xxh64Hash(1));
}

#[test]
fn casts_keep_values() {
    assert_eq!(u32::cast_from(65535u16), 65535u32);
    assert_eq!(u64::cast_from(u32::MAX), u32::MAX as u64);
    assert_eq!(i64::cast_from(-5i32), -5i64);
    assert_eq!(usize::cast_from(300u16), 300usize);
}

#[test]
fn id_generator_counts_up() {
    let mut g: Gen<FileId> = Gen::from_start(7);
    assert_eq!(g.next(), FileId(7));
    assert_eq!(g.next(), FileId(8));
    assert_eq!(g.peek(), 9);
    let mut t: Gen<BuildTargetId> = Gen::from_start(0);
    assert_eq!(t.next(), BuildTargetId(0));
}

#[test]
fn paths_are_nfc() {
    assert_eq!(PbPath::new("a/b".to_string()).unwrap().inner, "a/b");
    assert_eq!(PbFilename::new("b".to_string()).unwrap().inner, "b");
    assert_eq!(PbPath::new("cafe\u{301}/x".to_string()).unwrap().inner, "caf\u{e9}/x");
    assert_eq!(PbFilename::new("A\u{30a}".to_string()).unwrap().inner, "\u{c5}");
    assert_eq!(PbPath::new(String::new()).unwrap().inner, "");
}

#[test]
fn block_size_for_reads() {
    assert_eq!(read_block_size(None), 32768);
    assert_eq!(read_block_size(Some(512)), 4096);
    assert_eq!(read_block_size(Some(usize::MAX)), usize::MAX);
}

#[test]
fn file_kind_checks() {
    assert_eq!(file_kind_of(&sample_stat(FileType::File)).unwrap().optimal_blocksize, None);
    assert!(matches!(file_kind_of(&sample_stat(FileType::Directory)), Err(Error::NotAFile(_))));
    assert!(matches!(file_kind_of(&sample_stat(FileType::Symlink)), Err(Error::NotAFile(_))));
}

#[test]
fn dropped_handles_are_queued() {
    assert_eq!(drop_action(true, true), DropAction::Enqueue);
    assert_eq!(drop_action(false, false), DropAction::Nothing);
}

#[test]
fn ledger_conserves_permits() {
    let mut l = PermitLedger::new(3);
    let events = [
        PermitEvent::Acquire,
        PermitEvent::Acquire,
        PermitEvent::Acquire,
        PermitEvent::Acquire,
        PermitEvent::Close,
        PermitEvent::Abandon,
        PermitEvent::OpenFailed,
        PermitEvent::Drain,
        PermitEvent::Drain,
        PermitEvent::Close,
    ];
    let accepted: Vec<bool> = events.iter().map(|e| l.record(*e)).collect();
    assert_eq!(accepted, vec![true, true, true, false, true, true, true, true, false, false]);
    assert_eq!(l.available_permits(), 3);
    assert_eq!(l, PermitLedger { capacity: 3, available: 3, open: 0, queued: 0 });
}

#[test]
fn block_is_zeroed() {
    let mut b = Block::new(5);
    assert_eq!(b.as_ref(), &[0u8; 5][..]);
    b.as_mut()[2] = 9;
    assert_eq!(b.as_ref()[2], 9);
    b.clear();
    assert_eq!(b.size(), 5);
    assert_eq!(b.as_ref(), &[0u8; 5][..]);
}

#[test]
fn trie_insert_and_get() {
    let mut t: TrieMap<(), u32> = TrieMap::new();
    assert_eq!(t.insert_leaf(&InternedPath(vec![]), 1).unwrap_err(), TrieError::EmptyKey);
    assert!(t.insert_leaf(&InternedPath(vec![1, 2, 3]), 10).unwrap().is_none());
    assert!(t.insert_leaf(&InternedPath(vec![1, 5]), 20).unwrap().is_none());
    assert_eq!(t.leaf_count(), 2);
    assert_eq!(t.get_leaf(&InternedPath(vec![1, 2, 3])), Some(&10));
    assert_eq!(t.get_leaf(&InternedPath(vec![1, 2])), None);
    assert_eq!(t.get(&InternedPath(vec![1])).unwrap().leaf_count(), 2);
    assert!(t.get(&InternedPath(vec![9])).is_none());
    assert_eq!(t.insert_leaf(&InternedPath(vec![1, 5, 7]), 30).unwrap_err(), TrieError::NonEdgeInPath);
    let prev = t.insert_leaf(&InternedPath(vec![1, 5]), 21).unwrap();
    assert!(matches!(prev, Some(TrieNode::Leaf { data: 20 })));
    assert_eq!(t.leaf_count(), 2);
    assert_eq!(t.insert(&InternedPath(vec![4, 4]), 5).unwrap_err(), TrieError::NonEdgeInPath);
    assert!(t.insert(&InternedPath(vec![1, 2, 4]), 11).unwrap().is_none());
    assert_eq!(t.leaf_count(), 3);
    let prev = t.insert_leaf(&InternedPath(vec![1, 2]), 0).unwrap();
    assert_eq!(prev.unwrap().leaf_count(), 2);
    assert_eq!(t.leaf_count(), 2);
    let r: TrieMap<u8, u8> = TrieMap::new_with_root(3);
    assert!(matches!(r.root(), TrieNode::Edge { data: 3, count: 0, .. }));
    let f: TrieMap<(), u8> = TrieMap::from_node(TrieNode::Leaf { data: 1 });
    assert!(f.root().is_leaf());
}

#[test]
fn children_stay_ordered() {
    let mut c: Vec<(usize, TrieNode<(), u8>)> = Vec::new();
    put_child(&mut c, 5, TrieNode::Leaf { data: 1 });
    put_child(&mut c, 2, TrieNode::Leaf { data: 2 });
    put_child(&mut c, 9, TrieNode::Leaf { data: 3 });
    put_child(&mut c, 5, TrieNode::Leaf { data: 4 });
    let keys: Vec<usize> = c.iter().map(|(k, _)| *k).collect();
    assert_eq!(keys, vec![2, 5, 9]);
    assert!(matches!(c[1].1, TrieNode::Leaf { data: 4 }));
    let e = edge_of(c).unwrap();
    assert_eq!(e.leaf_count(), 3);
}

#[test]
fn entries_are_classified() {
    let dir = "/d".to_string();
    let e = |name: &str, kind| DirectoryEntry { inode: 1, name: name.to_string(), kind };
    assert_eq!(classify_entry(&dir, &e(".", FileType::Directory), None), EntryAction::Skip);
    assert_eq!(classify_entry(&dir, &e("..", FileType::Directory), None), EntryAction::Skip);
    assert_eq!(classify_entry(&dir, &e("l", FileType::Symlink), None), EntryAction::Skip);
    assert_eq!(classify_entry(&dir, &e("f", FileType::File), None), EntryAction::File("/d/f".to_string()));
    assert_eq!(classify_entry(&dir, &e("s", FileType::Directory), None), EntryAction::Directory("/d/s".to_string()));
    let set = pb_filesystem::ignore::IgnoreSet::new(&vec!["*.log".to_string()]).unwrap();
    assert_eq!(classify_entry(&dir, &e("x.log", FileType::File), Some(&set)), EntryAction::Skip);
    assert_eq!(join_path(&"a".to_string(), &"b".to_string()), "a/b");
}

#[test]
fn interner_keys_names() {
    let mut r = new_interner();
    assert_eq!(interned_count(&r), 0);
    let a = intern(&mut r, "a");
    let b = intern(&mut r, "b");
    assert_eq!((a, b), (0, 1));
    assert_eq!(intern(&mut r, "a"), 0);
    assert_eq!(interned_count(&r), 2);
    assert_eq!(resolve(&r, 1), "b");
    assert_eq!(lookup_key(&r, "b"), Some(1));
    assert_eq!(lookup_key(&r, "c"), None);
}

#[test]
fn default_dirent_is_empty() {
    let d = dirent::default();
    assert_eq!(d.d_namlen, 0);
    assert!(d.d_name.iter().all(|b| *b == 0));
    assert_eq!(DarwinPlatform::directory_entry(&d).unwrap().name, "");
}

#[test]
fn children_do_not_depend_on_visit_order() {
    let items = [(7usize, 1u8), (3, 2), (11, 3), (5, 4)];
    let mut a: Vec<(usize, TrieNode<(), u8>)> = Vec::new();
    for (k, v) in items.iter() {
        put_child(&mut a, *k, TrieNode::Leaf { data: *v });
    }
    let mut b: Vec<(usize, TrieNode<(), u8>)> = Vec::new();
    for (k, v) in items.iter().rev() {
        put_child(&mut b, *k, TrieNode::Leaf { data: *v });
    }
    let flat = |c: &Vec<(usize, TrieNode<(), u8>)>| -> Vec<(usize, u8)> {
        c.iter()
            .map(|(k, n)| match n {
                TrieNode::Leaf { data } => (*k, *data),
                TrieNode::Edge { .. } => (*k, 0),
            })
            .collect()
    };
    assert_eq!(flat(&a), flat(&b));
    assert_eq!(flat(&a), vec![(3, 2), (5, 4), (7, 1), (11, 3)]);
}

#[test]
fn pretty_lists_parents_first() {
    let mut t: TrieMap<(), u8> = TrieMap::new();
    t.insert_leaf(&InternedPath(vec![2, 1]), 1).unwrap();
    t.insert_leaf(&InternedPath(vec![1]), 2).unwrap();
    t.insert_leaf(&InternedPath(vec![2, 0]), 3).unwrap();
    let lines: Vec<(usize, usize, bool)> = t.pretty().iter().map(|n| (n.depth, n.name, n.leaf)).collect();
    assert_eq!(lines, vec![(0, 1, true), (0, 2, false), (1, 0, true), (1, 1, true)]);
}

#[test]
fn walk_on_unsupported_platform_fails() {
    let r = pb_filesystem::tree::TreeBuilder::new("/x".to_string()).build::<TodoPlatform>(&mut PermitLedger::new(8));
    assert_eq!(r.unwrap_err(), Error::Unknown(78));
    let mut ledger = PermitLedger::new(1);
    let r = pb_filesystem::handle::open_file::<TodoPlatform>(
        &mut ledger,
        pb_filesystem::handle::HandleLocation::Path("/x".to_string()),
        FileDetails::new(),
    );
    assert!(r.is_err());
    assert_eq!(ledger.available_permits(), 1);
}

#[test]
fn read_step_outcomes() {
    assert_eq!(pb_filesystem::handle::read_step(10, 4, Ok(4)), (14, false, Ok(4)));
    assert_eq!(pb_filesystem::handle::read_step(10, 4, Ok(3)), (13, true, Ok(3)));
    assert_eq!(pb_filesystem::handle::read_step(10, 4, Ok(0)), (10, true, Ok(0)));
    assert_eq!(pb_filesystem::handle::read_step(10, 0, Ok(0)), (10, true, Ok(0)));
    assert_eq!(pb_filesystem::handle::read_step(10, 4, Err(Error::NotFound)), (10, true, Err(Error::NotFound)));
    let (off, done, out) = pb_filesystem::handle::read_step(usize::MAX, 4, Ok(1));
    assert_eq!((off, done), (usize::MAX, true));
    assert!(matches!(out, Err(Error::InvalidData(_))));
}

#[test]
fn chunks_are_appended() {
    let mut out = vec![1u8];
    pb_filesystem::handle::append_chunk(&mut out, &[5, 6, 7], 2);
    assert_eq!(out, vec![1, 5, 6]);
}

#[test]
fn limits_clamp_to_usize() {
    assert_eq!(DarwinPlatform::handle_max_from_limits(&rlimit { rlim_cur: u64::MAX, rlim_max: u64::MAX }), u64::MAX as usize);
}

#[test]
fn created_edges_hold_default_data() {
    let mut t: TrieMap<u8, u8> = TrieMap::new_with_root(9);
    t.insert_leaf(&InternedPath(vec![1, 2, 3]), 7).unwrap();
    assert!(matches!(t.get(&InternedPath(vec![1])), Some(TrieNode::Edge { data: 0, .. })));
    assert!(matches!(t.get(&InternedPath(vec![1, 2])), Some(TrieNode::Edge { data: 0, .. })));
    assert!(matches!(t.root(), TrieNode::Edge { data: 9, .. }));
}

#[test]
fn children_assembled_from_listing() {
    let e = |name: &str, kind| DirectoryEntry { inode: 1, name: name.to_string(), kind };
    let entries = vec![e("b", FileType::File), e(".", FileType::Directory), e("a", FileType::File), e("c", FileType::Directory)];
    let results: Vec<Option<TrieNode<(), u8>>> = vec![
        Some(TrieNode::Leaf { data: 1 }),
        None,
        Some(TrieNode::Leaf { data: 2 }),
        Some(TrieNode::Edge { children: vec![], data: (), count: 0 }),
    ];
    let mut names = new_interner();
    let c = pb_filesystem::tree::assemble_children(&"/d".to_string(), &entries, results, None, &mut names).unwrap();
    let shown: Vec<(String, bool)> = c.iter().map(|(k, n)| (resolve(&names, *k), n.is_leaf())).collect();
    assert_eq!(shown, vec![("b".to_string(), true), ("a".to_string(), true), ("c".to_string(), false)]);
    assert_eq!(c.iter().map(|(k, _)| *k).collect::<Vec<_>>(), vec![0, 1, 2]);
}
