use std::cell::RefCell;
use std::collections::BTreeMap;
use std::sync::{Mutex, OnceLock};

use pb_filesystem::filesystem::{Block, BlockPool, PermitLedger};
use pb_filesystem::handle::{
    close_dropped, close_handle, open_directory, open_unknown, UnknownDetails, open_file, read_to_end, DirectoryDetails, FileDetails,
    HandleLocation, ReadIterator,
};
use pb_filesystem::ignore::IgnoreSet;
use pb_filesystem::platform::{OpenOptions, Platform, CREATE, DIRECTORY};
use pb_filesystem::scratch::{open_repository_directory, open_scratch_directory, persistat, scratch_directory, scratch_file, tag_comment, tag_ruleset};
use pb_filesystem::trie::TrieNode;
use pb_filesystem::tree::{FileWork, TreeBuilder, TreeFileMetadata};
use pb_filesystem::types::{DirectoryEntry, FileStat, FileType, Timespec};
use pb_filesystem::Error;

#[derive(Clone)]
enum Node {
    File { data: Vec<u8>, inode: u64 },
    Dir { inode: u64 },
}

#[derive(Default)]
struct MemFs {
    failing_stat: Option<String>,
    nodes: BTreeMap<String, Node>,
    handles: BTreeMap<u64, String>,
    xattrs: BTreeMap<(String, String), Vec<u8>>,
    next_handle: u64,
    next_inode: u64,
}

static STATE: OnceLock<Mutex<MemFs>> = OnceLock::new();

struct Fs;

impl Fs {
    fn with<R>(&self, f: impl FnOnce(&RefCell<MemFs>) -> R) -> R {
        let lock = STATE.get_or_init(|| Mutex::new(MemFs::default()));
        let mut guard = lock.lock().unwrap_or_else(|e| e.into_inner());
        let cell = RefCell::new(std::mem::take(&mut *guard));
        let r = f(&cell);
        *guard = cell.into_inner();
        r
    }
}

const FS: Fs = Fs;

struct FailStat;

impl FailStat {
    /// Makes every stat of `path` fail.
    fn with_path(&self, path: &str) {
        FS.with(|fs| fs.borrow_mut().failing_stat = Some(path.to_string()));
    }
}

const FAIL_STAT: FailStat = FailStat;

static SERIAL: Mutex<()> = Mutex::new(());

/// Starts a test on an empty filesystem; tests share it, so they run one at a time.
fn reset() -> std::sync::MutexGuard<'static, ()> {
    let guard = SERIAL.lock().unwrap_or_else(|e| e.into_inner());
    FS.with(|fs| *fs.borrow_mut() = MemFs::default());
    mkdir_path("/root");
    guard
}

fn mkdir_path(path: &str) {
    FS.with(|fs| {
        let mut fs = fs.borrow_mut();
        fs.next_inode += 1;
        let inode = fs.next_inode;
        fs.nodes.insert(path.to_string(), Node::Dir { inode });
    });
}

fn put_file(path: &str, data: &[u8]) {
    FS.with(|fs| {
        let mut fs = fs.borrow_mut();
        fs.next_inode += 1;
        let inode = fs.next_inode;
        fs.nodes.insert(path.to_string(), Node::File { data: data.to_vec(), inode });
    });
}

fn present(path: &str) -> bool {
    FS.with(|fs| fs.borrow().nodes.contains_key(path))
}

fn stat_of(node: &Node) -> FileStat {
    let (size, kind, inode) = match node {
        Node::File { data, inode } => (data.len() as u64, FileType::File, *inode),
        Node::Dir { inode } => (0, FileType::Directory, *inode),
    };
    FileStat {
        size,
        kind,
        inode,
        mode: 0o644,
        user: 501,
        group: 20,
        mtime: Timespec { secs: 1, nanos: 0 },
        ctime: Timespec { secs: 1, nanos: 0 },
        optimal_blocksize: Some(4),
    }
}

fn path_of(h: u64) -> Result<String, Error> {
    FS.with(|fs| fs.borrow().handles.get(&h).cloned().ok_or(Error::Unknown(9)))
}

struct MemPlatform;

impl MemPlatform {
    fn open_path(path: String, options: OpenOptions) -> Result<u64, Error> {
        FS.with(|fs| {
            let mut fs = fs.borrow_mut();
            match fs.nodes.get(&path) {
                None if options.contains(CREATE) && !options.contains(DIRECTORY) => {
                    fs.next_inode += 1;
                    let inode = fs.next_inode;
                    fs.nodes.insert(path.clone(), Node::File { data: Vec::new(), inode });
                }
                None => return Err(Error::NotFound),
                Some(Node::File { .. }) if options.contains(DIRECTORY) => {
                    return Err(Error::Unknown(20))
                }
                Some(_) => {}
            }
            fs.next_handle += 1;
            let h = fs.next_handle;
            fs.handles.insert(h, path);
            Ok(h)
        })
    }
}

impl Platform for MemPlatform {
    type Path = String;
    type Filename = String;
    type Handle = u64;

    fn supported() -> bool {
        true
    }

    fn open(path: String, options: OpenOptions) -> Result<u64, Error> {
        Self::open_path(path, options)
    }

    fn openat(handle: u64, filename: String, options: OpenOptions) -> Result<u64, Error> {
        let dir = path_of(handle)?;
        Self::open_path(format!("{dir}/{filename}"), options)
    }

    fn close(handle: u64) -> Result<(), Error> {
        FS.with(|fs| fs.borrow_mut().handles.remove(&handle).map(|_| ()).ok_or(Error::Unknown(9)))
    }

    fn mkdir(path: String) -> Result<(), Error> {
        mkdir_path(&path);
        Ok(())
    }

    fn mkdirat(handle: u64, filename: String) -> Result<(), Error> {
        let dir = path_of(handle)?;
        mkdir_path(&format!("{dir}/{filename}"));
        Ok(())
    }

    fn stat(path: String) -> Result<FileStat, Error> {
        FS.with(|fs| {
            let fs = fs.borrow();
            if fs.failing_stat.as_deref() == Some(path.as_str()) {
                return Err(Error::PermissionDenied);
            }
            fs.nodes.get(&path).map(stat_of).ok_or(Error::NotFound)
        })
    }

    fn fstat(handle: u64) -> Result<FileStat, Error> {
        Self::stat(path_of(handle)?)
    }

    fn fstatat(handle: u64, filename: String) -> Result<FileStat, Error> {
        let dir = path_of(handle)?;
        Self::stat(format!("{dir}/{filename}"))
    }

    fn fsync(handle: u64) -> Result<(), Error> {
        path_of(handle).map(|_| ())
    }

    fn listdir(handle: u64) -> Result<Vec<DirectoryEntry>, Error> {
        let dir = path_of(handle)?;
        let prefix = format!("{dir}/");
        FS.with(|fs| {
            let fs = fs.borrow();
            let mut out = vec![
                DirectoryEntry { inode: 0, name: ".".to_string(), kind: FileType::Directory },
                DirectoryEntry { inode: 0, name: "..".to_string(), kind: FileType::Directory },
            ];
            // Entries come back in reverse order, to show that order does not matter.
            for (path, node) in fs.nodes.iter().rev() {
                if let Some(name) = path.strip_prefix(&prefix) {
                    if !name.contains('/') {
                        let st = stat_of(node);
                        out.push(DirectoryEntry { inode: st.inode, name: name.to_string(), kind: st.kind });
                    }
                }
            }
            Ok(out)
        })
    }

    fn read(handle: u64, buf: &mut [u8], offset: usize) -> Result<usize, Error> {
        let path = path_of(handle)?;
        FS.with(|fs| match fs.borrow().nodes.get(&path) {
            Some(Node::File { data, .. }) => {
                let start = offset.min(data.len());
                let n = (data.len() - start).min(buf.len());
                buf[..n].copy_from_slice(&data[start..start + n]);
                Ok(n)
            }
            _ => Err(Error::Unknown(21)),
        })
    }

    fn write(handle: u64, data: &[u8], offset: usize) -> Result<usize, Error> {
        let path = path_of(handle)?;
        FS.with(|fs| match fs.borrow_mut().nodes.get_mut(&path) {
            Some(Node::File { data: contents, .. }) => {
                if contents.len() < offset + data.len() {
                    contents.resize(offset + data.len(), 0);
                }
                contents[offset..offset + data.len()].copy_from_slice(data);
                Ok(data.len())
            }
            _ => Err(Error::Unknown(21)),
        })
    }

    fn rename(from: String, to: String) -> Result<(), Error> {
        FS.with(|fs| {
            let mut fs = fs.borrow_mut();
            let node = fs.nodes.remove(&from).ok_or(Error::NotFound)?;
            fs.nodes.insert(to, node);
            Ok(())
        })
    }

    fn renameat(from_handle: u64, from_filename: String, to_handle: u64, to_filename: String) -> Result<(), Error> {
        let from = format!("{}/{from_filename}", path_of(from_handle)?);
        let to = format!("{}/{to_filename}", path_of(to_handle)?);
        Self::rename(from, to)
    }

    fn fsetxattr(handle: u64, name: String, data: &[u8]) -> Result<(), Error> {
        let path = path_of(handle)?;
        FS.with(|fs| fs.borrow_mut().xattrs.insert((path, name), data.to_vec()));
        Ok(())
    }

    fn fgetxattr(handle: u64, name: String, buf: &mut [u8]) -> Result<usize, Error> {
        let path = path_of(handle)?;
        FS.with(|fs| match fs.borrow().xattrs.get(&(path, name)) {
            Some(v) if v.len() <= buf.len() => {
                buf[..v.len()].copy_from_slice(v);
                Ok(v.len())
            }
            Some(_) => Err(Error::Unknown(34)),
            None => Err(Error::NotFound),
        })
    }

    fn fgetpath(handle: u64) -> Result<String, Error> {
        path_of(handle)
    }

    fn file_handle_max() -> Result<usize, Error> {
        Ok(256)
    }
}

fn read_all(handle: u64, stat: &FileStat) -> Vec<u8> {
    let _ = stat;
    let mut block = Block::new(3);
    read_to_end::<MemPlatform>(handle, &mut block).unwrap()
}

#[test]
fn smoketest_writing() {
    let _serial = reset();
    let mut ledger = PermitLedger::new(32);
    let location = HandleLocation::Path("/root/test-writing.txt".to_string());
    let (handle, stat) =
        open_file::<MemPlatform>(&mut ledger, location, FileDetails::new().with_create()).unwrap();
    let content = "hello world I am writing a file".as_bytes().to_vec();
    MemPlatform::write(handle, &content, 0).unwrap();
    let data = read_all(handle, &stat);
    assert_eq!(data, content);
    close_handle::<MemPlatform>(&mut ledger, handle).unwrap();
    assert_eq!(ledger.available_permits(), 32);
}

#[test]
fn smoketest_mkdir() {
    let _serial = reset();
    let mut ledger = PermitLedger::new(32);
    let dir = open_directory::<MemPlatform>(
        &mut ledger,
        HandleLocation::Path("/root/mydir".to_string()),
        DirectoryDetails::new().with_create(),
    )
    .unwrap();
    let (child, stat) = open_file::<MemPlatform>(
        &mut ledger,
        HandleLocation::At { directory: dir, filename: "test-file.txt".to_string() },
        FileDetails::new().with_create(),
    )
    .unwrap();
    let content = b"i am some data that will get written to disk".to_vec();
    MemPlatform::write(child, &content, 0).unwrap();
    let rnd_content = read_all(child, &stat);
    assert_eq!(content, rnd_content);
}

#[test]
fn smoketest_tree() {
    let _serial = reset();
    let mut ledger = PermitLedger::new(32);
    let dir = open_directory::<MemPlatform>(
        &mut ledger,
        HandleLocation::Path("/root/tree_1".to_string()),
        DirectoryDetails::new().with_create(),
    )
    .unwrap();
    open_file::<MemPlatform>(
        &mut ledger,
        HandleLocation::At { directory: dir, filename: "test-file.txt".to_string() },
        FileDetails::new().with_create(),
    )
    .unwrap();
    open_directory::<MemPlatform>(
        &mut ledger,
        HandleLocation::At { directory: dir, filename: "nested_dir".to_string() },
        DirectoryDetails::new().with_create(),
    )
    .unwrap();
    let tree = TreeBuilder::for_directory::<MemPlatform>(dir).unwrap().build::<MemPlatform>(&mut PermitLedger::new(8)).unwrap();
    assert_eq!(tree.len(), 1);
    assert!(tree.get(&vec!["test-file.txt".to_string()]).unwrap().is_leaf());
    assert!(!tree.get(&vec!["nested_dir".to_string()]).unwrap().is_leaf());
    assert_eq!(tree.root_path(), "/root/tree_1");
}

#[test]
fn permits_come_back_after_close_and_drain() {
    let _serial = reset();
    put_file("/root/a", b"a");
    put_file("/root/b", b"b");
    let mut ledger = PermitLedger::new(2);
    let (a, _) = open_file::<MemPlatform>(&mut ledger, HandleLocation::Path("/root/a".to_string()), FileDetails::new()).unwrap();
    let (_b, _) = open_file::<MemPlatform>(&mut ledger, HandleLocation::Path("/root/b".to_string()), FileDetails::new()).unwrap();
    assert_eq!(ledger.available_permits(), 0);
    assert!(!ledger.try_acquire());
    close_handle::<MemPlatform>(&mut ledger, a).unwrap();
    assert_eq!(ledger.available_permits(), 1);
    // The second handle is dropped without being closed.
    assert!(ledger.record(pb_filesystem::filesystem::PermitEvent::Abandon));
    assert_eq!(ledger.available_permits(), 1);
    ledger.drain_all();
    assert_eq!(ledger.available_permits(), 2);
}

#[test]
fn failed_open_returns_its_permit() {
    let _serial = reset();
    let mut ledger = PermitLedger::new(1);
    let r = open_file::<MemPlatform>(&mut ledger, HandleLocation::Path("/root/missing".to_string()), FileDetails::new());
    assert_eq!(r.unwrap_err(), Error::NotFound);
    assert_eq!(ledger.available_permits(), 1);
}

#[test]
fn round_trip_through_read_iterator() {
    let _serial = reset();
    let mut ledger = PermitLedger::new(4);
    let (h, _) = open_file::<MemPlatform>(
        &mut ledger,
        HandleLocation::Path("/root/new.bin".to_string()),
        FileDetails::new().with_create(),
    )
    .unwrap();
    let bytes: Vec<u8> = (0u8..10).collect();
    MemPlatform::write(h, &bytes, 0).unwrap();
    let mut block = Block::new(4);
    let mut it: ReadIterator<MemPlatform> = ReadIterator::new(h);
    let mut out = Vec::new();
    let mut chunks = Vec::new();
    while let Some(r) = it.next(&mut block) {
        let n = r.unwrap();
        chunks.push(n);
        out.extend_from_slice(&block.as_ref()[..n]);
    }
    assert_eq!(chunks, vec![4, 4, 2]);
    assert_eq!(out, bytes);
    assert_eq!(it.offset(), 10);
    assert!(it.next(&mut block).is_none());
}

#[test]
fn read_of_empty_file_ends_at_once() {
    let _serial = reset();
    put_file("/root/empty", b"");
    let mut ledger = PermitLedger::new(4);
    let (h, _) = open_file::<MemPlatform>(&mut ledger, HandleLocation::Path("/root/empty".to_string()), FileDetails::new()).unwrap();
    let mut block = Block::new(8);
    let mut it: ReadIterator<MemPlatform> = ReadIterator::new(h);
    assert_eq!(it.next(&mut block).unwrap().unwrap(), 0);
    assert!(it.is_done());
    assert!(it.next(&mut block).is_none());
}

#[test]
fn opening_a_directory_as_a_file_fails() {
    let _serial = reset();
    mkdir_path("/root/d");
    let mut ledger = PermitLedger::new(4);
    let r = open_file::<MemPlatform>(&mut ledger, HandleLocation::Path("/root/d".to_string()), FileDetails::new());
    assert!(matches!(r, Err(Error::NotAFile(_))));
    assert_eq!(ledger.available_permits(), 4);
}

#[test]
fn opening_a_file_as_a_directory_fails() {
    let _serial = reset();
    put_file("/root/f", b"x");
    let mut ledger = PermitLedger::new(4);
    let r = open_directory::<MemPlatform>(&mut ledger, HandleLocation::Path("/root/f".to_string()), DirectoryDetails::new());
    assert_eq!(r.unwrap_err(), Error::Unknown(20));
    assert_eq!(ledger.available_permits(), 4);
}

#[test]
fn stat_twice_is_equal() {
    let _serial = reset();
    put_file("/root/s", b"some bytes");
    let mut ledger = PermitLedger::new(4);
    let (h, st) = open_file::<MemPlatform>(&mut ledger, HandleLocation::Path("/root/s".to_string()), FileDetails::new()).unwrap();
    let a = MemPlatform::fstat(h).unwrap();
    let b = MemPlatform::fstat(h).unwrap();
    assert_eq!(a, b);
    assert_eq!(a, st);
    assert_eq!(a.size, 10);
}

#[test]
fn ignore_filtering() {
    let _serial = reset();
    mkdir_path("/root/w");
    put_file("/root/w/a.txt", b"a");
    put_file("/root/w/b.log", b"b");
    let set = IgnoreSet::new(&vec!["*.log".to_string()]).unwrap();
    let tree = TreeBuilder::new("/root/w".to_string()).ignore(set).build::<MemPlatform>(&mut PermitLedger::new(8)).unwrap();
    assert!(tree.get(&vec!["a.txt".to_string()]).unwrap().is_leaf());
    assert!(tree.get(&vec!["a.txt".to_string()]).is_some());
    assert!(tree.get(&vec!["b.log".to_string()]).is_none());
    assert!(tree.ignored("b.log"));
    assert!(!tree.ignored("a.txt"));
    assert_eq!(tree.len(), 1);
}

#[test]
fn invalid_ignore_pattern_is_invalid_data() {
    let r = IgnoreSet::new(&vec!["a[".to_string()]);
    assert!(matches!(r, Err(Error::InvalidData(_))));
}

#[test]
fn tree_without_ignore_set_ignores_nothing() {
    let _serial = reset();
    mkdir_path("/root/w");
    put_file("/root/w/b.log", b"b");
    let tree = TreeBuilder::new("/root/w".to_string()).build::<MemPlatform>(&mut PermitLedger::new(8)).unwrap();
    assert!(!tree.ignored("b.log"));
    assert_eq!(tree.len(), 1);
}

#[test]
fn durable_persist() {
    let _serial = reset();
    mkdir_path("/root/scratch");
    mkdir_path("/root/target");
    let mut ledger = PermitLedger::new(8);
    let root = open_directory::<MemPlatform>(&mut ledger, HandleLocation::Path("/root/scratch".to_string()), DirectoryDetails::new()).unwrap();
    let target = open_directory::<MemPlatform>(&mut ledger, HandleLocation::Path("/root/target".to_string()), DirectoryDetails::new()).unwrap();
    let (scratch, _) = scratch_file::<MemPlatform>(&mut ledger, root).unwrap();
    let scratch_name = format!("/root/scratch/{}", scratch.filename());
    assert_eq!(scratch.filename().len(), 36);
    assert!(present(&scratch_name));
    MemPlatform::write(*scratch.inner(), b"final content", 0).unwrap();
    tag_comment::<MemPlatform>(&scratch, "downloaded").unwrap();
    let h = persistat::<MemPlatform>(scratch, root, target, "final.bin".to_string()).unwrap();
    close_handle::<MemPlatform>(&mut ledger, h).unwrap();
    assert!(!present(&scratch_name));
    let (f, st) = open_file::<MemPlatform>(&mut ledger, HandleLocation::Path("/root/target/final.bin".to_string()), FileDetails::new()).unwrap();
    assert_eq!(read_all(f, &st), b"final content".to_vec());
}

#[test]
fn tree_walk_is_deterministic() {
    let _serial = reset();
    mkdir_path("/root/t");
    put_file("/root/t/one", b"1");
    put_file("/root/t/two", b"22");
    mkdir_path("/root/t/sub");
    put_file("/root/t/sub/three", b"333");
    put_file("/root/t/sub/four", b"4444");
    mkdir_path("/root/t/sub/deeper");
    put_file("/root/t/sub/deeper/five", b"5");
    let a = TreeBuilder::new("/root/t".to_string()).build::<MemPlatform>(&mut PermitLedger::new(8)).unwrap();
    let b = TreeBuilder::new("/root/t".to_string()).build::<MemPlatform>(&mut PermitLedger::new(8)).unwrap();
    assert_eq!(a.len(), 5);
    assert_eq!(a.len(), b.len());
    fn shape(n: &TrieNode<(), FileStat>, names: &dyn Fn(usize) -> String, out: &mut Vec<String>, prefix: String) {
        if let TrieNode::Edge { children, count, .. } = n {
            for (k, c) in children {
                let p = format!("{prefix}/{}", names(*k));
                out.push(format!("{p}:{}", c.leaf_count()));
                shape(c, names, out, p);
            }
            let _ = count;
        }
    }
    let mut sa = Vec::new();
    let mut sb = Vec::new();
    shape(a.trie().root(), &|k| a.component_name(k).unwrap(), &mut sa, String::new());
    shape(b.trie().root(), &|k| b.component_name(k).unwrap(), &mut sb, String::new());
    sa.sort();
    sb.sort();
    assert_eq!(sa, sb);
    assert!(sa.contains(&"/sub:3".to_string()));
    assert!(sa.contains(&"/sub/deeper:1".to_string()));
    let sub = a.get(&vec!["sub".to_string()]).unwrap();
    assert_eq!(sub.leaf_count(), 3);
}

#[test]
fn walk_of_missing_directory_fails() {
    let _serial = reset();
    let r = TreeBuilder::new("/root/nope".to_string()).build::<MemPlatform>(&mut PermitLedger::new(8));
    assert_eq!(r.unwrap_err(), Error::NotFound);
}

#[test]
fn block_pool_reuses_blocks() {
    let mut pool = BlockPool::new();
    {
        let b = pool.get_block(4);
        assert_eq!(b.as_ref(), &[0u8; 4][..]);
        b.as_mut()[0] = 7;
    }
    assert_eq!(pool.get_block(4).as_ref()[0], 7);
    assert_eq!(pool.get_block(8).size(), 8);
    let b = pool.get_block(4);
    b.clear();
    assert_eq!(b.as_ref(), &[0u8; 4][..]);
}

/// Sums the bytes of each file.
struct ByteSum;

impl FileWork<MemPlatform> for ByteSum {
    type Leaf = (FileStat, u64);

    fn reads_contents(&self) -> bool {
        true
    }

    fn from_stat(&self, stat: FileStat) -> Result<(FileStat, u64), Error> {
        Ok(<(FileStat, u64)>::from_parts(stat, 0))
    }

    fn from_contents(
        &self,
        stat: FileStat,
        reader: &mut ReadIterator<MemPlatform>,
        block: &mut Block,
    ) -> Result<(FileStat, u64), Error> {
        let mut sum = 0u64;
        while let Some(chunk) = reader.next(block) {
            let n = chunk?;
            sum += block.as_ref()[..n].iter().map(|b| *b as u64).sum::<u64>();
        }
        Ok(<(FileStat, u64)>::from_parts(stat, sum))
    }
}

#[test]
fn tree_with_computed_values() {
    let _serial = reset();
    mkdir_path("/root/v");
    put_file("/root/v/a", &[1, 2, 3, 4, 5, 6, 7, 8, 9]);
    mkdir_path("/root/v/d");
    put_file("/root/v/d/b", &[10, 20]);
    let tree = TreeBuilder::new("/root/v".to_string()).with_data(ByteSum).build::<MemPlatform>(&mut PermitLedger::new(8)).unwrap();
    assert_eq!(tree.len(), 2);
    match tree.get(&vec!["a".to_string()]).unwrap() {
        TrieNode::Leaf { data } => {
            assert_eq!(data.1, 45);
            assert_eq!(data.0.size, 9);
        }
        _ => panic!("expected a leaf"),
    }
    match tree.get(&vec!["d".to_string(), "b".to_string()]).unwrap() {
        TrieNode::Leaf { data } => assert_eq!(data.1, 30),
        _ => panic!("expected a leaf"),
    }
    // Every file was closed again.
    FS.with(|fs| assert!(fs.borrow().handles.is_empty()));
}

#[test]
fn scratch_and_repository_directories() {
    let _serial = reset();
    mkdir_path("/root/ws");
    mkdir_path("/root/ws/scratch");
    mkdir_path("/root/ws/repositories");
    let mut ledger = PermitLedger::new(4);
    let scratch = open_scratch_directory::<MemPlatform>(&mut ledger, &"/root/ws".to_string()).unwrap();
    assert_eq!(MemPlatform::fgetpath(scratch).unwrap(), "/root/ws/scratch");
    let repos = open_repository_directory::<MemPlatform>(&mut ledger, "/root/ws".to_string()).unwrap();
    assert_eq!(MemPlatform::fgetpath(repos).unwrap(), "/root/ws/repositories");
    assert_eq!(ledger.available_permits(), 2);
    let dir = scratch_directory::<MemPlatform>(&mut ledger, scratch).unwrap();
    assert!(present(&format!("/root/ws/scratch/{}", dir.filename())));
    tag_ruleset::<MemPlatform>(&dir, "std").unwrap();
    let key = (format!("/root/ws/scratch/{}", dir.filename()), "org.pb.scratch.rule_set".to_string());
    FS.with(|fs| assert_eq!(fs.borrow().xattrs.get(&key), Some(&b"std".to_vec())));
    let missing = open_repository_directory::<MemPlatform>(&mut ledger, "/root/nowhere".to_string());
    assert_eq!(missing.unwrap_err(), Error::NotFound);
    assert_eq!(ledger.available_permits(), 1);
}

#[test]
fn dropped_handle_is_closed_by_the_worker() {
    let _serial = reset();
    put_file("/root/d", b"x");
    let mut ledger = PermitLedger::new(1);
    let (h, _) = open_file::<MemPlatform>(&mut ledger, HandleLocation::Path("/root/d".to_string()), FileDetails::new()).unwrap();
    assert!(ledger.record(pb_filesystem::filesystem::PermitEvent::Abandon));
    assert_eq!(ledger.available_permits(), 0);
    close_dropped::<MemPlatform>(&mut ledger, h).unwrap();
    assert_eq!(ledger.available_permits(), 1);
    FS.with(|fs| assert!(fs.borrow().handles.is_empty()));
    // A second close fails, yet the permit still comes back.
    assert!(ledger.record(pb_filesystem::filesystem::PermitEvent::Acquire));
    assert!(ledger.record(pb_filesystem::filesystem::PermitEvent::Abandon));
    assert!(close_dropped::<MemPlatform>(&mut ledger, h).is_err());
    assert_eq!(ledger.available_permits(), 1);
}

#[test]
fn open_of_unknown_kind() {
    let _serial = reset();
    mkdir_path("/root/k");
    let mut ledger = PermitLedger::new(2);
    let (h, _) = open_unknown::<MemPlatform>(&mut ledger, HandleLocation::Path("/root/k".to_string()), UnknownDetails).unwrap();
    assert_eq!(MemPlatform::fstat(h).unwrap().kind, FileType::Directory);
    assert_eq!(ledger.available_permits(), 1);
    assert!(open_unknown::<MemPlatform>(&mut ledger, HandleLocation::Path("/root/none".to_string()), UnknownDetails).is_err());
    assert_eq!(ledger.available_permits(), 1);
}

#[test]
fn tree_walk_returns_every_permit() {
    let _serial = reset();
    mkdir_path("/root/p");
    put_file("/root/p/a", &[1, 2]);
    mkdir_path("/root/p/d");
    put_file("/root/p/d/b", &[3]);
    let mut ledger = PermitLedger::new(3);
    let tree = TreeBuilder::new("/root/p".to_string()).with_data(ByteSum).build::<MemPlatform>(&mut ledger).unwrap();
    assert_eq!(tree.len(), 2);
    assert_eq!(ledger, PermitLedger::new(3));
    // Two directories and a file are open at once at the deepest point.
    let mut tight = PermitLedger::new(2);
    let r = TreeBuilder::new("/root/p".to_string()).with_data(ByteSum).build::<MemPlatform>(&mut tight);
    assert_eq!(r.unwrap_err(), Error::Unknown(24));
    assert_eq!(tight, PermitLedger::new(2));
    FS.with(|fs| assert!(fs.borrow().handles.is_empty()));
    // A stat-only walk opens directories only.
    let mut two = PermitLedger::new(2);
    assert!(TreeBuilder::new("/root/p".to_string()).build::<MemPlatform>(&mut two).is_ok());
}

#[test]
fn walk_failure_in_a_subtree_fails_the_walk() {
    let _serial = reset();
    mkdir_path("/root/f");
    put_file("/root/f/ok", b"1");
    mkdir_path("/root/f/sub");
    // A listed file that cannot be stat'd.
    FS.with(|fs| {
        fs.borrow_mut().nodes.insert("/root/f/sub/ghost".to_string(), Node::File { data: vec![], inode: 99 });
    });
    FAIL_STAT.with_path("/root/f/sub/ghost");
    let mut ledger = PermitLedger::new(4);
    let r = TreeBuilder::new("/root/f".to_string()).build::<MemPlatform>(&mut ledger);
    assert_eq!(r.unwrap_err(), Error::PermissionDenied);
    assert_eq!(ledger, PermitLedger::new(4));
    FS.with(|fs| assert!(fs.borrow().handles.is_empty()));
}
