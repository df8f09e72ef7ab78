use rustgit::index::EntryMetadata;
use rustgit::index::Index;
use rustgit::object::read_tree_object;
use rustgit::object::tree::TreeBuilder;
use rustgit::object::tree::TreeEntry;
use rustgit::oid::ObjectId;
use rustgit::Repository;

fn metadata(mode: u32) -> EntryMetadata {
    EntryMetadata {
        ctime_seconds: 0,
        ctime_nanoseconds: 0,
        mtime_seconds: 0,
        mtime_nanoseconds: 0,
        dev: 0,
        ino: 0,
        mode,
        uid: 0,
        gid: 0,
        file_size: 0,
    }
}

fn repo() -> Repository {
    Repository::open(b"work".to_vec(), b"work/.git".to_vec())
}

fn root_tree_names(index: &Index) -> Vec<Vec<u8>> {
    let repo = repo();
    let (root_oid, objects) = repo.write_tree(index).unwrap();
    let (last_oid, root_buffer) = objects.last().unwrap();
    assert_eq!(root_oid.0, last_oid.0);
    let root = read_tree_object(root_buffer.data()).unwrap();
    root.iter().iter().map(|e| e.name.clone()).collect()
}

#[test]
fn directory_sorts_with_trailing_slash() {
    // paths {"b.txt", "a/x.txt"}: the root lists directory `a` before `b.txt`
    let mut index = Index::new();
    index.add(b"b.txt".to_vec(), ObjectId::from_data(b"1"), metadata(0o100644));
    index.add(b"a/x.txt".to_vec(), ObjectId::from_data(b"2"), metadata(0o100644));
    let names = root_tree_names(&index);
    assert_eq!(names, vec![b"a".to_vec(), b"b.txt".to_vec()]);
}

#[test]
fn sort_in_correct_order() {
    // `foo.txt` sorts before the directory `foo`, which compares as `foo/`
    let mut index = Index::new();
    index.add(b"foo/file".to_vec(), ObjectId::from_data(b"1"), metadata(0o100644));
    index.add(b"foo.txt".to_vec(), ObjectId::from_data(b"2"), metadata(0o100644));
    index.add(b"bar.txt".to_vec(), ObjectId::from_data(b"3"), metadata(0o100644));
    let names = root_tree_names(&index);
    assert_eq!(
        names,
        vec![b"bar.txt".to_vec(), b"foo.txt".to_vec(), b"foo".to_vec()]
    );
}

#[test]
fn nested_trees_flush_children_first() {
    let mut index = Index::new();
    index.add(b"dir/inner/file".to_vec(), ObjectId::from_data(b"1"), metadata(0o100644));
    index.add(b"top".to_vec(), ObjectId::from_data(b"2"), metadata(0o100644));
    let repo = repo();
    let (root_oid, objects) = repo.write_tree(&index).unwrap();
    // three trees: inner, dir, root — root last
    assert_eq!(objects.len(), 3);
    assert_eq!(root_oid.0, objects[2].0 .0);

    // the root lists `dir` (mode 040000) then `top`
    let root = read_tree_object(objects[2].1.data()).unwrap();
    let entries = root.iter();
    assert_eq!(entries.len(), 2);
    assert_eq!(entries[0].name, b"dir".to_vec());
    assert_eq!(entries[0].mode, 0o40000);
    // the `dir` entry's id is the hash of the `dir` tree written just before
    assert_eq!(entries[0].oid.0, objects[1].0 .0);
    assert_eq!(entries[1].name, b"top".to_vec());

    // and `dir` in turn points at `inner`
    let dir = read_tree_object(objects[1].1.data()).unwrap();
    assert_eq!(dir.iter()[0].name, b"inner".to_vec());
    assert_eq!(dir.iter()[0].oid.0, objects[0].0 .0);
}

#[test]
fn builder_detects_occupied_slot() {
    // a duplicate leaf name within one directory is the fatal invariant
    // violation; `slot_is_free` is how a caller keeps clear of it
    let mut builder = TreeBuilder::new();
    let entry = TreeEntry {
        name: b"a".to_vec(),
        oid: ObjectId::from_data(b"1"),
        mode: 0o100644,
    };
    assert!(builder.slot_is_free(&[], b"a"));
    builder.add_entry(&[], b"a".to_vec(), entry.clone());
    assert!(!builder.slot_is_free(&[], b"a"));
    assert!(builder.slot_is_free(&[], b"b"));

    // the same name is still free under a directory, and taken after
    let path = vec![b"d".to_vec()];
    assert!(builder.slot_is_free(&path, b"a"));
    builder.add_entry(&path, b"a".to_vec(), entry);
    assert!(!builder.slot_is_free(&path, b"a"));
    assert!(builder.slot_is_free(&path, b"b"));
}

#[test]
fn empty_index_writes_empty_root_tree() {
    let index = Index::new();
    let repo = repo();
    let (_root_oid, objects) = repo.write_tree(&index).unwrap();
    assert_eq!(objects.len(), 1);
    assert_eq!(objects[0].1.data(), b"tree 0\0");
}
