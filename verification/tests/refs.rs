use rustgit::head::Head;
use rustgit::lockfile::LockfileError;
use rustgit::lockfile::LockfileErrorKind;
use rustgit::lockfile::lock_path_for;
use rustgit::oid::ObjectId;
use rustgit::references::parse_ref_content;
use rustgit::references::Ref;
use rustgit::references::ReferenceError;
use rustgit::object::commit::Author;
use rustgit::object::commit::Timestamp;
use rustgit::references::RefTable;
use rustgit::write_utils::commit_tree;
use rustgit::write_utils::CommitTreeArgs;
use rustgit::Repository;

fn repo() -> Repository {
    Repository::open(b"work".to_vec(), b"work/.git".to_vec())
}

fn fresh_refs() -> RefTable {
    RefTable {
        entries: vec![(b"HEAD".to_vec(), b"ref: refs/heads/main\n".to_vec())],
    }
}

#[test]
fn unborn_head() {
    // a freshly initialized repository: HEAD names a branch with no file yet
    let repo = repo();
    let refs = fresh_refs();
    let head = repo.head(&refs).unwrap();
    assert!(head.is_unborn());
    assert_eq!(head.referent_name().unwrap(), &b"refs/heads/main".to_vec());

    // peeling HEAD fails with "does not exist", not a default id
    match repo.head_id(&refs) {
        Err(ReferenceError::NotExist(name)) => assert_eq!(name, b"refs/heads/main".to_vec()),
        other => panic!("expected NotExist, got {:?}", other.map(|o| o.0)),
    }
}

#[test]
fn symbolic_head_with_history() {
    let repo = repo();
    let oid = ObjectId::from_data(b"a commit");
    let hex = oid.to_hex_string().0.to_vec();
    let mut content = hex.clone();
    content.push(b'\n');
    let refs = RefTable {
        entries: vec![
            (b"HEAD".to_vec(), b"ref: refs/heads/main\n".to_vec()),
            (b"refs/heads/main".to_vec(), content),
        ],
    };
    let head = repo.head(&refs).unwrap();
    match head {
        Head::Symbolic { name, reference } => {
            assert_eq!(name, b"refs/heads/main".to_vec());
            assert_eq!(reference, Ref::Peeled(oid));
        }
        other => panic!("expected a symbolic head, got {:?}", other),
    }
    assert_eq!(repo.head_id(&refs).unwrap().0, oid.0);
}

#[test]
fn detached_head() {
    let repo = repo();
    let oid = ObjectId::from_data(b"a commit");
    let refs = RefTable {
        entries: vec![(b"HEAD".to_vec(), oid.to_hex_string().0.to_vec())],
    };
    let head = repo.head(&refs).unwrap();
    assert!(matches!(head, Head::Detached(d) if d.0 == oid.0));
    assert!(head.referent_name().is_none());
    assert!(!head.is_unborn());
}

#[test]
fn peel_follows_symbolic_chain() {
    let repo = repo();
    let oid = ObjectId::from_data(b"target");
    let refs = RefTable {
        entries: vec![
            (b"A".to_vec(), b"ref: B\n".to_vec()),
            (b"B".to_vec(), oid.to_hex_string().0.to_vec()),
        ],
    };
    let got = repo
        .peel_reference(&refs, &Ref::Symbolic(b"A".to_vec()))
        .unwrap();
    assert_eq!(got.0, oid.0);
}

#[test]
fn peel_reports_missing_ref() {
    let repo = repo();
    let refs = RefTable { entries: vec![] };
    match repo.peel_reference(&refs, &Ref::Symbolic(b"refs/heads/gone".to_vec())) {
        Err(ReferenceError::NotExist(name)) => assert_eq!(name, b"refs/heads/gone".to_vec()),
        other => panic!("expected NotExist, got {:?}", other.map(|o| o.0)),
    }
}

#[test]
fn peel_ends_on_cycles() {
    // a self-referential ref must not loop forever
    let repo = repo();
    let refs = RefTable {
        entries: vec![(b"A".to_vec(), b"ref: A\n".to_vec())],
    };
    assert!(matches!(
        repo.peel_reference(&refs, &Ref::Symbolic(b"A".to_vec())),
        Err(ReferenceError::NotExist(_))
    ));
}

#[test]
fn ref_content_parses() {
    match parse_ref_content(b"ref: refs/heads/dev\n").unwrap() {
        Ref::Symbolic(name) => assert_eq!(name, b"refs/heads/dev".to_vec()),
        other => panic!("expected symbolic, got {:?}", other),
    }
    let oid = ObjectId::from_data(b"x");
    let mut content = oid.to_hex_string().0.to_vec();
    content.push(b'\n');
    match parse_ref_content(&content).unwrap() {
        Ref::Peeled(got) => assert_eq!(got.0, oid.0),
        other => panic!("expected peeled, got {:?}", other),
    }
    assert!(parse_ref_content(b"not a hash\n").is_err());
}

#[test]
fn bad_ref_content_is_a_validation_error() {
    let repo = repo();
    let refs = RefTable {
        entries: vec![(b"HEAD".to_vec(), b"zzzz\n".to_vec())],
    };
    assert!(matches!(
        repo.head(&refs),
        Err(ReferenceError::SHA1Error(_))
    ));
}

#[test]
fn lockfile_error_kinds() {
    // contention is distinguished from plain I/O failure
    let taken = LockfileError::from_io(true, b"work/.git/index.lock".to_vec());
    assert!(matches!(taken.kind(), LockfileErrorKind::LockTaken));
    let io = LockfileError::from_io(false, b"work/.git/index.lock".to_vec());
    assert!(matches!(io.kind(), LockfileErrorKind::Io));
    assert_eq!(taken.path(), &b"work/.git/index.lock".to_vec());
}

#[test]
fn lock_path_appends_extension() {
    assert_eq!(&lock_path_for(b"work/.git/HEAD")[..], b"work/.git/HEAD.lock" as &[u8]);
    assert_eq!(&lock_path_for(b"work/.git/index")[..], b"work/.git/index.lock" as &[u8]);
}

#[test]
fn commit_tree_computes_commit_write() {
    let repo = repo();
    let args = CommitTreeArgs {
        parent_commit_sha: None,
        message: "initial commit".to_string(),
        tree_sha: ObjectId::from_data(b"tree"),
    };
    let author = Author {
        name: "Jane Doe".to_string(),
        email: "jane@doe.com".to_string(),
        time: Timestamp {
            seconds: 1243040974,
            tz_negative: true,
            tz_hours: 7,
            tz_minutes: 0,
        },
    };
    let (oid, write) = commit_tree(&repo, args, author);
    // the path is derived from the id's hex form
    let hex = oid.to_hex_string().0;
    assert_eq!(&write.path[..18], b"work/.git/objects/");
    assert_eq!(&write.path[18..20], &hex[..2]);
    assert_eq!(&write.path[21..], &hex[2..]);
}

#[test]
fn small_utilities() {
    assert_eq!(rustgit::remove_last(b"abc"), b"ab");
    assert_eq!(rustgit::trim_whitespace(b"abc\n"), b"abc");
    assert_eq!(rustgit::trim_whitespace(b"abc"), b"abc");
    assert_eq!(rustgit::utils::remove_last_if_endline(b"abc\n"), b"abc");
    assert_eq!(rustgit::utils::remove_last_if_endline(b"abc"), b"abc");
    assert_eq!(rustgit::utils::remove_last_if_match(b"abc.", &b'.'), b"abc");
    assert_eq!(rustgit::utils::trim_ascii(b"  a b \n"), b"a b");
    assert_eq!(rustgit::parse_util::parse_usize(b"12345"), Ok(12345));
    assert!(rustgit::parse_util::parse_usize(b"12a").is_err());
    assert!(rustgit::parse_util::parse_usize(b"99999999999999999999999999").is_err());
    assert_eq!(rustgit::parse_util::parse_oct_u32(b"100644"), Ok(0o100644));
}
