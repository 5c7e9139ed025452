use git2ipfs::error::{Error, Failure, RefError};
use git2ipfs::files::{from_repo, head, info_refs, objects, Entry, Files};
use git2ipfs::git::{RefEntry, RefTarget, Reference};
use git2ipfs::oid::ObjectId;

fn id(fill: u8) -> ObjectId {
    ObjectId::new([fill; 20])
}

fn hex(fill: u8) -> String {
    format!("{:02x}", fill).repeat(20)
}

fn direct(name: &str, fill: u8) -> Reference {
    Reference { name: Some(name.to_string()), target: Some(RefTarget::Direct(id(fill))), remote: false }
}

fn nameless() -> Reference {
    Reference { name: None, target: Some(RefTarget::Direct(id(9))), remote: false }
}

fn drain(mut files: Files) -> Vec<Entry> {
    let mut all = Vec::new();
    while let Some(entry) = files.next() {
        all.push(entry);
    }
    assert_eq!(files.len(), 0);
    assert!(files.next().is_none());
    all
}

fn the_failure(files: Files) -> Failure {
    let mut all = drain(files);
    assert_eq!(all.len(), 1);
    match all.pop().unwrap() {
        Entry::Failed(failure) => failure,
        other => panic!("unexpected: {:?}", other),
    }
}

#[test]
fn export_is_objects_then_info_refs_then_head() {
    let refs: Vec<RefEntry> = vec![Ok(direct("refs/heads/main", 3))];
    let files = from_repo(Ok(vec![id(1), id(2)]), Ok(refs), Ok(direct("HEAD", 3)));
    assert_eq!(files.len(), 4);
    let all = drain(files);
    assert!(matches!(&all[0], Entry::Object(o) if *o == id(1)));
    assert!(matches!(&all[1], Entry::Object(o) if *o == id(2)));
    match &all[2] {
        Entry::Ready(file) => {
            assert_eq!(file.path, "/info/refs");
            assert_eq!(file.data.to_vec(), format!("{}\trefs/heads/main\n", hex(3)).into_bytes());
        }
        other => panic!("unexpected: {:?}", other),
    }
    match &all[3] {
        Entry::Ready(file) => {
            assert_eq!(file.path, "/HEAD");
            assert_eq!(file.data.to_vec(), format!("{}\n", hex(3)).into_bytes());
        }
        other => panic!("unexpected: {:?}", other),
    }
}

#[test]
fn export_of_an_empty_repository_has_the_two_reference_files() {
    let head_ref = Reference {
        name: Some("HEAD".to_string()),
        target: Some(RefTarget::Symbolic(b"refs/heads/main".to_vec())),
        remote: false,
    };
    let all = drain(from_repo(Ok(Vec::new()), Ok(Vec::new()), Ok(head_ref)));
    assert_eq!(all.len(), 2);
    assert!(matches!(&all[0], Entry::Ready(f) if f.path == "/info/refs" && f.data.is_empty()));
    assert!(matches!(&all[1], Entry::Ready(f) if f.path == "/HEAD"
        && f.data.to_vec() == b"ref: refs/heads/main\n".to_vec()));
}

#[test]
fn objects_that_cannot_be_walked_are_the_only_entry() {
    let broken = Error::Git { text: "object database is corrupt".to_string() };
    let failure = the_failure(from_repo(
        Err(broken.clone()),
        Err(Error::Git { text: "later".to_string() }),
        Ok(nameless()),
    ));
    assert_eq!(failure, Failure { path: "/objects".to_string(), cause: broken });
}

#[test]
fn references_that_cannot_be_walked_are_the_only_entry() {
    let broken = Error::Git { text: "refs are unreadable".to_string() };
    let failure = the_failure(from_repo(Ok(vec![id(1)]), Err(broken.clone()), Ok(direct("HEAD", 1))));
    assert_eq!(failure, Failure { path: "/info/refs".to_string(), cause: broken });
}

#[test]
fn head_that_cannot_be_read_is_the_only_entry() {
    let broken = Error::Git { text: "no HEAD".to_string() };
    let failure = the_failure(from_repo(Ok(vec![id(1)]), Ok(Vec::new()), Err(broken.clone())));
    assert_eq!(failure, Failure { path: "/HEAD".to_string(), cause: broken });
}

#[test]
fn nameless_reference_stands_as_a_failure_in_its_place() {
    let refs: Vec<RefEntry> = vec![Ok(direct("refs/heads/main", 1)), Ok(nameless())];
    let files = from_repo(Ok(vec![id(1), id(2), id(3)]), Ok(refs), Ok(direct("HEAD", 1)));
    assert_eq!(files.len(), 5);
    assert!(files.has_failed());
    let all = drain(files);
    for (entry, fill) in all.iter().zip([1u8, 2, 3]) {
        assert!(matches!(entry, Entry::Object(o) if *o == id(fill)));
    }
    assert!(matches!(&all[3], Entry::Failed(f) if *f == Failure {
        path: "/info/refs".to_string(),
        cause: Error::Ref { source: RefError::RefHasNoName }
    }));
    assert!(matches!(&all[4], Entry::Ready(f) if f.path == "/HEAD"
        && f.data.to_vec() == format!("{}\n", hex(1)).into_bytes()));
}

#[test]
fn head_that_cannot_be_written_stands_as_a_failure_in_its_place() {
    let unknown = Reference { name: None, target: None, remote: false };
    let all = drain(from_repo(Ok(vec![id(1)]), Ok(Vec::new()), Ok(unknown)));
    assert_eq!(all.len(), 3);
    assert!(matches!(&all[0], Entry::Object(o) if *o == id(1)));
    assert!(matches!(&all[1], Entry::Ready(f) if f.path == "/info/refs" && f.data.is_empty()));
    assert!(matches!(&all[2], Entry::Failed(f) if *f == Failure {
        path: "/HEAD".to_string(),
        cause: Error::NoReferenceKind
    }));
    let garbled = Reference { name: None, target: Some(RefTarget::Symbolic(vec![0xff])), remote: false };
    let all = drain(from_repo(Ok(vec![id(1)]), Ok(Vec::new()), Ok(garbled)));
    assert_eq!(all.len(), 3);
    assert!(matches!(&all[1], Entry::Ready(f) if f.path == "/info/refs"));
    assert!(matches!(&all[2], Entry::Failed(f) if f.path == "/HEAD"
        && matches!(f.cause, Error::FromUtf8 { .. })));
}

#[test]
fn listing_failure_stands_before_head_failure() {
    let refs: Vec<RefEntry> = vec![Ok(nameless())];
    let unknown = Reference { name: None, target: None, remote: false };
    let all = drain(from_repo(Ok(Vec::new()), Ok(refs), Ok(unknown)));
    assert_eq!(all.len(), 2);
    assert!(matches!(&all[0], Entry::Failed(f) if f.path == "/info/refs"
        && f.cause == Error::Ref { source: RefError::RefHasNoName }));
    assert!(matches!(&all[1], Entry::Failed(f) if f.path == "/HEAD"
        && f.cause == Error::NoReferenceKind));
}

#[test]
fn sequence_has_an_entry_for_every_object_and_two_more() {
    for n in [0u8, 1, 2, 17] {
        let ids: Vec<ObjectId> = (0..n).map(id).collect();
        for refs in [vec![Ok(direct("refs/heads/main", 1))], vec![Ok(nameless())]] {
            for head_ref in [direct("HEAD", 1), Reference { name: None, target: None, remote: false }] {
                let files = from_repo(Ok(ids.clone()), Ok(refs.clone()), Ok(head_ref));
                assert_eq!(files.len(), n as usize + 2);
            }
        }
    }
}

#[test]
fn files_know_whether_one_of_them_failed() {
    let mut files = Files::new();
    assert!(!files.has_failed());
    files.push(Entry::Object(id(1)));
    assert!(!files.has_failed());
    files.push(Entry::Failed(Failure { path: "/x".to_string(), cause: Error::NoReferenceKind }));
    files.push(Entry::Object(id(2)));
    assert!(files.has_failed());
    assert!(files.next().is_some());
    assert!(files.has_failed());
    assert!(files.next().is_some());
    assert!(!files.has_failed());
}

#[test]
fn objects_keep_their_order() {
    let ids: Vec<ObjectId> = (0..50u8).map(id).collect();
    let all = drain(objects(ids.clone()));
    assert_eq!(all.len(), 50);
    for (entry, expected) in all.iter().zip(ids.iter()) {
        assert!(matches!(entry, Entry::Object(o) if o == expected));
    }
    assert_eq!(objects(Vec::new()).len(), 0);
}

#[test]
fn info_refs_entry_is_ready_or_failed() {
    let entry = info_refs(vec![Ok(direct("refs/heads/main", 4))]);
    assert!(matches!(entry, Entry::Ready(f) if f.path == "/info/refs"
        && f.data.to_vec() == format!("{}\trefs/heads/main\n", hex(4)).into_bytes()));
    let entry = info_refs(vec![Ok(nameless())]);
    assert!(matches!(entry, Entry::Failed(f) if f.path == "/info/refs"
        && f.cause == Error::Ref { source: RefError::RefHasNoName }));
}

#[test]
fn head_entry_is_ready_or_failed() {
    let entry = head(&direct("HEAD", 6));
    assert!(matches!(entry, Entry::Ready(f) if f.path == "/HEAD"
        && f.data.to_vec() == format!("{}\n", hex(6)).into_bytes()));
    let entry = head(&Reference { name: None, target: None, remote: false });
    assert!(matches!(entry, Entry::Failed(f) if f.path == "/HEAD" && f.cause == Error::NoReferenceKind));
}

#[test]
fn files_are_taken_once_and_in_order() {
    let mut files = Files::new();
    assert_eq!(files.len(), 0);
    assert!(files.next().is_none());
    files.push(Entry::Object(id(1)));
    files.push(Entry::Object(id(2)));
    assert_eq!(files.len(), 2);
    assert!(matches!(files.next(), Some(Entry::Object(o)) if o == id(1)));
    assert!(matches!(files.next(), Some(Entry::Object(o)) if o == id(2)));
    assert!(files.next().is_none());
}
