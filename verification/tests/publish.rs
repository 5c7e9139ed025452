use flate2::read::ZlibDecoder;
use git2ipfs::error::{ConfigError, Error, Failure, RefError};
use git2ipfs::export::{git2ipfs, Job, Next, QUEUE_SIZE};
use git2ipfs::files::{from_repo, File, Files};
use git2ipfs::git::{gen_temp_dir_path, ObjectKind, RefEntry, RefTarget, Reference};
use git2ipfs::ipfs::{path_in, root_of, write_file, Reply, Verdict, RETRIES};
use git2ipfs::oid::ObjectId;
use std::collections::{BTreeMap, VecDeque};
use std::io::Read;

fn id(fill: u8) -> ObjectId {
    ObjectId::new([fill; 20])
}

fn hex(fill: u8) -> String {
    format!("{:02x}", fill).repeat(20)
}

fn direct(name: &str, fill: u8) -> Reference {
    Reference { name: Some(name.to_string()), target: Some(RefTarget::Direct(id(fill))), remote: false }
}

fn inflate(data: &[u8]) -> Vec<u8> {
    let mut out = Vec::new();
    ZlibDecoder::new(data).read_to_end(&mut out).unwrap();
    out
}

/// A repository in memory and a daemon that only counts and keeps.
struct World {
    objects: BTreeMap<[u8; 20], (ObjectKind, Vec<u8>)>,
    refs: Vec<RefEntry>,
    head: Reference,
    stored: BTreeMap<String, Vec<u8>>,
    refuse: BTreeMap<String, usize>,
    unreadable: Vec<[u8; 20]>,
    writes: usize,
    most_in_flight: usize,
}

impl World {
    fn new(count: u8) -> World {
        let mut objects = BTreeMap::new();
        for n in 0..count {
            objects.insert([n; 20], (ObjectKind::Blob, vec![n; n as usize]));
        }
        World {
            objects,
            refs: vec![Ok(direct("refs/heads/main", 0))],
            head: Reference {
                name: Some("HEAD".to_string()),
                target: Some(RefTarget::Symbolic(b"refs/heads/main".to_vec())),
                remote: false,
            },
            stored: BTreeMap::new(),
            refuse: BTreeMap::new(),
            unreadable: Vec::new(),
            writes: 0,
            most_in_flight: 0,
        }
    }

    fn files(&self) -> Files {
        let ids = self.objects.keys().map(|bytes| ObjectId::new(*bytes)).collect();
        from_repo(Ok(ids), Ok(self.refs.clone()), Ok(self.head.clone()))
    }

    /// Writes with retries, as the program around the library does.
    fn write(&mut self, path: String, data: &[u8], attempts: usize) -> Result<(), Error> {
        let mut state = write_file(path, data.len(), attempts)?;
        loop {
            let path = state.options().path.clone();
            self.writes += 1;
            let left = self.refuse.entry(path.clone()).or_insert(0);
            let reply = if *left > 0 {
                *left -= 1;
                Reply::Refused { text: format!("refused {}", path) }
            } else {
                self.stored.insert(path, data.to_vec());
                Reply::Stored { size: data.len() }
            };
            match state.replied(reply) {
                Verdict::Done => return Ok(()),
                Verdict::Retry(next) => state = next,
                Verdict::Failed(e) => return Err(e),
            }
        }
    }

    fn work(&mut self, job: Job, attempts: usize) -> (usize, Result<(), Error>) {
        match job {
            Job::Encode { slot, id, path } => {
                if self.unreadable.contains(&id.bytes) {
                    return (slot, Err(Error::Git { text: "object not found".to_string() }));
                }
                let (kind, content) = self.objects[&id.bytes].clone();
                match File::from_object(&id, kind, &content) {
                    Ok(file) => {
                        assert!(path.ends_with(&file.path));
                        (slot, self.write(path, &file.data, attempts))
                    }
                    Err(e) => (slot, Err(e)),
                }
            }
            Job::Publish { slot, path, data } => (slot, self.write(path, &data, attempts)),
        }
    }

    /// Runs an export to its end. Operations end in the order that `pick`
    /// chooses among those in flight.
    fn export(
        &mut self,
        namespace: &str,
        limit: usize,
        attempts: usize,
        pick: fn(usize) -> usize,
    ) -> Result<String, Vec<Failure>> {
        let mut export = match git2ipfs(self.files(), namespace.to_string(), limit) {
            Ok(export) => export,
            Err(e) => return Err(vec![Failure { path: String::new(), cause: e }]),
        };
        let mut flying: VecDeque<Job> = VecDeque::new();
        loop {
            assert_eq!(export.in_flight(), flying.len());
            assert!(flying.len() <= limit);
            self.most_in_flight = self.most_in_flight.max(flying.len());
            match export.next() {
                Next::Start(then, job) => {
                    flying.push_back(job);
                    export = then;
                }
                Next::Wait(then) => {
                    let job = flying.remove(pick(flying.len())).unwrap();
                    let (slot, outcome) = self.work(job, attempts);
                    export = then.complete(slot, outcome);
                }
                Next::Stat(resolve) => {
                    assert!(flying.is_empty());
                    assert_eq!(resolve.path(), root_of(namespace));
                    assert_eq!(resolve.published(), self.objects.len() + 2);
                    let root = format!("root-of-{}", resolve.path());
                    return resolve.resolved(Ok(root));
                }
                Next::Failed(failures) => {
                    assert!(flying.is_empty());
                    assert!(!failures.is_empty());
                    return Err(failures);
                }
            }
        }
    }
}

fn oldest(_: usize) -> usize {
    0
}

fn newest(n: usize) -> usize {
    n - 1
}

fn middle(n: usize) -> usize {
    n / 2
}

const NS: &str = "abcdefghij012345678";
const OTHER: &str = "ZYXWVUTSRQ987654321";

#[test]
fn export_publishes_every_file_under_the_namespace() {
    let mut world = World::new(5);
    let root = world.export(NS, 3, 1, oldest).unwrap();
    assert_eq!(root, format!("root-of-/{}", NS));
    assert_eq!(world.stored.len(), 7);
    for n in 0..5u8 {
        let h = hex(n);
        let path = format!("/{}//objects/{}/{}", NS, &h[..2], &h[2..]);
        let mut expected = format!("blob {}\0", n).into_bytes();
        expected.extend(vec![n; n as usize]);
        assert_eq!(inflate(&world.stored[&path]), expected);
    }
    assert_eq!(
        world.stored[&format!("/{}//info/refs", NS)],
        format!("{}\trefs/heads/main\n", hex(0)).into_bytes()
    );
    assert_eq!(world.stored[&format!("/{}//HEAD", NS)], b"ref: refs/heads/main\n".to_vec());
}

#[test]
fn never_more_in_flight_than_the_limit() {
    for limit in [1usize, 2, 3, 7, 64] {
        for pick in [oldest as fn(usize) -> usize, newest, middle] {
            let mut world = World::new(20);
            world.export(NS, limit, 1, pick).unwrap();
            assert!(world.most_in_flight <= limit);
            assert_eq!(world.most_in_flight, limit.min(22));
            assert_eq!(world.stored.len(), 22);
        }
    }
}

#[test]
fn two_namespaces_hold_the_same_bytes() {
    let mut one = World::new(9);
    let mut two = World::new(9);
    one.export(NS, 4, 1, oldest).unwrap();
    two.export(OTHER, 2, 1, newest).unwrap();
    assert_eq!(one.stored.len(), two.stored.len());
    for (path, data) in one.stored.iter() {
        let inside = path.strip_prefix(&format!("/{}/", NS)).unwrap();
        assert_eq!(&two.stored[&path_in(OTHER, inside)], data);
    }
}

#[test]
fn nameless_reference_fails_before_anything_is_published() {
    let mut world = World::new(6);
    world.refs.push(Ok(Reference { name: None, target: None, remote: false }));
    let failures = world.export(NS, 4, 3, oldest).unwrap_err();
    assert_eq!(
        failures,
        vec![Failure {
            path: "/info/refs".to_string(),
            cause: Error::Ref { source: RefError::RefHasNoName }
        }]
    );
    assert_eq!(world.writes, 0);
    assert!(world.stored.is_empty());
    assert_eq!(world.most_in_flight, 0);
}

#[test]
fn every_file_that_cannot_be_made_is_reported_and_nothing_is_published() {
    let mut world = World::new(6);
    world.refs.push(Ok(Reference { name: None, target: None, remote: false }));
    world.head = Reference { name: None, target: None, remote: false };
    assert_eq!(world.files().len(), 8);
    for limit in [1usize, 3, 100] {
        let failures = world.export(NS, limit, 3, newest).unwrap_err();
        assert_eq!(
            failures,
            vec![
                Failure {
                    path: "/info/refs".to_string(),
                    cause: Error::Ref { source: RefError::RefHasNoName }
                },
                Failure { path: "/HEAD".to_string(), cause: Error::NoReferenceKind }
            ]
        );
    }
    assert_eq!(world.writes, 0);
    assert!(world.stored.is_empty());
    assert_eq!(world.most_in_flight, 0);
}

#[test]
fn repository_that_cannot_be_read_fails_with_that_alone() {
    let files = from_repo(
        Err(Error::Git { text: "corrupt".to_string() }),
        Ok(Vec::new()),
        Ok(direct("HEAD", 1)),
    );
    match git2ipfs(files, NS.to_string(), 2).unwrap().next() {
        Next::Failed(failures) => assert_eq!(
            failures,
            vec![Failure { path: "/objects".to_string(), cause: Error::Git { text: "corrupt".to_string() } }]
        ),
        other => panic!("unexpected: {:?}", other),
    }
}

#[test]
fn refused_writes_are_tried_again() {
    let mut world = World::new(3);
    let h = hex(1);
    let path = format!("/{}//objects/{}/{}", NS, &h[..2], &h[2..]);
    world.refuse.insert(path.clone(), RETRIES);
    world.export(NS, 2, RETRIES + 1, oldest).unwrap();
    assert!(world.stored.contains_key(&path));
    assert_eq!(world.writes, 5 + RETRIES);
}

#[test]
fn a_file_that_stays_refused_fails_the_export_with_its_path() {
    let mut world = World::new(4);
    let h = hex(0);
    let inside = format!("/objects/{}/{}", &h[..2], &h[2..]);
    let path = path_in(NS, &inside);
    world.refuse.insert(path.clone(), 3);
    let failures = world.export(NS, 1, 3, oldest).unwrap_err();
    assert_eq!(
        failures,
        vec![Failure { path: inside, cause: Error::Ipfs { text: format!("refused {}", path) } }]
    );
    assert_eq!(world.writes, 3);
    assert!(world.stored.is_empty());
}

#[test]
fn operations_in_flight_drain_and_every_failure_is_reported() {
    let mut world = World::new(10);
    world.unreadable.push([0; 20]);
    world.unreadable.push([2; 20]);
    let failures = world.export(NS, 3, 1, oldest).unwrap_err();
    let paths: Vec<&str> = failures.iter().map(|f| f.path.as_str()).collect();
    let h0 = hex(0);
    let h2 = hex(2);
    assert_eq!(
        paths,
        vec![
            format!("/objects/{}/{}", &h0[..2], &h0[2..]),
            format!("/objects/{}/{}", &h2[..2], &h2[2..])
        ]
    );
    assert!(failures.iter().all(|f| f.cause == Error::Git { text: "object not found".to_string() }));
    assert_eq!(world.stored.len(), 1);
    assert_eq!(world.most_in_flight, 3);
}

#[test]
fn zero_concurrency_is_refused() {
    let world = World::new(1);
    let r = git2ipfs(world.files(), NS.to_string(), 0);
    assert!(matches!(r, Err(Error::Config { source: ConfigError::ConcurrencyLimit })));
}

#[test]
fn namespace_must_be_one_generated_segment() {
    let world = World::new(1);
    for bad in ["", "short", "abcdefghij/12345678", "abcdefghij0123456789"] {
        let r = git2ipfs(world.files(), bad.to_string(), 4);
        assert!(matches!(r, Err(Error::Config { source: ConfigError::Namespace })));
    }
    assert!(git2ipfs(world.files(), gen_temp_dir_path(99), QUEUE_SIZE).is_ok());
}

#[test]
fn completing_an_unknown_operation_changes_nothing() {
    let world = World::new(2);
    let export = git2ipfs(world.files(), NS.to_string(), 2).unwrap();
    let export = export.complete(0, Err(Error::Custom { text: "stray".to_string() }));
    assert_eq!(export.in_flight(), 0);
    let (export, job) = match export.next() {
        Next::Start(export, job) => (export, job),
        other => panic!("unexpected: {:?}", other),
    };
    assert!(matches!(job, Job::Encode { slot: 0, .. }));
    let export = export.complete(5, Ok(()));
    assert_eq!(export.in_flight(), 1);
    let export = export.complete(0, Ok(()));
    assert_eq!(export.in_flight(), 0);
    let export = export.complete(0, Ok(()));
    assert_eq!(export.in_flight(), 0);
    assert!(matches!(export.next(), Next::Start(_, Job::Encode { slot: 1, .. })));
}

#[test]
fn failed_root_lookup_fails_the_export() {
    let mut files = Files::new();
    assert_eq!(files.len(), 0);
    files = match git2ipfs(files, NS.to_string(), 1).unwrap().next() {
        Next::Stat(resolve) => {
            assert_eq!(resolve.published(), 0);
            let failures = resolve.resolved(Err(Error::ipfs("no such file".to_string()))).unwrap_err();
            assert_eq!(
                failures,
                vec![Failure {
                    path: format!("/{}", NS),
                    cause: Error::Ipfs { text: "no such file".to_string() }
                }]
            );
            Files::new()
        }
        other => panic!("unexpected: {:?}", other),
    };
    assert_eq!(files.len(), 0);
}

#[test]
fn write_asks_to_create_the_file_and_its_parents() {
    let state = write_file("/ns//HEAD".to_string(), 5, 2).unwrap();
    let options = state.options();
    assert_eq!(options.path, "/ns//HEAD");
    assert!(options.create);
    assert!(options.parents);
    assert!(options.truncate);
    assert_eq!(options.cid_version, 1);
    assert_eq!(state.attempt(), 1);
}

#[test]
fn write_is_done_when_the_sizes_agree() {
    let state = write_file("/p".to_string(), 5, 1).unwrap();
    assert!(matches!(state.replied(Reply::Stored { size: 5 }), Verdict::Done));
}

#[test]
fn mismatched_sizes_are_not_tried_again() {
    let state = write_file("/p".to_string(), 5, 10).unwrap();
    match state.replied(Reply::Stored { size: 4 }) {
        Verdict::Failed(e) => {
            assert_eq!(e, Error::MismatchedSizes { data: 5, ipfs: 4 });
            assert!(!e.is_transient());
        }
        other => panic!("unexpected: {:?}", other),
    }
}

#[test]
fn refusals_are_tried_again_up_to_the_last_attempt() {
    let mut state = write_file("/p".to_string(), 1, 3).unwrap();
    for attempt in 1..3 {
        assert_eq!(state.attempt(), attempt);
        state = match state.replied(Reply::Refused { text: "busy".to_string() }) {
            Verdict::Retry(next) => next,
            other => panic!("unexpected: {:?}", other),
        };
        assert_eq!(state.options().path, "/p");
    }
    assert_eq!(state.attempt(), 3);
    match state.replied(Reply::Refused { text: "still busy".to_string() }) {
        Verdict::Failed(e) => {
            assert_eq!(e, Error::Ipfs { text: "still busy".to_string() });
            assert!(e.is_transient());
        }
        other => panic!("unexpected: {:?}", other),
    }
}

#[test]
fn zero_attempts_are_refused() {
    assert!(matches!(
        write_file("/p".to_string(), 1, 0),
        Err(Error::Config { source: ConfigError::MaxAttempts })
    ));
}

#[test]
fn paths_lie_under_the_namespace() {
    assert_eq!(path_in("ns", "/objects/ab/cd"), "/ns//objects/ab/cd");
    assert_eq!(path_in("ns", "/HEAD"), "/ns//HEAD");
    assert_eq!(root_of("ns"), "/ns");
    assert_eq!(RETRIES, 10);
    assert_eq!(QUEUE_SIZE, 4096);
}

#[test]
fn errors_are_built_from_their_text() {
    assert_eq!(Error::ipfs("a".to_string()), Error::Ipfs { text: "a".to_string() });
    assert_eq!(Error::custom("b".to_string()), Error::Custom { text: "b".to_string() });
    let e = Error::Ref { source: RefError::RefHasNoTarget { name: "n".to_string() } };
    assert_eq!(e.clone(), e);
    assert!(!e.is_transient());
    assert!(!Error::Git { text: String::new() }.is_transient());
}
