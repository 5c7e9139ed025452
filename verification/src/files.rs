//! The files of an export: each a path and a payload.

use crate::bridge::{bytes_contents, bytes_from_vec, zlib_best, zlib_compress};
use crate::error::{Error, Failure, FailureView};
use crate::git::{
    append_bytes, direct_head, first_failure, generate_info_refs, generate_ref, head_content,
    listing, prefix_for_object_type, symbolic_head, ObjectKind, RefEntry, RefTarget, Reference,
};
use crate::oid::ObjectId;
use bytes::Bytes;
use std::collections::VecDeque;
use vstd::prelude::*;
use vstd::string::*;
use vstd::utf8::*;

verus! {

/// A pair of path and data
#[derive(Clone, Debug, PartialEq, Eq)]
pub struct File<P, D> {
    pub path: P,
    pub data: D,
}

impl<P, D> File<P, D> {
    /// The file at `path` that holds `data`.
    pub fn new(path: P, data: D) -> (file: Self)
        ensures
            file.path == path,
            file.data == data,
    {
        Self { path, data }
    }
}

/// The decimal digits of `n`, in ASCII, without leading zeros.
pub open spec fn decimal(n: nat) -> Seq<u8>
    decreases n,
{
    if n < 10 {
        seq![(48 + n) as u8]
    } else {
        decimal(n / 10).push((48 + n % 10) as u8)
    }
}

/// The number that decimal digits spell.
pub open spec fn decimal_value(digits: Seq<u8>) -> nat
    decreases digits.len(),
{
    if digits.len() == 0 {
        0
    } else {
        (decimal_value(digits.drop_last()) * 10 + (digits.last() - 48)) as nat
    }
}

/// The digits of a number are ASCII digits that spell it, and they begin
/// with a zero only for the number zero.
pub proof fn lemma_decimal_spells(n: nat)
    ensures
        decimal(n).len() >= 1,
        forall|i: int| 0 <= i < decimal(n).len() ==> 48 <= #[trigger] decimal(n)[i] <= 57,
        decimal(n)[0] == 48 <==> n == 0,
        decimal_value(decimal(n)) == n,
    decreases n,
{
    if n < 10 {
        let digits = decimal(n);
        assert(digits.drop_last().len() == 0);
        assert(decimal_value(digits.drop_last()) == 0);
    } else {
        lemma_decimal_spells(n / 10);
        let front = decimal(n / 10);
        let digits = front.push((48 + n % 10) as u8);
        assert(digits.drop_last() =~= front);
        assert(digits[0] == front[0]);
    }
}

/// A loose object before compression: the word of its kind, the length of
/// its content in decimal, a zero byte, and the content.
pub open spec fn loose_object(kind: ObjectKind, content: Seq<u8>) -> Seq<u8> {
    encode_utf8(kind.prefix()) + decimal(content.len()) + seq![0u8] + content
}

/// A loose object can be read back: its first zero byte ends the header,
/// the digits before it spell the length of the content, and the content
/// is all that follows.
pub proof fn lemma_loose_object_reads_back(kind: ObjectKind, content: Seq<u8>)
    ensures
        ({
            let body = loose_object(kind, content);
            let word = encode_utf8(kind.prefix()).len() as int;
            let header = word + decimal(content.len()).len();
            &&& body.len() == header + 1 + content.len()
            &&& body[header] == 0
            &&& forall|i: int| 0 <= i < header ==> #[trigger] body[i] != 0
            &&& body.take(word) == encode_utf8(kind.prefix())
            &&& decimal_value(body.subrange(word, header)) == content.len()
            &&& body.skip(header + 1) == content
        }),
{
    let body = loose_object(kind, content);
    let prefix = encode_utf8(kind.prefix());
    let digits = decimal(content.len());
    let word = prefix.len() as int;
    let header = word + digits.len();
    crate::git::lemma_prefix_bytes(kind);
    lemma_decimal_spells(content.len());
    assert forall|i: int| 0 <= i < header implies #[trigger] body[i] != 0 by {
        if i < word {
            assert(body[i] == prefix[i]);
        } else {
            assert(body[i] == digits[i - word]);
        }
    }
    assert(body.take(word) =~= prefix);
    assert(body.subrange(word, header) =~= digits);
    assert(body.skip(header + 1) =~= content);
}

/// Where the object `id` lies: under `/objects`, in the directory named by
/// its first two hexadecimal digits, in the file named by the other
/// thirty-eight.
pub open spec fn object_path(id: ObjectId) -> Seq<char> {
    "/objects/"@ + id.hex().take(2) + "/"@ + id.hex().skip(2)
}

/// The path of an object spells its id: behind `/objects/` stand the first
/// two digits of the id, a slash, and the other thirty-eight, so that the
/// directory and the file name together are the id in hexadecimal.
pub proof fn lemma_object_path_spells_id(id: ObjectId)
    ensures
        id.hex().len() == 40,
        object_path(id).len() == 50,
        object_path(id).take(9) == "/objects/"@,
        object_path(id)[11] == '/',
        object_path(id).subrange(9, 11) + object_path(id).skip(12) == id.hex(),
{
    reveal_strlit("/objects/");
    reveal_strlit("/");
    let path = object_path(id);
    assert(path.take(9) =~= "/objects/"@);
    assert(path.subrange(9, 11) + path.skip(12) =~= id.hex());
}

/// Two objects lie at the same path only if they are the same object.
pub proof fn lemma_object_paths_differ(a: ObjectId, b: ObjectId)
    requires
        object_path(a) == object_path(b),
    ensures
        a@ == b@,
{
    lemma_object_path_spells_id(a);
    lemma_object_path_spells_id(b);
    crate::oid::lemma_hex_tells_apart(a@, b@);
}

/// The decimal digits of `n`, in ASCII.
pub fn decimal_bytes(n: usize) -> (digits: Vec<u8>)
    ensures
        digits@ == decimal(n as nat),
    decreases n,
{
    if n < 10 {
        let mut digits: Vec<u8> = Vec::new();
        digits.push(48 + n as u8);
        assert(digits@ =~= decimal(n as nat));
        digits
    } else {
        let mut digits = decimal_bytes(n / 10);
        digits.push(48 + (n % 10) as u8);
        digits
    }
}

/// A loose object before compression.
pub fn encode_object(kind: ObjectKind, content: &[u8]) -> (body: Vec<u8>)
    ensures
        body@ == loose_object(kind, content@),
{
    let mut body = prefix_for_object_type(kind);
    let digits = decimal_bytes(content.len());
    append_bytes(&mut body, digits.as_slice());
    body.push(0u8);
    append_bytes(&mut body, content);
    body
}

/// Where the object `id` lies.
pub fn path_of_object(id: &ObjectId) -> (path: String)
    ensures
        path@ == object_path(*id),
{
    let mut path = String::from_str("/objects/");
    let dir = id.hex_range(0, 1);
    path.append(dir.as_str());
    path.append("/");
    let name = id.hex_range(1, 20);
    path.append(name.as_str());
    assert(path@ =~= object_path(*id));
    path
}

impl File<String, Bytes> {
    /// The file of the object `id`, from the outcome of compressing it: the
    /// compressed bytes at the object's path, or the failure of the
    /// compressor in its own words.
    pub fn from_compressed(id: &ObjectId, compressed: Result<Vec<u8>, std::io::Error>) -> (r:
        Result<Self, Error>)
        ensures
            compressed matches Ok(out) ==> (r matches Ok(file) && file.path@ == object_path(*id)
                && bytes_contents(file.data) == out@),
            compressed matches Err(e) ==> (r matches Err(Error::Io { text })
                && to_string_from_display_ensures::<std::io::Error>(&e, text)),
    {
        match compressed {
            Ok(out) => Ok(File::new(path_of_object(id), bytes_from_vec(out))),
            Err(e) => Err(Error::Io { text: e.to_string() }),
        }
    }

    /// The file that holds the object `id`, which is of the given kind and
    /// has the given content: the loose object, compressed by zlib at its
    /// highest level, at the object's path.
    ///
    /// This fails exactly where the compressor does, and then with what the
    /// compressor said.
    pub fn from_object(id: &ObjectId, kind: ObjectKind, content: &[u8]) -> (r: Result<Self, Error>)
        ensures
            match zlib_best(loose_object(kind, content@)) {
                Some(out) => r matches Ok(file) && file.path@ == object_path(*id)
                    && bytes_contents(file.data) == out,
                None => r matches Err(e) && e is Io,
            },
    {
        let body = encode_object(kind, content);
        File::from_compressed(id, zlib_compress(body.as_slice()))
    }
}

impl<P> File<P, Bytes> {
    /// The file at `path` that tells where the given reference points: see
    /// `generate_ref`.
    pub fn from_reference(path: P, reference: &Reference) -> (r: Result<Self, Error>)
        ensures
            r matches Ok(file) ==> file.path == path,
            reference.target is None ==> r == Err::<Self, Error>(Error::NoReferenceKind),
            reference.target matches Some(RefTarget::Direct(id)) ==> (r matches Ok(file)
                && bytes_contents(file.data) == direct_head(id)),
            reference.target matches Some(RefTarget::Symbolic(target)) ==> (if valid_utf8(
                target@,
            ) {
                r matches Ok(file) && bytes_contents(file.data) == symbolic_head(target@)
            } else {
                r matches Err(Error::FromUtf8 { .. })
            }),
    {
        match generate_ref(reference) {
            Ok(data) => Ok(File::new(path, bytes_from_vec(data))),
            Err(e) => Err(e),
        }
    }
}

impl File<&'static str, Bytes> {
    /// The file `/info/refs`, which lists the references: see
    /// `generate_info_refs`.
    pub fn info_refs(references: Vec<RefEntry>) -> (r: Result<Self, Error>)
        ensures
            first_failure(references@) matches Some(e) ==> r == Err::<Self, Error>(e),
            first_failure(references@) is None ==> (r matches Ok(file) && file.path@
                == "/info/refs"@ && bytes_contents(file.data) == listing(references@)),
    {
        match generate_info_refs(references) {
            Ok(data) => Ok(File::new("/info/refs", bytes_from_vec(data))),
            Err(e) => Err(e),
        }
    }
}

/// One position of an export.
#[derive(Debug)]
pub enum Entry {
    /// An object that is still to be read, encoded and published.
    Object(ObjectId),
    /// A file that is ready to be published.
    Ready(File<String, Bytes>),
    /// A file that cannot be made.
    Failed(Failure),
}

/// An `Entry` with its paths and payloads as sequences.
pub enum EntryView {
    Object(ObjectId),
    Ready { path: Seq<char>, data: Seq<u8> },
    Failed(FailureView),
}

impl View for Entry {
    type V = EntryView;

    open spec fn view(&self) -> EntryView {
        match self {
            Entry::Object(id) => EntryView::Object(*id),
            Entry::Ready(file) => EntryView::Ready {
                path: file.path@,
                data: bytes_contents(file.data),
            },
            Entry::Failed(failure) => EntryView::Failed(failure@),
        }
    }
}

/// The files of one export, in the order in which they are published. Each
/// can be taken once.
#[derive(Debug)]
pub struct Files {
    queue: VecDeque<Entry>,
}

impl View for Files {
    type V = Seq<EntryView>;

    closed spec fn view(&self) -> Seq<EntryView> {
        Seq::new(self.queue@.len(), |i: int| self.queue@[i]@)
    }
}

impl Files {
    /// No files.
    pub fn new() -> (files: Self)
        ensures
            files@ == Seq::<EntryView>::empty(),
    {
        let files = Files { queue: VecDeque::new() };
        assert(files@ =~= Seq::<EntryView>::empty());
        files
    }

    /// Puts `entry` behind the others.
    pub fn push(&mut self, entry: Entry)
        ensures
            final(self)@ == old(self)@.push(entry@),
    {
        self.queue.push_back(entry);
        assert(self@ =~= old(self)@.push(entry@));
    }

    /// The files that are left can be counted.
    pub proof fn lemma_len_fits(self)
        ensures
            self@.len() <= usize::MAX,
    {
        vstd::std_specs::vecdeque::axiom_spec_len(&self.queue);
    }

    /// Whether one of the files that are left cannot be made.
    pub fn has_failed(&self) -> (b: bool)
        ensures
            b == (failures_in(self@).len() > 0),
    {
        let mut i: usize = 0;
        while i < self.queue.len()
            invariant
                i <= self.queue.len(),
                failures_in(self@.take(i as int)).len() == 0,
            decreases self.queue.len() - i,
        {
            proof {
                assert(self@.take(i + 1).drop_last() =~= self@.take(i as int));
                assert(self@.take(i + 1).last() == self.queue@[i as int]@);
            }
            if let Entry::Failed(_) = &self.queue[i] {
                proof {
                    lemma_failures_concat(self@.take(i + 1), self@.skip(i + 1));
                    assert(self@.take(i + 1) + self@.skip(i + 1) =~= self@);
                }
                return true;
            }
            i += 1;
        }
        assert(self@.take(self.queue.len() as int) =~= self@);
        false
    }

    /// The number of files that are left.
    pub fn len(&self) -> (n: usize)
        ensures
            n == self@.len(),
    {
        self.queue.len()
    }

    /// Takes the first of the files that are left.
    pub fn next(&mut self) -> (entry: Option<Entry>)
        ensures
            old(self)@.len() == 0 ==> entry is None && final(self)@ == old(self)@,
            old(self)@.len() > 0 ==> (entry matches Some(e) && e@ == old(self)@[0] && final(self)@
                == old(self)@.drop_first()),
    {
        let entry = self.queue.pop_front();
        assert(self@ =~= if old(self)@.len() == 0 {
            old(self)@
        } else {
            old(self)@.drop_first()
        });
        entry
    }
}

/// The entries that cannot be made, in their order.
pub open spec fn failures_in(entries: Seq<EntryView>) -> Seq<FailureView>
    decreases entries.len(),
{
    if entries.len() == 0 {
        Seq::empty()
    } else {
        match entries.last() {
            EntryView::Failed(failure) => failures_in(entries.drop_last()).push(failure),
            _ => failures_in(entries.drop_last()),
        }
    }
}

/// The failures of two courses of entries, one after the other.
pub proof fn lemma_failures_concat(a: Seq<EntryView>, b: Seq<EntryView>)
    ensures
        failures_in(a + b) == failures_in(a) + failures_in(b),
    decreases b.len(),
{
    if b.len() == 0 {
        assert(a + b =~= a);
        assert(failures_in(a) + failures_in(b) =~= failures_in(a));
    } else {
        lemma_failures_concat(a, b.drop_last());
        assert((a + b).drop_last() =~= a + b.drop_last());
        assert((a + b).last() == b.last());
        match b.last() {
            EntryView::Failed(failure) => {
                assert(failures_in(a + b) =~= failures_in(a) + failures_in(b));
            },
            _ => {},
        }
    }
}

/// Entries hold a failure exactly if one of them is a failure, and every
/// failure they hold is one of them.
pub proof fn lemma_failures_are_failed_entries(entries: Seq<EntryView>)
    ensures
        failures_in(entries).len() <= entries.len(),
        failures_in(entries).len() == 0 <==> forall|i: int|
            0 <= i < entries.len() ==> !(#[trigger] entries[i] is Failed),
        forall|k: int|
            0 <= k < failures_in(entries).len() ==> entries.contains(
                EntryView::Failed(#[trigger] failures_in(entries)[k]),
            ),
    decreases entries.len(),
{
    if entries.len() > 0 {
        let front = entries.drop_last();
        lemma_failures_are_failed_entries(front);
        assert(entries[entries.len() - 1] == entries.last());
        if failures_in(entries).len() == 0 {
            assert forall|i: int| 0 <= i < entries.len() implies !(#[trigger] entries[i]
                is Failed) by {
                if i < front.len() {
                    assert(front[i] == entries[i]);
                }
            }
        } else if !(entries.last() is Failed) {
            let i = choose|i: int| 0 <= i < front.len() && #[trigger] front[i] is Failed;
            assert(entries[i] == front[i]);
        }
        assert forall|k: int| 0 <= k < failures_in(entries).len() implies entries.contains(
            EntryView::Failed(#[trigger] failures_in(entries)[k]),
        ) by {
            if k < failures_in(front).len() {
                let found = EntryView::Failed(failures_in(front)[k]);
                let i = choose|i: int| 0 <= i < front.len() && front[i] == found;
                assert(entries[i] == found);
            }
        }
    }
}

/// The entry for a file at `path` that cannot be made because of `cause`.
pub open spec fn failed_entry(path: Seq<char>, cause: Error) -> EntryView {
    EntryView::Failed(FailureView { path, cause })
}

/// One entry for each id, in the order of the ids.
pub open spec fn object_entries(oids: Seq<ObjectId>) -> Seq<EntryView> {
    Seq::new(oids.len(), |i: int| EntryView::Object(oids[i]))
}

/// The entry for a failure at the path that `path` spells.
fn failed(path: &str, cause: Error) -> (entry: Entry)
    ensures
        entry@ == failed_entry(path@, cause),
{
    Entry::Failed(Failure { path: String::from_str(path), cause })
}

/// An entry for each of the given objects. Nothing is read or encoded yet:
/// that happens when an entry is taken and worked on.
pub fn objects(oids: Vec<ObjectId>) -> (files: Files)
    ensures
        files@ == object_entries(oids@),
{
    let mut files = Files::new();
    let mut i: usize = 0;
    while i < oids.len()
        invariant
            i <= oids.len(),
            files@ == object_entries(oids@.take(i as int)),
        decreases oids.len() - i,
    {
        files.push(Entry::Object(oids[i]));
        i += 1;
        assert(files@ =~= object_entries(oids@.take(i as int)));
    }
    assert(oids@.take(oids.len() as int) =~= oids@);
    files
}

/// The entry for `/info/refs`: the reference listing, or the failure of
/// the first reference that cannot be listed.
pub open spec fn listing_entry(refs: Seq<RefEntry>) -> EntryView {
    match first_failure(refs) {
        Some(e) => failed_entry("/info/refs"@, e),
        None => EntryView::Ready { path: "/info/refs"@, data: listing(refs) },
    }
}

/// Whether `entry` is the entry for `/HEAD` of a repository whose `HEAD` is
/// the given reference: its content, or why there is none.
pub open spec fn is_head_entry(entry: EntryView, head: Reference) -> bool {
    match head_content(head) {
        Some(data) => entry == (EntryView::Ready { path: "/HEAD"@, data }),
        None => {
            &&& entry matches EntryView::Failed(f)
            &&& f.path == "/HEAD"@
            &&& if head.target is None {
                f.cause == Error::NoReferenceKind
            } else {
                f.cause is FromUtf8
            }
        },
    }
}

/// The entry for `/info/refs`: see `listing_entry`.
pub fn info_refs(refs: Vec<RefEntry>) -> (entry: Entry)
    ensures
        entry@ == listing_entry(refs@),
{
    match File::info_refs(refs) {
        Ok(file) => Entry::Ready(File::new(String::from_str(file.path), file.data)),
        Err(e) => failed("/info/refs", e),
    }
}

/// The entry for `/HEAD`: where the given reference points, or why that
/// cannot be written down.
pub fn head(r: &Reference) -> (entry: Entry)
    ensures
        is_head_entry(entry@, *r),
{
    match File::from_reference(String::from_str("/HEAD"), r) {
        Ok(file) => Entry::Ready(file),
        Err(e) => failed("/HEAD", e),
    }
}

/// Whether `files` are the files of the export of a repository, given what
/// came of reading its object ids, its references and its `HEAD`.
///
/// Where all three could be read, these are an entry for each object, in
/// the order of the ids, then the entry for `/info/refs`, then the entry
/// for `/HEAD`; each of the last two holds its file, or stands as a failure
/// in its place. Where a read failed, there is one entry: the failure of
/// the first read that did.
pub open spec fn is_export(
    files: Seq<EntryView>,
    oids: Result<Vec<ObjectId>, Error>,
    refs: Result<Vec<RefEntry>, Error>,
    head: Result<Reference, Error>,
) -> bool {
    match (oids, refs, head) {
        (Err(e), _, _) => files == seq![failed_entry("/objects"@, e)],
        (Ok(_), Err(e), _) => files == seq![failed_entry("/info/refs"@, e)],
        (Ok(_), Ok(_), Err(e)) => files == seq![failed_entry("/HEAD"@, e)],
        (Ok(o), Ok(r), Ok(h)) => {
            &&& files.len() == o@.len() + 2
            &&& files.take(o@.len() as int) == object_entries(o@)
            &&& files[o@.len() as int] == listing_entry(r@)
            &&& is_head_entry(files[o@.len() as int + 1], h)
        },
    }
}

/// The one file of an export whose repository could not be read.
fn only(entry: Entry) -> (files: Files)
    ensures
        files@ == seq![entry@],
{
    let mut files = Files::new();
    files.push(entry);
    assert(files@ =~= seq![entry@]);
    files
}

/// The files of the export of a repository, from what came of reading its
/// object ids, its references and its `HEAD`: see `is_export`.
///
/// The two reference files are made here. The objects are left to be
/// encoded one by one, as they are taken.
pub fn from_repo(
    oids: Result<Vec<ObjectId>, Error>,
    refs: Result<Vec<RefEntry>, Error>,
    head: Result<Reference, Error>,
) -> (files: Files)
    ensures
        is_export(files@, oids, refs, head),
{
    let oids = match oids {
        Ok(oids) => oids,
        Err(e) => {
            return only(failed("/objects", e));
        },
    };
    let refs = match refs {
        Ok(refs) => refs,
        Err(e) => {
            return only(failed("/info/refs", e));
        },
    };
    let head_reference = match head {
        Ok(reference) => reference,
        Err(e) => {
            return only(failed("/HEAD", e));
        },
    };
    let listing_entry = info_refs(refs);
    let head_entry = self::head(&head_reference);
    let mut files = objects(oids);
    files.push(listing_entry);
    files.push(head_entry);
    assert(files@.take(oids@.len() as int) =~= object_entries(oids@));
    files
}

/// The failures among the files of an export whose repository could be
/// read: that of `/info/refs` if a reference cannot be listed, then that of
/// `/HEAD` if it cannot be written, and no other.
pub proof fn lemma_failures_of_export(
    files: Seq<EntryView>,
    oids: Vec<ObjectId>,
    refs: Vec<RefEntry>,
    head: Reference,
)
    requires
        is_export(files, Ok(oids), Ok(refs), Ok(head)),
    ensures
        failures_in(files).len() == (if first_failure(refs@) is Some {
            1nat
        } else {
            0nat
        }) + (if head_content(head) is None {
            1nat
        } else {
            0nat
        }),
        first_failure(refs@) matches Some(e) ==> failures_in(files)[0] == (FailureView {
            path: "/info/refs"@,
            cause: e,
        }),
        head_content(head) is None ==> EntryView::Failed(failures_in(files).last()) == files.last()
            && failures_in(files).last().path == "/HEAD"@,
{
    let n = oids@.len() as int;
    let front = files.take(n);
    let listed = seq![files[n]];
    let last = seq![files[n + 1]];
    assert(files =~= (front + listed) + last);
    lemma_failures_concat(front + listed, last);
    lemma_failures_concat(front, listed);
    lemma_failures_are_failed_entries(front);
    assert(failures_in(front).len() == 0);
    assert(listed.drop_last() =~= Seq::<EntryView>::empty());
    assert(last.drop_last() =~= Seq::<EntryView>::empty());
    assert(failures_in(listed.drop_last()).len() == 0);
    assert(failures_in(last.drop_last()).len() == 0);
    assert(listed.last() == files[n]);
    assert(last.last() == files[n + 1]);
    assert(files.last() == files[n + 1]);
}

/// The object entries of an export lie at the paths of the stored ids, and
/// no two of the export's files lie at the same path unless an id was
/// handed over twice.
pub proof fn lemma_export_paths(files: Seq<EntryView>, oids: Vec<ObjectId>, i: int, j: int)
    requires
        files.take(oids@.len() as int) == object_entries(oids@),
        0 <= i < j < oids@.len() <= files.len(),
    ensures
        files[i] == EntryView::Object(oids@[i]),
        files[j] == EntryView::Object(oids@[j]),
        object_path(oids@[i]) == object_path(oids@[j]) ==> oids@[i]@ == oids@[j]@,
{
    let front = files.take(oids@.len() as int);
    assert(front[i] == files[i]);
    assert(front[j] == files[j]);
    if object_path(oids@[i]) == object_path(oids@[j]) {
        lemma_object_paths_differ(oids@[i], oids@[j]);
    }
}

} // verus!
