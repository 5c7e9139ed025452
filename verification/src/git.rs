//! What the export reads of a repository, as plain values, and the two files
//! that are derived from its references.

use crate::bridge::{
    alphanumeric_sample, filter_ok_local, is_alphanumeric, sample_alphanumeric, string_from_utf8,
};
use crate::error::{Error, RefError};
use crate::oid::{hex_bytes, ObjectId};
use vstd::prelude::*;
use vstd::slice::slice_to_vec;
use vstd::string::*;
use vstd::utf8::*;

verus! {

/// The number of characters in the directory name of one run.
pub const TMP_PATH_LEN: usize = 19;

/// The four kinds of object that a repository stores.
#[derive(Clone, Copy, Debug, PartialEq, Eq)]
pub enum ObjectKind {
    Commit,
    Tree,
    Blob,
    Tag,
}

impl ObjectKind {
    /// The word, with its trailing blank, that opens a loose object of this
    /// kind.
    pub open spec fn prefix(self) -> Seq<char> {
        match self {
            ObjectKind::Commit => "commit "@,
            ObjectKind::Tree => "tree "@,
            ObjectKind::Blob => "blob "@,
            ObjectKind::Tag => "tag "@,
        }
    }

    /// The word, with its trailing blank, that opens a loose object of this
    /// kind.
    pub fn prefix_str(&self) -> (s: &'static str)
        ensures
            s@ == self.prefix(),
    {
        match self {
            ObjectKind::Commit => "commit ",
            ObjectKind::Tree => "tree ",
            ObjectKind::Blob => "blob ",
            ObjectKind::Tag => "tag ",
        }
    }
}

/// The word of each kind, byte by byte: `commit `, `tree `, `blob `, `tag `
/// in ASCII.
pub proof fn lemma_prefix_bytes(kind: ObjectKind)
    ensures
        encode_utf8(kind.prefix()) == match kind {
            ObjectKind::Commit => seq![99u8, 111, 109, 109, 105, 116, 32],
            ObjectKind::Tree => seq![116u8, 114, 101, 101, 32],
            ObjectKind::Blob => seq![98u8, 108, 111, 98, 32],
            ObjectKind::Tag => seq![116u8, 97, 103, 32],
        },
{
    reveal_strlit("commit ");
    reveal_strlit("tree ");
    reveal_strlit("blob ");
    reveal_strlit("tag ");
    let word = kind.prefix();
    assert(is_ascii_chars(word));
    is_ascii_chars_encode_utf8(word);
    let bytes = encode_utf8(word);
    match kind {
        ObjectKind::Commit => assert(bytes =~= seq![99u8, 111, 109, 109, 105, 116, 32]),
        ObjectKind::Tree => assert(bytes =~= seq![116u8, 114, 101, 101, 32]),
        ObjectKind::Blob => assert(bytes =~= seq![98u8, 108, 111, 98, 32]),
        ObjectKind::Tag => assert(bytes =~= seq![116u8, 97, 103, 32]),
    }
}

/// The bytes that open a loose object of the given kind.
pub fn prefix_for_object_type(ty: ObjectKind) -> (prefix: Vec<u8>)
    ensures
        prefix@ == encode_utf8(ty.prefix()),
{
    ty.prefix_str().as_bytes_vec()
}

/// What a reference points at.
#[derive(Clone, Debug, PartialEq, Eq)]
pub enum RefTarget {
    /// An object.
    Direct(ObjectId),
    /// Another reference, by its name as the repository recorded it.
    Symbolic(Vec<u8>),
}

/// One reference of a repository.
#[derive(Clone, Debug, PartialEq, Eq)]
pub struct Reference {
    /// The name, if the reference has one that is UTF-8.
    pub name: Option<String>,
    /// The target, if the repository can tell what kind of reference this is.
    pub target: Option<RefTarget>,
    /// Whether this is a remote-tracking reference.
    pub remote: bool,
}

/// One step of walking the references: a reference, or the failure to read
/// one.
pub type RefEntry = Result<Reference, Error>;

impl Reference {
    /// Whether this reference belongs to the repository itself.
    pub fn is_local(&self) -> (b: bool)
        ensures
            b == !self.remote,
    {
        !self.remote
    }
}

/// Whether the reference listing looks at an entry: at every failure, and at
/// every reference that is not remote-tracking.
pub open spec fn is_listed(e: RefEntry) -> bool {
    match e {
        Ok(r) => !r.remote,
        Err(_) => true,
    }
}

/// Why an entry stops the reference listing, if it does.
pub open spec fn entry_failure(e: RefEntry) -> Option<Error> {
    match e {
        Err(err) => Some(err),
        Ok(r) => if r.remote {
            None
        } else {
            match r.name {
                None => Some(Error::Ref { source: RefError::RefHasNoName }),
                Some(name) => match r.target {
                    Some(RefTarget::Direct(_)) => None,
                    _ => Some(Error::Ref { source: RefError::RefHasNoTarget { name } }),
                },
            }
        },
    }
}

/// The line of the listing for a reference that points at `id`: the id in
/// hexadecimal, a tab, the name, a line feed.
pub open spec fn ref_line(id: ObjectId, name: Seq<char>) -> Seq<u8> {
    hex_bytes(id@) + seq![9u8] + encode_utf8(name) + seq![10u8]
}

/// What an entry adds to the listing: one line for a named, direct
/// reference that is not remote-tracking, nothing for any other entry.
pub open spec fn entry_line(e: RefEntry) -> Seq<u8> {
    match e {
        Ok(Reference { name: Some(name), target: Some(RefTarget::Direct(id)), remote: false }) => ref_line(
            id,
            name@,
        ),
        _ => Seq::empty(),
    }
}

/// The lines of all entries, in their order.
pub open spec fn listing(entries: Seq<RefEntry>) -> Seq<u8>
    decreases entries.len(),
{
    if entries.len() == 0 {
        Seq::empty()
    } else {
        listing(entries.drop_last()) + entry_line(entries.last())
    }
}

/// The failure of the first entry that has one.
pub open spec fn first_failure(entries: Seq<RefEntry>) -> Option<Error>
    decreases entries.len(),
{
    if entries.len() == 0 {
        None
    } else {
        match first_failure(entries.drop_last()) {
            Some(e) => Some(e),
            None => entry_failure(entries.last()),
        }
    }
}

/// The lines that an entry adds to the listing: one or none.
pub open spec fn entry_lines(e: RefEntry) -> Seq<Seq<u8>> {
    match e {
        Ok(Reference { name: Some(name), target: Some(RefTarget::Direct(id)), remote: false }) => seq![
            ref_line(id, name@),
        ],
        _ => Seq::empty(),
    }
}

/// The lines of the listing, in the order of the entries.
pub open spec fn lines(entries: Seq<RefEntry>) -> Seq<Seq<u8>>
    decreases entries.len(),
{
    if entries.len() == 0 {
        Seq::empty()
    } else {
        lines(entries.drop_last()) + entry_lines(entries.last())
    }
}

/// Whether an entry is a reference that is not remote-tracking.
pub open spec fn is_local_reference(e: RefEntry) -> bool {
    e matches Ok(r) && !r.remote
}

/// The entry that fails first decides how the walk fails.
pub proof fn lemma_first_failure_is_first(entries: Seq<RefEntry>, i: int)
    requires
        0 <= i < entries.len(),
        entry_failure(entries[i]) is Some,
        forall|j: int| 0 <= j < i ==> entry_failure(#[trigger] entries[j]) is None,
    ensures
        first_failure(entries) == entry_failure(entries[i]),
    decreases entries.len(),
{
    if i == entries.len() - 1 {
        lemma_no_failure(entries.drop_last());
    } else {
        lemma_first_failure_is_first(entries.drop_last(), i);
    }
}

/// A walk fails exactly if one of its entries does.
pub proof fn lemma_no_failure(entries: Seq<RefEntry>)
    ensures
        first_failure(entries) is None <==> forall|j: int|
            0 <= j < entries.len() ==> entry_failure(#[trigger] entries[j]) is None,
    decreases entries.len(),
{
    if entries.len() > 0 {
        let front = entries.drop_last();
        lemma_no_failure(front);
        if first_failure(entries) is None {
            assert forall|j: int| 0 <= j < entries.len() implies entry_failure(
                #[trigger] entries[j],
            ) is None by {
                if j < front.len() {
                    assert(front[j] == entries[j]);
                }
            }
        } else if first_failure(front) is Some {
            let j = choose|j: int| 0 <= j < front.len() && entry_failure(#[trigger] front[j]) is Some;
            assert(entries[j] == front[j]);
        } else {
            assert(entries[entries.len() - 1] == entries.last());
        }
    }
}

/// A local reference without a name, met before anything else has failed,
/// fails the listing for want of a name.
pub proof fn lemma_nameless_reference_fails(entries: Seq<RefEntry>, i: int)
    requires
        0 <= i < entries.len(),
        entries[i] matches Ok(r) && !r.remote && r.name is None,
        forall|j: int| 0 <= j < i ==> entry_failure(#[trigger] entries[j]) is None,
    ensures
        first_failure(entries) == Some(Error::Ref { source: RefError::RefHasNoName }),
{
    lemma_first_failure_is_first(entries, i);
}

/// Every entry adds its own part to the listing and touches no other: a
/// remote-tracking reference adds nothing, and a local reference that has a
/// name and points at an object adds its one line.
pub proof fn lemma_listing_push(entries: Seq<RefEntry>, e: RefEntry)
    ensures
        listing(entries.push(e)) == listing(entries) + entry_line(e),
        lines(entries.push(e)) == lines(entries) + entry_lines(e),
        e matches Ok(r) && r.remote ==> entry_line(e).len() == 0 && entry_lines(e).len() == 0,
        is_local_reference(e) && entry_failure(e) is None ==> entry_lines(e) == seq![entry_line(e)],
{
    assert(entries.push(e).drop_last() =~= entries);
}

/// The listing is its lines, one after the other.
pub proof fn lemma_listing_is_its_lines(entries: Seq<RefEntry>)
    ensures
        listing(entries) == lines(entries).flatten(),
    decreases entries.len(),
{
    if entries.len() > 0 {
        let front = entries.drop_last();
        lemma_listing_is_its_lines(front);
        let added = entry_lines(entries.last());
        if added.len() == 0 {
            assert(lines(front) + added =~= lines(front));
            assert(listing(front) + entry_line(entries.last()) =~= listing(front));
        } else {
            assert(lines(front) + added =~= lines(front).push(entry_line(entries.last())));
            lines(front).lemma_flatten_push(entry_line(entries.last()));
        }
    }
}

/// A listing that does not fail has exactly one line for each reference
/// that is not remote-tracking, and none for any other entry.
pub proof fn lemma_one_line_per_local_reference(entries: Seq<RefEntry>)
    requires
        first_failure(entries) is None,
    ensures
        lines(entries).len() == entries.filter(|e: RefEntry| is_local_reference(e)).len(),
    decreases entries.len(),
{
    reveal(Seq::filter);
    if entries.len() > 0 {
        lemma_one_line_per_local_reference(entries.drop_last());
    }
}

/// The lines of two walks, taken one after the other.
pub proof fn lemma_lines_concat(a: Seq<RefEntry>, b: Seq<RefEntry>)
    ensures
        lines(a + b) == lines(a) + lines(b),
    decreases b.len(),
{
    if b.len() == 0 {
        assert(a + b =~= a);
        assert(lines(a) + lines(b) =~= lines(a));
    } else {
        lemma_lines_concat(a, b.drop_last());
        assert((a + b).drop_last() =~= a + b.drop_last());
        assert((a + b).last() == b.last());
        assert((lines(a) + lines(b.drop_last())) + entry_lines(b.last()) =~= lines(a) + (lines(
            b.drop_last(),
        ) + entry_lines(b.last())));
    }
}

/// The order in which the references are walked does not change which lines
/// the listing has, nor how often it has each.
pub proof fn lemma_lines_regardless_of_order(a: Seq<RefEntry>, b: Seq<RefEntry>)
    requires
        a.to_multiset() == b.to_multiset(),
    ensures
        lines(a).to_multiset() == lines(b).to_multiset(),
    decreases a.len(),
{
    broadcast use vstd::multiset::group_multiset_axioms;

    a.to_multiset_ensures();
    b.to_multiset_ensures();
    if a.len() == 0 {
        assert(b.len() == 0);
    } else {
        let x = a.last();
        let front = a.drop_last();
        assert(a[a.len() - 1] == x);
        assert(a.contains(x));
        vstd::seq_lib::to_multiset_contains(a, x);
        vstd::seq_lib::to_multiset_contains(b, x);
        assert(b.contains(x));
        let k = choose|k: int| 0 <= k < b.len() && b[k] == x;
        let others = b.remove(k);
        assert(front =~= a.remove(a.len() - 1));
        vstd::seq_lib::to_multiset_remove(a, a.len() - 1);
        vstd::seq_lib::to_multiset_remove(b, k);
        lemma_lines_regardless_of_order(front, others);
        let left = b.take(k);
        let right = b.skip(k + 1);
        assert(b =~= (left + seq![x]) + right);
        assert(others =~= left + right);
        lemma_lines_concat(left + seq![x], right);
        lemma_lines_concat(left, seq![x]);
        lemma_lines_concat(left, right);
        assert(lines(seq![x]) =~= entry_lines(x)) by {
            let one = seq![x];
            assert(one.drop_last() =~= Seq::<RefEntry>::empty());
            assert(lines(one.drop_last()) =~= Seq::<Seq<u8>>::empty());
            assert(one.last() == x);
            assert(lines(one) == lines(one.drop_last()) + entry_lines(one.last()));
        }
        vstd::seq_lib::lemma_multiset_commutative(lines(left) + entry_lines(x), lines(right));
        vstd::seq_lib::lemma_multiset_commutative(lines(left), entry_lines(x));
        vstd::seq_lib::lemma_multiset_commutative(lines(left), lines(right));
        vstd::seq_lib::lemma_multiset_commutative(lines(front), entry_lines(x));
        assert(lines(b).to_multiset() =~= lines(others).to_multiset().add(
            entry_lines(x).to_multiset(),
        ));
    }
}

/// A failure among the first entries is the failure of the whole walk.
pub proof fn lemma_first_failure_prefix(entries: Seq<RefEntry>, k: int)
    requires
        0 <= k <= entries.len(),
        first_failure(entries.take(k)) is Some,
    ensures
        first_failure(entries) == first_failure(entries.take(k)),
    decreases entries.len() - k,
{
    if k == entries.len() {
        assert(entries.take(k) =~= entries);
    } else {
        assert(entries.take(k + 1).drop_last() =~= entries.take(k));
        lemma_first_failure_prefix(entries, k + 1);
    }
}

/// Leaving out the entries that the listing does not look at changes
/// neither the listing nor the first failure.
pub proof fn lemma_listed_entries_suffice(entries: Seq<RefEntry>)
    ensures
        listing(entries.filter(|e: RefEntry| is_listed(e))) == listing(entries),
        first_failure(entries.filter(|e: RefEntry| is_listed(e))) == first_failure(entries),
    decreases entries.len(),
{
    reveal(Seq::filter);
    let pred = |e: RefEntry| is_listed(e);
    if entries.len() > 0 {
        lemma_listed_entries_suffice(entries.drop_last());
        let sub = entries.drop_last().filter(pred);
        if pred(entries.last()) {
            assert(entries.filter(pred) == sub.push(entries.last()));
            assert(sub.push(entries.last()).drop_last() =~= sub);
        } else {
            assert(entries.filter(pred) == sub);
        }
    }
}

/// Appends `src` to `out`.
pub fn append_bytes(out: &mut Vec<u8>, src: &[u8])
    ensures
        final(out)@ == old(out)@ + src@,
{
    let mut i: usize = 0;
    while i < src.len()
        invariant
            i <= src.len(),
            out@ == old(out)@ + src@.take(i as int),
        decreases src.len() - i,
    {
        out.push(src[i]);
        i += 1;
        assert(out@ =~= old(out)@ + src@.take(i as int));
    }
    assert(src@.take(src.len() as int) =~= src@);
}

/// The reference listing of a repository: for each reference that is not
/// remote-tracking one line, made of the id it points at, a tab, its name
/// and a line feed, in the order of the walk.
///
/// The first entry that is a failure, or a local reference without a name
/// or without an object to point at, fails the whole listing.
pub fn generate_info_refs(refs: Vec<RefEntry>) -> (r: Result<Vec<u8>, Error>)
    ensures
        first_failure(refs@) matches Some(e) ==> r == Err::<Vec<u8>, Error>(e),
        first_failure(refs@) is None ==> (r matches Ok(v) && v@ == listing(refs@)),
{
    let ghost all = refs@;
    let kept = filter_ok_local(refs);
    proof {
        lemma_listed_entries_suffice(all);
        assert forall|j: int| 0 <= j < kept@.len() implies is_listed(#[trigger] kept@[j]) by {
            all.lemma_filter_pred(|e: RefEntry| is_listed(e), j);
        }
    }
    let mut out: Vec<u8> = Vec::new();
    let mut i: usize = 0;
    while i < kept.len()
        invariant
            i <= kept.len(),
            all == refs@,
            first_failure(kept@) == first_failure(all),
            listing(kept@) == listing(all),
            forall|j: int| 0 <= j < kept@.len() ==> is_listed(#[trigger] kept@[j]),
            first_failure(kept@.take(i as int)) is None,
            out@ == listing(kept@.take(i as int)),
        decreases kept.len() - i,
    {
        proof {
            assert(kept@.take(i + 1).drop_last() =~= kept@.take(i as int));
            assert(kept@.take(i + 1).last() == kept@[i as int]);
        }
        match &kept[i] {
            Err(e) => {
                proof {
                    lemma_first_failure_prefix(kept@, i + 1);
                }
                return Err(e.clone());
            },
            Ok(reference) => {
                match &reference.name {
                    None => {
                        proof {
                            lemma_first_failure_prefix(kept@, i + 1);
                        }
                        return Err(Error::Ref { source: RefError::RefHasNoName });
                    },
                    Some(name) => {
                        match &reference.target {
                            Some(RefTarget::Direct(id)) => {
                                let hex = id.to_hex_bytes();
                                append_bytes(&mut out, hex.as_slice());
                                out.push(9u8);
                                append_bytes(&mut out, name.as_str().as_bytes());
                                out.push(10u8);
                                assert(out@ =~= listing(kept@.take(i as int)) + ref_line(
                                    *id,
                                    name@,
                                ));
                            },
                            _ => {
                                proof {
                                    lemma_first_failure_prefix(kept@, i + 1);
                                }
                                return Err(
                                    Error::Ref {
                                        source: RefError::RefHasNoTarget { name: name.clone() },
                                    },
                                );
                            },
                        }
                    },
                }
            },
        }
        i += 1;
    }
    assert(kept@.take(kept.len() as int) =~= kept@);
    Ok(out)
}

/// The content of `HEAD` for a reference that points at the object `id`.
pub open spec fn direct_head(id: ObjectId) -> Seq<u8> {
    hex_bytes(id@) + seq![10u8]
}

/// The content of `HEAD` for a reference that points at the reference whose
/// name is recorded as `target`.
pub open spec fn symbolic_head(target: Seq<u8>) -> Seq<u8> {
    encode_utf8("ref: "@) + target + seq![10u8]
}

/// A symbolic `HEAD` begins with `ref: ` in ASCII, holds the target
/// untouched, and ends with a line feed.
pub proof fn lemma_symbolic_head_bytes(target: Seq<u8>)
    ensures
        symbolic_head(target) == seq![114u8, 101, 102, 58, 32] + target + seq![10u8],
        symbolic_head(target).len() == target.len() + 6,
        symbolic_head(target).subrange(5, 5 + target.len() as int) == target,
{
    reveal_strlit("ref: ");
    assert(is_ascii_chars("ref: "@));
    is_ascii_chars_encode_utf8("ref: "@);
    assert(encode_utf8("ref: "@) =~= seq![114u8, 101, 102, 58, 32]);
    assert(symbolic_head(target).subrange(5, 5 + target.len() as int) =~= target);
}

/// The content of `HEAD` for the given reference, if it has one: none for a
/// reference of unknown kind, none for a symbolic target that is not UTF-8.
pub open spec fn head_content(reference: Reference) -> Option<Seq<u8>> {
    match reference.target {
        None => None,
        Some(RefTarget::Direct(id)) => Some(direct_head(id)),
        Some(RefTarget::Symbolic(target)) => if valid_utf8(target@) {
            Some(symbolic_head(target@))
        } else {
            None
        },
    }
}

/// The content of `HEAD` for a symbolic reference, from the outcome of
/// decoding its target: `ref: `, the decoded target and a line feed, or the
/// refusal of a target that is not UTF-8, with the words of the decoder.
pub fn symbolic_head_from(decoded: Result<String, std::string::FromUtf8Error>) -> (r: Result<
    Vec<u8>,
    Error,
>)
    ensures
        decoded matches Ok(s) ==> (r matches Ok(v) && v@ == symbolic_head(encode_utf8(s@))),
        decoded matches Err(e) ==> (r matches Err(Error::FromUtf8 { text })
            && to_string_from_display_ensures::<std::string::FromUtf8Error>(&e, text)),
{
    match decoded {
        Ok(s) => {
            let mut out = "ref: ".as_bytes_vec();
            append_bytes(&mut out, s.as_str().as_bytes());
            out.push(10u8);
            Ok(out)
        },
        Err(e) => Err(Error::FromUtf8 { text: e.to_string() }),
    }
}

/// The content of `HEAD`: the id and a line feed for a direct reference;
/// `ref: `, the target as the repository recorded it and a line feed for a
/// symbolic one.
///
/// A symbolic target that is not UTF-8 is refused, and so is a reference of
/// which the repository cannot tell the kind.
pub fn generate_ref(reference: &Reference) -> (r: Result<Vec<u8>, Error>)
    ensures
        reference.target is None ==> r == Err::<Vec<u8>, Error>(Error::NoReferenceKind),
        reference.target matches Some(RefTarget::Direct(id)) ==> (r matches Ok(v) && v@
            == direct_head(id)),
        reference.target matches Some(RefTarget::Symbolic(target)) ==> (if valid_utf8(target@) {
            r matches Ok(v) && v@ == symbolic_head(target@)
        } else {
            r matches Err(Error::FromUtf8 { .. })
        }),
{
    match &reference.target {
        None => Err(Error::NoReferenceKind),
        Some(RefTarget::Direct(id)) => {
            let mut out = id.to_hex_bytes();
            out.push(10u8);
            Ok(out)
        },
        Some(RefTarget::Symbolic(target)) => {
            symbolic_head_from(string_from_utf8(slice_to_vec(target.as_slice())))
        },
    }
}

/// Whether `name` can be the directory of one run: `TMP_PATH_LEN`
/// characters, each an ASCII letter or digit.
pub open spec fn is_temp_dir_path(name: Seq<char>) -> bool {
    &&& name.len() == TMP_PATH_LEN
    &&& forall|i: int| 0 <= i < name.len() ==> is_alphanumeric(#[trigger] name[i])
}

/// Whether a byte is an ASCII letter or digit.
fn is_alphanumeric_byte(b: u8) -> (r: bool)
    ensures
        r == is_alphanumeric(b as char),
{
    (48 <= b && b <= 57) || (97 <= b && b <= 122) || (65 <= b && b <= 90)
}

/// Whether `name` can be the directory of one run.
pub fn check_temp_dir_path(name: &str) -> (ok: bool)
    ensures
        ok == is_temp_dir_path(name@),
{
    if !name.is_ascii() {
        return false;
    }
    proof {
        is_ascii_chars_encode_utf8(name@);
    }
    let bytes = name.as_bytes();
    if bytes.len() != TMP_PATH_LEN {
        return false;
    }
    let mut i: usize = 0;
    while i < bytes.len()
        invariant
            i <= bytes.len(),
            bytes@.len() == name@.len(),
            is_ascii_chars(name@),
            forall|j: int| 0 <= j < name@.len() ==> name@[j] as u8 == #[trigger] bytes@[j],
            forall|j: int| 0 <= j < i ==> is_alphanumeric(#[trigger] name@[j]),
        decreases bytes.len() - i,
    {
        let b = bytes[i];
        assert(name@[i as int] as u8 == bytes@[i as int]);
        assert(b as char == name@[i as int]);
        if !is_alphanumeric_byte(b) {
            return false;
        }
        i += 1;
    }
    true
}

/// A directory name for one run, drawn from a generator that is seeded with
/// `seed`.
pub fn gen_temp_dir_path(seed: u64) -> (name: String)
    ensures
        name@ == alphanumeric_sample(seed, TMP_PATH_LEN as nat),
        is_temp_dir_path(name@),
{
    sample_alphanumeric(seed, TMP_PATH_LEN)
}

} // verus!
