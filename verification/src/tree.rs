//! A tree: the entries of one directory, kept in a canonical order so that
//! the same set of entries always encodes to the same bytes.

use vstd::prelude::*;
use vstd::relations::{sorted_by, total_ordering};
use vstd::multiset::group_multiset_axioms;
use vstd::seq_lib::{
    lemma_multiset_commutative, lemma_sorted_unique, to_multiset_build, to_multiset_insert,
    to_multiset_len,
};
use vstd::utf8::encode_utf8;
use crate::encoding::{
    append_bytes, bytes_equal, decimal, decimal_digits, frame, frame_bytes, ObjectError,
};
use crate::hash::{sha1_digest, ObjectId};
use crate::object::Object;

verus! {

/// Permission bits of a regular, non-executable file.
pub const REGULAR_FILE_MODE: u64 = 100644;

/// One line of a directory listing: permission bits, a name, and the
/// identity of the object that the name refers to.
pub struct Entry {
    pub mode: u64,
    pub path: String,
    pub object_id: ObjectId,
}

/// An entry as plain values: the mode, the bytes of the name, the raw digest.
pub struct EntryModel {
    pub mode: u64,
    pub name: Seq<u8>,
    pub id: Seq<u8>,
}

impl View for Entry {
    type V = EntryModel;

    open spec fn view(&self) -> EntryModel {
        EntryModel { mode: self.mode, name: encode_utf8(self.path@), id: self.object_id@ }
    }
}

impl Entry {
    /// An entry for a regular file.
    pub fn new(path: &str, object_id: ObjectId) -> (entry: Entry)
        ensures
            entry.mode == REGULAR_FILE_MODE,
            entry.path@ == path@,
            entry.object_id == object_id,
    {
        Entry { mode: REGULAR_FILE_MODE, path: path.to_owned(), object_id }
    }
}

/// Byte strings in ascending lexicographic order; a proper prefix comes first.
pub open spec fn bytes_le(a: Seq<u8>, b: Seq<u8>) -> bool
    decreases a.len(),
{
    if a.len() == 0 {
        true
    } else if b.len() == 0 {
        false
    } else if a[0] != b[0] {
        a[0] < b[0]
    } else {
        bytes_le(a.drop_first(), b.drop_first())
    }
}

proof fn lemma_bytes_le_reflexive(a: Seq<u8>)
    ensures
        bytes_le(a, a),
    decreases a.len(),
{
    if a.len() > 0 {
        lemma_bytes_le_reflexive(a.drop_first());
    }
}

proof fn lemma_bytes_le_antisymmetric(a: Seq<u8>, b: Seq<u8>)
    requires
        bytes_le(a, b),
        bytes_le(b, a),
    ensures
        a == b,
    decreases a.len(),
{
    if a.len() > 0 {
        lemma_bytes_le_antisymmetric(a.drop_first(), b.drop_first());
        assert(a =~= seq![a[0]] + a.drop_first());
        assert(b =~= seq![b[0]] + b.drop_first());
    } else {
        assert(a =~= b);
    }
}

proof fn lemma_bytes_le_transitive(a: Seq<u8>, b: Seq<u8>, c: Seq<u8>)
    requires
        bytes_le(a, b),
        bytes_le(b, c),
    ensures
        bytes_le(a, c),
    decreases a.len(),
{
    if a.len() > 0 && a[0] == b[0] && b[0] == c[0] {
        lemma_bytes_le_transitive(a.drop_first(), b.drop_first(), c.drop_first());
    }
}

proof fn lemma_bytes_le_connected(a: Seq<u8>, b: Seq<u8>)
    ensures
        bytes_le(a, b) || bytes_le(b, a),
    decreases a.len(),
{
    if a.len() > 0 && b.len() > 0 && a[0] == b[0] {
        lemma_bytes_le_connected(a.drop_first(), b.drop_first());
    }
}

/// The canonical order of entries: ascending by the raw bytes of the name;
/// entries of one name by digest, then by mode.
pub open spec fn entry_le(a: EntryModel, b: EntryModel) -> bool {
    if a.name != b.name {
        bytes_le(a.name, b.name)
    } else if a.id != b.id {
        bytes_le(a.id, b.id)
    } else {
        a.mode <= b.mode
    }
}

pub open spec fn entry_order() -> spec_fn(EntryModel, EntryModel) -> bool {
    |a: EntryModel, b: EntryModel| entry_le(a, b)
}

/// The canonical order is a total order on entries.
pub proof fn lemma_entry_order_total()
    ensures
        total_ordering(entry_order()),
{
    let r = entry_order();
    assert forall|a: EntryModel| #[trigger] r(a, a) by {}
    assert forall|a: EntryModel, b: EntryModel| #[trigger] r(a, b) && #[trigger] r(b, a) implies a
        == b by {
        if a.name != b.name {
            lemma_bytes_le_antisymmetric(a.name, b.name);
        } else if a.id != b.id {
            lemma_bytes_le_antisymmetric(a.id, b.id);
        }
    }
    assert forall|a: EntryModel, b: EntryModel, c: EntryModel| #[trigger]
        r(a, b) && #[trigger] r(b, c) implies r(a, c) by {
        lemma_bytes_le_reflexive(a.name);
        lemma_bytes_le_reflexive(a.id);
        lemma_bytes_le_reflexive(b.name);
        lemma_bytes_le_reflexive(b.id);
        lemma_bytes_le_transitive(a.name, b.name, c.name);
        if a.name == c.name {
            lemma_bytes_le_antisymmetric(a.name, b.name);
            lemma_bytes_le_transitive(a.id, b.id, c.id);
            if a.id == c.id {
                lemma_bytes_le_antisymmetric(a.id, b.id);
            }
        }
    }
    assert forall|a: EntryModel, b: EntryModel| #[trigger] r(a, b) || #[trigger] r(b, a) by {
        lemma_bytes_le_connected(a.name, b.name);
        lemma_bytes_le_connected(a.id, b.id);
    }
}

/// Whether `a` comes no later than `b` in lexicographic order.
pub fn bytes_in_order(a: &[u8], b: &[u8]) -> (r: bool)
    ensures
        r == bytes_le(a@, b@),
{
    let mut i: usize = 0;
    assert(a@.skip(0) =~= a@ && b@.skip(0) =~= b@);
    while i < a.len() && i < b.len()
        invariant
            i <= a.len(),
            i <= b.len(),
            bytes_le(a@, b@) == bytes_le(a@.skip(i as int), b@.skip(i as int)),
        decreases a.len() - i,
    {
        proof {
            assert(a@.skip(i as int).drop_first() =~= a@.skip(i + 1));
            assert(b@.skip(i as int).drop_first() =~= b@.skip(i + 1));
        }
        if a[i] != b[i] {
            return a[i] < b[i];
        }
        i += 1;
    }
    i == a.len()
}

/// Whether `a` comes no later than `b` in the canonical order.
pub fn entries_in_order(a: &Entry, b: &Entry) -> (r: bool)
    ensures
        r == entry_le(a@, b@),
{
    let a_name = a.path.as_str().as_bytes();
    let b_name = b.path.as_str().as_bytes();
    let a_id = a.object_id.as_bytes();
    let b_id = b.object_id.as_bytes();
    if !bytes_equal(a_name, b_name) {
        bytes_in_order(a_name, b_name)
    } else if !bytes_equal(a_id.as_slice(), b_id.as_slice()) {
        bytes_in_order(a_id.as_slice(), b_id.as_slice())
    } else {
        a.mode <= b.mode
    }
}

/// The entries of a vector as plain values.
pub open spec fn models(entries: Seq<Entry>) -> Seq<EntryModel> {
    entries.map_values(|e: Entry| e@)
}

/// What one entry adds to a tree's payload: the mode in decimal, a space,
/// the name, a NUL byte, and the twenty raw bytes of the digest.
pub open spec fn entry_bytes(e: EntryModel) -> Seq<u8> {
    decimal(e.mode as nat) + seq![32u8] + e.name + seq![0u8] + e.id
}

/// The payload of a tree: what its entries add, one after the other.
pub open spec fn entries_payload(entries: Seq<EntryModel>) -> Seq<u8>
    decreases entries.len(),
{
    if entries.len() == 0 {
        Seq::<u8>::empty()
    } else {
        entries_payload(entries.drop_last()) + entry_bytes(entries.last())
    }
}

/// No two entries have the same name.
pub open spec fn names_unique(entries: Seq<EntryModel>) -> bool {
    forall|i: int, j: int|
        0 <= i < entries.len() && 0 <= j < entries.len() && i != j ==> entries[i].name
            != entries[j].name
}

/// In canonical order, entries of one name stand side by side: where no two
/// neighbours share a name, no two entries do.
pub proof fn lemma_neighbours_decide_uniqueness(entries: Seq<EntryModel>)
    requires
        sorted_by(entries, entry_order()),
        forall|k: int|
            0 <= k < entries.len() - 1 ==> (#[trigger] entries[k]).name != entries[k + 1].name,
    ensures
        names_unique(entries),
{
    assert forall|i: int, j: int|
        0 <= i < entries.len() && 0 <= j < entries.len() && i != j implies entries[i].name
        != entries[j].name by {
        let (lo, hi) = if i < j {
            (i, j)
        } else {
            (j, i)
        };
        if entries[lo].name == entries[hi].name {
            assert(entry_order()(entries[lo], entries[lo + 1]));
            if lo + 1 < hi {
                assert(entry_order()(entries[lo + 1], entries[hi]));
                lemma_bytes_le_antisymmetric(entries[lo].name, entries[lo + 1].name);
            }
        }
    }
}

/// The tag `tree`.
pub open spec fn tree_tag() -> Seq<u8> {
    seq![116u8, 114u8, 101u8, 101u8]
}

/// A directory snapshot. Its entries are held in the canonical order.
pub struct Tree {
    entries: Vec<Entry>,
}

impl View for Tree {
    type V = Seq<EntryModel>;

    closed spec fn view(&self) -> Seq<EntryModel> {
        models(self.entries@)
    }
}

impl Tree {
    #[verifier::type_invariant]
    spec fn ordered(self) -> bool {
        sorted_by(models(self.entries@), entry_order())
    }

    /// The entries are in the canonical order. Every tree that `new` made is
    /// so.
    pub open spec fn wf(&self) -> bool {
        sorted_by(self@, entry_order())
    }

    /// A tree of the given entries, whatever order they come in.
    pub fn new(entries: Vec<Entry>) -> (tree: Tree)
        ensures
            tree.wf(),
            tree@.to_multiset() == models(entries@).to_multiset(),
            tree@.len() == entries@.len(),
    {
        let mut rest = entries;
        let mut sorted: Vec<Entry> = Vec::new();
        assert(models(sorted@) + models(rest@) =~= models(entries@));
        while rest.len() > 0
            invariant
                sorted_by(models(sorted@), entry_order()),
                (models(sorted@) + models(rest@)).to_multiset() == models(entries@).to_multiset(),
            decreases rest.len(),
        {
            let ghost rest_before = rest@;
            let ghost sorted_before = sorted@;
            let entry = rest.pop().unwrap();
            let mut at: usize = 0;
            let mut placed = false;
            while !placed && at < sorted.len()
                invariant
                    at <= sorted.len(),
                    sorted@ == sorted_before,
                    forall|k: int| 0 <= k < at ==> entry_le(#[trigger] sorted@[k]@, entry@),
                    placed ==> at < sorted.len() && !entry_le(sorted@[at as int]@, entry@),
                decreases sorted.len() - at + (if placed { 0int } else { 1int }),
            {
                if entries_in_order(&sorted[at], &entry) {
                    at += 1;
                } else {
                    placed = true;
                }
            }
            let ghost inserted = entry@;
            sorted.insert(at, entry);
            proof {
                broadcast use group_multiset_axioms;

                lemma_entry_order_total();
                let before = models(sorted_before);
                let after = models(sorted@);
                assert(after =~= before.insert(at as int, inserted));
                assert(models(rest_before) =~= models(rest@).push(inserted));
                to_multiset_insert(before, at as int, inserted);
                to_multiset_build(models(rest@), inserted);
                lemma_multiset_commutative(before, models(rest_before));
                lemma_multiset_commutative(after, models(rest@));
                assert((after + models(rest@)).to_multiset() =~= (before + models(
                    rest_before,
                )).to_multiset());
                assert forall|i: int, j: int| 0 <= i < j < after.len() implies #[trigger] entry_order()(
                    after[i],
                    after[j],
                ) by {
                    if j == at {
                        assert(after[i] == sorted_before[i]@);
                    } else if i == at {
                        assert(entry_order()(before[at as int], inserted) || entry_order()(
                            inserted,
                            before[at as int],
                        ));
                        assert(entry_order()(before[at as int], before[j - 1]) || j - 1 == at);
                    } else {
                        let bi = if i < at { i } else { i - 1 };
                        let bj = if j < at { j } else { j - 1 };
                        assert(entry_order()(before[bi], before[bj]));
                    }
                }
            }
        }
        assert(models(sorted@) + models(rest@) =~= models(sorted@));
        proof {
            to_multiset_len(models(sorted@));
            to_multiset_len(models(entries@));
        }
        Tree { entries: sorted }
    }

    /// Whether every name occurs once in the tree.
    pub fn has_unique_names(&self) -> (unique: bool)
        ensures
            unique == names_unique(self@),
    {
        proof {
            use_type_invariant(self);
        }
        let len = self.entries.len();
        let mut k: usize = 1;
        while k < len
            invariant
                forall|n: int| 0 <= n < k - 1 ==> (#[trigger] self@[n]).name != self@[n + 1].name,
                len == self.entries.len(),
                1 <= k,
            decreases len - k,
        {
            let this = self.entries[k - 1].path.as_str().as_bytes();
            let next = self.entries[k].path.as_str().as_bytes();
            if bytes_equal(this, next) {
                assert(self@[k - 1].name == self@[k as int].name);
                return false;
            }
            k += 1;
        }
        proof {
            lemma_neighbours_decide_uniqueness(self@);
        }
        true
    }

    /// How many entries the tree holds.
    pub fn len(&self) -> (n: usize)
        ensures
            n == self@.len(),
    {
        self.entries.len()
    }

    /// The entry at position `i` of the canonical order.
    pub fn entry(&self, i: usize) -> (e: &Entry)
        requires
            i < self@.len(),
        ensures
            e@ == self@[i as int],
    {
        &self.entries[i]
    }
}

impl Object for Tree {
    open spec fn tag() -> Seq<u8> {
        tree_tag()
    }

    open spec fn payload(&self) -> Seq<u8> {
        entries_payload(self@)
    }

    open spec fn decoded(bytes: Seq<u8>) -> Result<Seq<u8>, ObjectError> {
        Err(ObjectError::NotImplemented)
    }

    fn serialize(&self) -> (bytes: Vec<u8>) {
        let mut payload: Vec<u8> = Vec::new();
        let mut i: usize = 0;
        while i < self.entries.len()
            invariant
                i <= self.entries.len(),
                payload@ == entries_payload(self@.take(i as int)),
            decreases self.entries.len() - i,
        {
            let entry = &self.entries[i];
            let ghost before = payload@;
            let mode = decimal_digits(entry.mode);
            append_bytes(&mut payload, mode.as_slice());
            payload.push(32u8);
            append_bytes(&mut payload, entry.path.as_str().as_bytes());
            payload.push(0u8);
            let id = entry.object_id.as_bytes();
            append_bytes(&mut payload, id.as_slice());
            proof {
                assert(self@.take(i + 1).drop_last() =~= self@.take(i as int));
                assert(self@.take(i + 1).last() == entry@);
                assert(payload@ =~= before + entry_bytes(entry@));
            }
            i += 1;
        }
        assert(self@.take(i as int) =~= self@);
        let tag: [u8; 4] = [116u8, 114u8, 101u8, 101u8];
        assert(tag@ =~= tree_tag());
        frame_bytes(tag.as_slice(), payload.as_slice())
    }

    fn deserialize(bytes: Vec<u8>) -> (r: Result<Self, ObjectError>) {
        Err(ObjectError::NotImplemented)
    }
}

/// Two trees that hold the same entries, in whatever order each was built
/// from them, have the same entries in the same order, the same encoding and
/// the same identity.
pub proof fn lemma_tree_order_independent(a: Tree, b: Tree)
    requires
        a.wf(),
        b.wf(),
        a@.to_multiset() == b@.to_multiset(),
    ensures
        a@ == b@,
        frame(Tree::tag(), a.payload()) == frame(Tree::tag(), b.payload()),
        sha1_digest(frame(Tree::tag(), a.payload())) == sha1_digest(frame(Tree::tag(), b.payload())),
{
    lemma_entry_order_total();
    lemma_sorted_unique(a@, b@, entry_order());
}

} // verus!
