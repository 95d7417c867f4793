//! Notes, the documents the index stores for them, identifier allocation,
//! and the decisions of the read and write paths over what the index
//! returns.

use vstd::prelude::*;

verus! {

pub type DocumentId = u64;

/// A note as callers see it.
#[derive(Debug, Clone)]
pub struct Note {
    pub id: DocumentId,
    pub title: String,
    pub body: String,
}

/// The fields of a new note, as a caller sends them.
#[derive(Debug, Clone)]
pub struct NewNote {
    pub title: String,
    pub body: String,
}

/// A note as the index stores it, with its owner.
#[derive(Debug, Clone)]
pub struct StoredNote {
    pub id: DocumentId,
    pub user_id: u64,
    pub title: String,
    pub body: String,
}

/// A search hit: the stored note and the IEEE 754 bits of its score.
#[derive(Debug, Clone)]
pub struct Hit {
    pub score_bits: u32,
    pub note: StoredNote,
}

/// Why an operation on the note index failed.
#[derive(Debug, Clone, PartialEq, Eq)]
pub enum NoteError {
    /// No note with this identifier belongs to the caller.
    NotFound,
    /// The index engine failed.
    StoreError(String),
    /// A malformed identifier or owner.
    InvalidArgument,
}

/// `(id, title, body)`.
pub type NoteView = (u64, Seq<char>, Seq<char>);

/// `(id, user_id, title, body)`.
pub type DocView = (u64, u64, Seq<char>, Seq<char>);

impl View for Note {
    type V = NoteView;

    open spec fn view(&self) -> NoteView {
        (self.id, self.title@, self.body@)
    }
}

impl View for StoredNote {
    type V = DocView;

    open spec fn view(&self) -> DocView {
        (self.id, self.user_id, self.title@, self.body@)
    }
}

pub open spec fn docs_view(v: Seq<StoredNote>) -> Seq<DocView> {
    v.map_values(|d: StoredNote| d@)
}

pub open spec fn notes_view(v: Seq<Note>) -> Seq<NoteView> {
    v.map_values(|n: Note| n@)
}

pub open spec fn note_of(d: DocView) -> NoteView {
    (d.0, d.2, d.3)
}

pub open spec fn owned(d: DocView, user_id: u64, id: u64) -> bool {
    d.0 == id && d.1 == user_id
}

/// The note that a lookup of `id` for `user_id` finds among `docs`: the
/// first document with both.
pub open spec fn found_note(docs: Seq<DocView>, user_id: u64, id: u64) -> Option<NoteView>
    decreases docs.len(),
{
    if docs.len() == 0 {
        None
    } else {
        let earlier = found_note(docs.drop_last(), user_id, id);
        if earlier is Some {
            earlier
        } else if owned(docs.last(), user_id, id) {
            Some(note_of(docs.last()))
        } else {
            None
        }
    }
}

/// The documents after one with `id` is deleted.
pub open spec fn after_delete(docs: Seq<DocView>, id: u64) -> Seq<DocView> {
    docs.filter(|d: DocView| d.0 != id)
}

/// The documents after `d` replaces the one with its identifier, both in one
/// commit.
pub open spec fn after_update(docs: Seq<DocView>, d: DocView) -> Seq<DocView> {
    after_delete(docs, d.0).push(d)
}

/// The documents after `d` is added.
pub open spec fn after_add(docs: Seq<DocView>, d: DocView) -> Seq<DocView> {
    docs.push(d)
}

/// The IEEE 754 bits of the relevance cutoff, 1.0.
pub const SCORE_CUTOFF_BITS: u32 = 0x3f80_0000;

/// The bits of positive infinity.
pub const POSITIVE_INFINITY_BITS: u32 = 0x7f80_0000;

/// Whether the score with these IEEE 754 bits is above the cutoff: among
/// non-negative scores the bits order as the values do, a negative score has
/// the sign bit set, and no NaN compares above.
pub open spec fn above_cutoff(bits: u32) -> bool {
    SCORE_CUTOFF_BITS < bits && bits <= POSITIVE_INFINITY_BITS
}

/// Whether a hit stays in a result: it scores above the cutoff, belongs to
/// the caller, and is not the excluded note.
pub open spec fn kept(h: (u32, DocView), user_id: u64, exclude: Option<u64>) -> bool {
    above_cutoff(h.0) && h.1.1 == user_id && exclude != Some(h.1.0)
}

pub open spec fn hits_view(v: Seq<Hit>) -> Seq<(u32, DocView)> {
    v.map_values(|h: Hit| (h.score_bits, h.note@))
}

/// The notes of the kept hits, in order.
pub open spec fn selected(hits: Seq<(u32, DocView)>, user_id: u64, exclude: Option<u64>) -> Seq<
    NoteView,
> {
    hits.filter(|h: (u32, DocView)| kept(h, user_id, exclude)).map_values(
        |h: (u32, DocView)| note_of(h.1),
    )
}

/// Hands out note identifiers in increasing order.
pub struct IdAllocator {
    next: u64,
}

/// The first identifier after the newest one present.
pub open spec fn first_free(newest: Option<u64>) -> u64 {
    match newest {
        None => 0,
        Some(m) => if m < u64::MAX {
            (m + 1) as u64
        } else {
            u64::MAX
        },
    }
}

/// The identifiers that `k` allocations hand out from `next`; the largest
/// value is never handed out.
pub open spec fn issued(next: u64, k: nat) -> Seq<u64>
    decreases k,
{
    if k == 0 || next == u64::MAX {
        Seq::empty()
    } else {
        seq![next].add(issued((next + 1) as u64, (k - 1) as nat))
    }
}

impl IdAllocator {
    pub closed spec fn next_spec(&self) -> u64 {
        self.next
    }

    /// An allocator that resumes after the newest identifier in the index.
    pub fn resume_after(newest: Option<u64>) -> (r: IdAllocator)
        ensures
            r.next_spec() == first_free(newest),
    {
        match newest {
            None => IdAllocator { next: 0 },
            Some(m) => if m < u64::MAX {
                IdAllocator { next: m + 1 }
            } else {
                IdAllocator { next: u64::MAX }
            },
        }
    }

    /// The next identifier, or `None` once they are used up.
    pub fn allocate(&mut self) -> (r: Option<u64>)
        ensures
            old(self).next_spec() < u64::MAX ==> r == Some(old(self).next_spec())
                && final(self).next_spec() == old(self).next_spec() + 1,
            old(self).next_spec() == u64::MAX ==> r is None && final(self).next_spec()
                == u64::MAX,
    {
        if self.next < u64::MAX {
            let id = self.next;
            self.next = self.next + 1;
            Some(id)
        } else {
            None
        }
    }
}

/// The document that stores note `id` of `user_id`.
pub fn note_document(user_id: u64, id: u64, title: String, body: String) -> (r: StoredNote)
    ensures
        r@ == (id, user_id, title@, body@),
{
    StoredNote { id, user_id, title, body }
}

/// The note that a stored document holds.
pub fn load_note(doc: &StoredNote) -> (r: Note)
    ensures
        r@ == note_of(doc@),
{
    Note { id: doc.id, title: doc.title.clone(), body: doc.body.clone() }
}

proof fn lemma_found_prefix(docs: Seq<DocView>, k: int, user_id: u64, id: u64)
    requires
        0 <= k <= docs.len(),
        found_note(docs.take(k), user_id, id) is Some,
    ensures
        found_note(docs, user_id, id) == found_note(docs.take(k), user_id, id),
    decreases docs.len(),
{
    if k == docs.len() {
        assert(docs.take(k) =~= docs);
    } else {
        assert(docs.drop_last().take(k) =~= docs.take(k));
        lemma_found_prefix(docs.drop_last(), k, user_id, id);
    }
}

/// The note of `user_id` with identifier `id` among the documents the index
/// returned for the lookup, or `NotFound`.
pub fn note_from_hits(docs: &Vec<StoredNote>, user_id: u64, id: u64) -> (r: Result<Note, NoteError>)
    ensures
        found_note(docs_view(docs@), user_id, id) is None ==> r == Err::<Note, NoteError>(
            NoteError::NotFound,
        ),
        found_note(docs_view(docs@), user_id, id) is Some ==> r is Ok && r->Ok_0@ == found_note(
            docs_view(docs@),
            user_id,
            id,
        )->0,
{
    let ghost dv = docs_view(docs@);
    let mut i: usize = 0;
    assert(dv.take(0) =~= Seq::<DocView>::empty());
    while i < docs.len()
        invariant
            i <= docs@.len(),
            dv == docs_view(docs@),
            found_note(dv.take(i as int), user_id, id) is None,
        decreases docs.len() - i,
    {
        let d = &docs[i];
        proof {
            assert(dv[i as int] == d@);
            assert(dv.take(i + 1).drop_last() =~= dv.take(i as int));
            assert(dv.take(i + 1).last() == d@);
        }
        if d.id == id && d.user_id == user_id {
            let found = load_note(d);
            proof {
                assert(found_note(dv.take(i + 1), user_id, id) == Some(note_of(d@)));
                lemma_found_prefix(dv, i + 1, user_id, id);
            }
            return Ok(found);
        }
        i = i + 1;
    }
    assert(dv.take(i as int) =~= dv);
    Err(NoteError::NotFound)
}

/// The document that replaces note `id` of `user_id`, where the lookup
/// found it; `NotFound` where it did not.
pub fn plan_update(
    found: Vec<StoredNote>,
    user_id: u64,
    id: u64,
    title: String,
    body: String,
) -> (r: Result<StoredNote, NoteError>)
    ensures
        found_note(docs_view(found@), user_id, id) is None ==> r == Err::<StoredNote, NoteError>(
            NoteError::NotFound,
        ),
        found_note(docs_view(found@), user_id, id) is Some ==> (r matches Ok(d) && d@ == (
            id,
            user_id,
            title@,
            body@,
        )),
{
    match note_from_hits(&found, user_id, id) {
        Ok(_) => Ok(note_document(user_id, id, title, body)),
        Err(e) => Err(e),
    }
}

/// Whether the score with these bits is above the cutoff.
pub fn is_above_cutoff(bits: u32) -> (r: bool)
    ensures
        r == above_cutoff(bits),
{
    SCORE_CUTOFF_BITS < bits && bits <= POSITIVE_INFINITY_BITS
}

/// The notes of the hits that score above the cutoff, belong to `user_id`
/// and are not `exclude`, in the order of the hits.
pub fn select_hits(hits: &Vec<Hit>, user_id: u64, exclude: Option<u64>) -> (r: Vec<Note>)
    ensures
        notes_view(r@) == selected(hits_view(hits@), user_id, exclude),
        exclude matches Some(x) ==> forall|i: int| 0 <= i < r@.len() ==> (#[trigger] r@[i]).id != x,
{
    let ghost hv = hits_view(hits@);
    let mut out: Vec<Note> = Vec::new();
    let mut i: usize = 0;
    proof {
        reveal_with_fuel(Seq::filter, 1);
        assert(hv.take(0) =~= Seq::<(u32, DocView)>::empty());
        assert(notes_view(out@) =~= selected(hv.take(0), user_id, exclude));
    }
    while i < hits.len()
        invariant
            i <= hits@.len(),
            hv == hits_view(hits@),
            notes_view(out@) == selected(hv.take(i as int), user_id, exclude),
        decreases hits.len() - i,
    {
        let h = &hits[i];
        let ghost hview = (h.score_bits, h.note@);
        proof {
            assert(hv[i as int] == hview);
            assert(hv.take(i + 1).drop_last() =~= hv.take(i as int));
            assert(hv.take(i + 1).last() == hview);
            reveal_with_fuel(Seq::filter, 1);
        }
        let keep = is_above_cutoff(h.score_bits) && h.note.user_id == user_id && match exclude {
            Some(x) => h.note.id != x,
            None => true,
        };
        let ghost prev = out@;
        if keep {
            let n = load_note(&h.note);
            out.push(n);
            proof {
                let f = |x: (u32, DocView)| kept(x, user_id, exclude);
                let g = |x: (u32, DocView)| note_of(x.1);
                let kept_prev = hv.take(i as int).filter(f);
                assert(hv.take(i + 1).filter(f) == kept_prev.push(hview));
                assert(kept_prev.push(hview).map_values(g) =~= kept_prev.map_values(g).push(
                    note_of(hview.1),
                ));
                assert(notes_view(out@) =~= notes_view(prev).push(note_of(hview.1)));
            }
        } else {
            proof {
                let f = |x: (u32, DocView)| kept(x, user_id, exclude);
                assert(hv.take(i + 1).filter(f) == hv.take(i as int).filter(f));
            }
        }
        i = i + 1;
    }
    assert(hv.take(i as int) =~= hv);
    proof {
        match exclude {
            Some(x) => {
                lemma_selected_excludes(hv, user_id, x);
                assert forall|j: int| 0 <= j < out@.len() implies (#[trigger] out@[j]).id != x by {
                    assert(notes_view(out@)[j] == out@[j]@);
                }
            },
            None => {},
        }
    }
    out
}

proof fn lemma_none_owned(docs: Seq<DocView>, user_id: u64, id: u64)
    requires
        forall|i: int| 0 <= i < docs.len() ==> !owned(#[trigger] docs[i], user_id, id),
    ensures
        found_note(docs, user_id, id) is None,
    decreases docs.len(),
{
    if docs.len() > 0 {
        let init = docs.drop_last();
        assert forall|i: int| 0 <= i < init.len() implies !owned(#[trigger] init[i], user_id, id) by {
            assert(init[i] == docs[i]);
        }
        lemma_none_owned(init, user_id, id);
        assert(!owned(docs[docs.len() - 1], user_id, id));
    }
}

/// A note that was added under a fresh identifier is found again by its
/// owner, with the title and body it was given.
pub proof fn lemma_added_note_is_found(docs: Seq<DocView>, d: DocView)
    requires
        forall|i: int| 0 <= i < docs.len() ==> (#[trigger] docs[i]).0 != d.0,
    ensures
        found_note(after_add(docs, d), d.1, d.0) == Some(note_of(d)),
{
    assert forall|i: int| 0 <= i < docs.len() implies !owned(#[trigger] docs[i], d.1, d.0) by {}
    lemma_none_owned(docs, d.1, d.0);
    assert(docs.push(d).drop_last() =~= docs);
}

/// A lookup by another user finds nothing, though the note exists.
pub proof fn lemma_other_owner_finds_nothing(docs: Seq<DocView>, id: u64, owner: u64, other: u64)
    requires
        owner != other,
        forall|i: int| 0 <= i < docs.len() && (#[trigger] docs[i]).0 == id ==> docs[i].1 == owner,
    ensures
        found_note(docs, other, id) is None,
{
    assert forall|i: int| 0 <= i < docs.len() implies !owned(#[trigger] docs[i], other, id) by {}
    lemma_none_owned(docs, other, id);
}

/// After a delete of `id`, no lookup of `id` finds a note.
pub proof fn lemma_deleted_note_is_gone(docs: Seq<DocView>, user_id: u64, id: u64)
    ensures
        found_note(after_delete(docs, id), user_id, id) is None,
{
    let f = |d: DocView| d.0 != id;
    broadcast use vstd::seq_lib::group_filter_ensures;

    let rest = after_delete(docs, id);
    assert forall|i: int| 0 <= i < rest.len() implies !owned(#[trigger] rest[i], user_id, id) by {
        assert(f(rest[i]));
    }
    lemma_none_owned(rest, user_id, id);
}

/// After an update, the owner finds the new title and body, and nothing of
/// the old ones.
pub proof fn lemma_updated_note_is_found(docs: Seq<DocView>, d: DocView)
    ensures
        found_note(after_update(docs, d), d.1, d.0) == Some(note_of(d)),
{
    lemma_deleted_note_is_gone(docs, d.1, d.0);
    assert(after_delete(docs, d.0).push(d).drop_last() =~= after_delete(docs, d.0));
}

proof fn lemma_issued_bounds(next: u64, k: nat)
    ensures
        forall|i: int| 0 <= i < issued(next, k).len() ==> next <= #[trigger] issued(next, k)[i],
        forall|i: int, j: int|
            0 <= i < j < issued(next, k).len() ==> issued(next, k)[i] < issued(next, k)[j],
    decreases k,
{
    if k > 0 && next < u64::MAX {
        let tail = issued((next + 1) as u64, (k - 1) as nat);
        lemma_issued_bounds((next + 1) as u64, (k - 1) as nat);
        let s = issued(next, k);
        assert(s == seq![next].add(tail));
        assert forall|i: int| 0 <= i < s.len() implies next <= #[trigger] s[i] by {
            if i > 0 {
                assert(s[i] == tail[i - 1]);
            }
        }
        assert forall|i: int, j: int| 0 <= i < j < s.len() implies s[i] < s[j] by {
            assert(s[j] == tail[j - 1]);
            if i > 0 {
                assert(s[i] == tail[i - 1]);
            }
        }
    }
}

/// The identifiers that an allocator resumed after the newest one present
/// hands out increase strictly, and all lie above that newest one.
pub proof fn lemma_issued_ids_increase(newest: Option<u64>, k: nat)
    ensures
        forall|i: int, j: int|
            0 <= i < j < issued(first_free(newest), k).len() ==> issued(first_free(newest), k)[i]
                < issued(first_free(newest), k)[j],
        forall|i: int|
            0 <= i < issued(first_free(newest), k).len() ==> (newest matches Some(m) ==> m
                < #[trigger] issued(first_free(newest), k)[i]),
{
    lemma_issued_bounds(first_free(newest), k);
    match newest {
        Some(m) => {
            if m == u64::MAX {
                assert(issued(u64::MAX, k) =~= Seq::<u64>::empty());
            }
        },
        None => {},
    }
}

/// After a restart over an index whose largest identifier is `m`, the first
/// identifier handed out is `m + 1`; none is left only at the top of the range.
pub proof fn lemma_first_id_after_restart(m: u64)
    ensures
        m + 1 < u64::MAX ==> issued(first_free(Some(m)), 1) == seq![(m + 1) as u64],
        m + 1 >= u64::MAX ==> issued(first_free(Some(m)), 1).len() == 0,
{
    reveal_with_fuel(issued, 2);
    if m + 1 < u64::MAX {
        assert(issued(first_free(Some(m)), 1) =~= seq![(m + 1) as u64]);
    }
}

/// No selected note is the excluded one.
pub proof fn lemma_selected_excludes(hits: Seq<(u32, DocView)>, user_id: u64, x: u64)
    ensures
        forall|i: int|
            0 <= i < selected(hits, user_id, Some(x)).len() ==> (#[trigger] selected(
                hits,
                user_id,
                Some(x),
            )[i]).0 != x,
{
    let f = |h: (u32, DocView)| kept(h, user_id, Some(x));
    broadcast use vstd::seq_lib::group_filter_ensures;

    let k = hits.filter(f);
    assert forall|i: int| 0 <= i < selected(hits, user_id, Some(x)).len() implies (
    #[trigger] selected(hits, user_id, Some(x))[i]).0 != x by {
        assert(f(k[i]));
    }
}

} // verus!
