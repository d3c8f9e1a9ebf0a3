use vstd::prelude::*;

verus! {

use vstd::string::StringExecFns;
use crate::codec::{
    doc_of_request, quiz_of_doc, quiz_of_request, Document, Quiz, QuizRequest, QuizV, RequestV,
    to_document, quiz_from_document, FieldV,
};
use crate::errors::{Error, ErrorV};
use crate::ids::{
    hex_val, is_object_id, object_id_of, object_id_string, object_ids_match, same_object_id,
    validate_object_id, lemma_object_id_of,
};
use crate::search::{count_occurrences, percent_decode, score, url_decoded};
use crate::codec::{first_positions, first_value, strs_view, FieldName, Value, ValueV};

/// The abstract value of one stored document: the identifier the store keeps
/// it under, and its fields.
pub struct EntryV {
    pub id: Seq<char>,
    pub doc: Seq<FieldV>,
}

/// The abstract state of the quiz collection: the stored documents in store
/// order, and the counter from which the next assigned identifier is drawn.
pub struct StoreV {
    pub entries: Seq<EntryV>,
    pub next: nat,
}

/// The quiz record an entry denotes (meaningful for well-formed stores,
/// where every entry decodes).
pub open spec fn entry_quiz(e: EntryV) -> QuizV {
    quiz_of_doc(e.id, e.doc)->0
}

/// Well-formedness of a store state: every entry is kept under a well-formed
/// identifier drawn from below the counter, every entry decodes to a quiz,
/// and no two entries share an identifier value.
pub open spec fn store_wf(s: StoreV) -> bool {
    &&& (forall|i: int|
        0 <= i < s.entries.len() ==> is_object_id((#[trigger] s.entries[i]).id))
    &&& (forall|i: int| 0 <= i < s.entries.len() ==> hex_val((#[trigger] s.entries[i]).id) < s.next)
    &&& (forall|i: int|
        0 <= i < s.entries.len() ==> quiz_of_doc(
            (#[trigger] s.entries[i]).id,
            s.entries[i].doc,
        ) is Some)
    &&& (forall|i: int, j: int|
        0 <= i < j < s.entries.len() ==> hex_val((#[trigger] s.entries[i]).id) != hex_val(
            (#[trigger] s.entries[j]).id,
        ))
}

/// Entry `i` is stored under the identifier the query string denotes.
pub open spec fn entry_matches(s: StoreV, id: Seq<char>, i: int) -> bool {
    0 <= i < s.entries.len() && same_object_id(id, s.entries[i].id)
}

/// Some entry is stored under the queried identifier.
pub open spec fn has_match(s: StoreV, id: Seq<char>) -> bool {
    exists|i: int| entry_matches(s, id, i)
}

/// The index of the entry stored under the queried identifier (unique in a
/// well-formed store).
pub open spec fn match_idx(s: StoreV, id: Seq<char>) -> int {
    choose|i: int| entry_matches(s, id, i)
}

/// In a well-formed store at most one entry matches a given identifier.
pub proof fn lemma_match_unique(s: StoreV, id: Seq<char>, i: int)
    requires
        store_wf(s),
        entry_matches(s, id, i),
    ensures
        has_match(s, id),
        match_idx(s, id) == i,
{
    let j = match_idx(s, id);
    assert(entry_matches(s, id, j));
    if i != j {
        assert(hex_val(s.entries[i].id) == hex_val(id));
        assert(hex_val(s.entries[j].id) == hex_val(id));
    }
}

/// What fetching by identifier returns: the malformed-identifier error, the
/// decoded record of the unique matching entry, or the not-found error.
pub open spec fn fetch_spec(s: StoreV, id: Seq<char>) -> Result<QuizV, ErrorV> {
    if !is_object_id(id) {
        Err(ErrorV::InvalidId(id))
    } else if has_match(s, id) {
        Ok(entry_quiz(s.entries[match_idx(s, id)]))
    } else {
        Err(ErrorV::NotFound(id))
    }
}

/// What creating a record does: the request's document form is appended
/// under the identifier drawn from the counter, the counter advances, and
/// the assigned identifier is returned.
pub open spec fn create_spec(s: StoreV, r: RequestV) -> (StoreV, Seq<char>) {
    let id = object_id_of(s.next);
    (
        StoreV {
            entries: s.entries.push(EntryV { id, doc: doc_of_request(r) }),
            next: s.next + 1,
        },
        id,
    )
}

/// What editing by identifier does: a malformed identifier is rejected; a
/// matching entry has its document replaced whole, keeping its identifier;
/// no match is a silent no-op success.
pub open spec fn edit_spec(s: StoreV, id: Seq<char>, r: RequestV) -> Result<StoreV, ErrorV> {
    if !is_object_id(id) {
        Err(ErrorV::InvalidId(id))
    } else if has_match(s, id) {
        let i = match_idx(s, id);
        Ok(
            StoreV {
                entries: s.entries.update(
                    i,
                    EntryV { id: s.entries[i].id, doc: doc_of_request(r) },
                ),
                next: s.next,
            },
        )
    } else {
        Ok(s)
    }
}

/// What deleting by identifier does: a malformed identifier is rejected; a
/// matching entry is removed; no match is a silent no-op success.
pub open spec fn delete_spec(s: StoreV, id: Seq<char>) -> Result<StoreV, ErrorV> {
    if !is_object_id(id) {
        Err(ErrorV::InvalidId(id))
    } else if has_match(s, id) {
        Ok(StoreV { entries: s.entries.remove(match_idx(s, id)), next: s.next })
    } else {
        Ok(s)
    }
}

/// Creation preserves well-formedness, as long as the counter value fits the
/// machine word the executable store keeps it in.
pub proof fn lemma_create_wf(s: StoreV, r: RequestV)
    requires
        store_wf(s),
        s.next <= u64::MAX,
    ensures
        store_wf(create_spec(s, r).0),
{
    let (s2, id) = create_spec(s, r);
    lemma_object_id_of(s.next as u64);
    crate::codec::lemma_doc_round_trip(id, r);
    let n = s.entries.len() as int;
    assert forall|i: int| 0 <= i < s2.entries.len() implies is_object_id(
        (#[trigger] s2.entries[i]).id,
    ) && hex_val(s2.entries[i].id) < s2.next && quiz_of_doc(
        s2.entries[i].id,
        s2.entries[i].doc,
    ) is Some by {
        if i < n {
            assert(s2.entries[i] == s.entries[i]);
        }
    }
    assert forall|i: int, j: int| 0 <= i < j < s2.entries.len() implies hex_val(
        (#[trigger] s2.entries[i]).id,
    ) != hex_val((#[trigger] s2.entries[j]).id) by {
        if j < n {
            assert(s2.entries[i] == s.entries[i] && s2.entries[j] == s.entries[j]);
        } else {
            assert(s2.entries[i] == s.entries[i] && s2.entries[j].id == id);
        }
    }
}

/// A quiz fetched right after it was created carries the identifier that the
/// creation returned and, field for field, the created request's values.
pub proof fn lemma_create_then_fetch(s: StoreV, r: RequestV)
    requires
        store_wf(s),
        s.next <= u64::MAX,
    ensures
        fetch_spec(create_spec(s, r).0, create_spec(s, r).1) == Ok::<QuizV, ErrorV>(
            quiz_of_request(create_spec(s, r).1, r),
        ),
{
    let (s2, id) = create_spec(s, r);
    let n = s.entries.len() as int;
    lemma_object_id_of(s.next as u64);
    lemma_create_wf(s, r);
    assert(entry_matches(s2, id, n));
    lemma_match_unique(s2, id, n);
    crate::codec::lemma_doc_round_trip(id, r);
}

/// Every identifier-taking operation rejects a malformed identifier string
/// with the invalid-identifier error naming that string, leaving the store
/// untouched.
pub proof fn lemma_malformed_id_rejected(s: StoreV, id: Seq<char>, r: RequestV)
    requires
        !is_object_id(id),
    ensures
        fetch_spec(s, id) == Err::<QuizV, ErrorV>(ErrorV::InvalidId(id)),
        edit_spec(s, id, r) == Err::<StoreV, ErrorV>(ErrorV::InvalidId(id)),
        delete_spec(s, id) == Err::<StoreV, ErrorV>(ErrorV::InvalidId(id)),
{
}

/// Editing under an identifier that matches nothing succeeds and leaves the
/// store exactly as it was.
pub proof fn lemma_edit_missing_is_noop(s: StoreV, id: Seq<char>, r: RequestV)
    requires
        is_object_id(id),
        !has_match(s, id),
    ensures
        edit_spec(s, id, r) == Ok::<StoreV, ErrorV>(s),
{
}

/// Fetching an identifier right after deleting it yields the not-found
/// error.
pub proof fn lemma_delete_then_fetch(s: StoreV, id: Seq<char>)
    requires
        store_wf(s),
        is_object_id(id),
    ensures
        delete_spec(s, id) matches Ok(s2) && fetch_spec(s2, id) == Err::<QuizV, ErrorV>(
            ErrorV::NotFound(id),
        ),
{
    if has_match(s, id) {
        let i = match_idx(s, id);
        assert(entry_matches(s, id, i));
        lemma_match_unique(s, id, i);
        let s2 = delete_spec(s, id)->Ok_0;
        assert forall|j: int| !entry_matches(s2, id, j) by {
            if 0 <= j < s2.entries.len() {
                let jj = if j < i {
                    j
                } else {
                    j + 1
                };
                assert(s2.entries[j] == s.entries[jj]);
                if same_object_id(id, s2.entries[j].id) {
                    assert(hex_val(s.entries[jj].id) == hex_val(id));
                    assert(hex_val(s.entries[i].id) == hex_val(id));
                    if jj < i {
                        assert(hex_val(s.entries[jj].id) != hex_val(s.entries[i].id));
                    } else {
                        assert(hex_val(s.entries[i].id) != hex_val(s.entries[jj].id));
                    }
                }
            }
        }
    } else {
        assert forall|j: int| !entry_matches(s, id, j) by {}
    }
}

/// One stored document of the executable store: the identifier string the
/// store keeps it under, and its fields.
pub struct StoredQuiz {
    pub id: String,
    pub doc: Document,
}

impl View for StoredQuiz {
    type V = EntryV;

    open spec fn view(&self) -> EntryV {
        EntryV { id: self.id@, doc: self.doc@ }
    }
}

/// The quiz collection: the stored documents in store order and the counter
/// for assigning identifiers.  Each method carries the exact contract of the
/// corresponding repository operation.
pub struct QuizStore {
    pub docs: Vec<StoredQuiz>,
    pub next_seq: u64,
}

impl View for QuizStore {
    type V = StoreV;

    open spec fn view(&self) -> StoreV {
        StoreV {
            entries: self.docs@.map_values(|d: StoredQuiz| d@),
            next: self.next_seq as nat,
        }
    }
}

/// The abstract values of a sequence of quiz records.
pub open spec fn quizzes_view(v: Seq<Quiz>) -> Seq<QuizV> {
    v.map_values(|q: Quiz| q@)
}

impl QuizStore {
    /// Well-formedness of the collection.
    pub open spec fn wf(&self) -> bool {
        store_wf(self@)
    }

    /// An empty collection.
    pub fn new() -> (s: Self)
        ensures
            s.wf(),
            s@.entries.len() == 0,
            s@.next == 0,
    {
        let s = QuizStore { docs: Vec::new(), next_seq: 0 };
        proof {
            assert(s@.entries =~= Seq::<EntryV>::empty());
        }
        s
    }

    /// Fetch the quiz stored under `id`: rejects a malformed identifier,
    /// reports not-found when nothing matches, and otherwise returns the
    /// decoded record of the unique matching document.
    pub fn fetch_quiz(&self, id: &str) -> (r: Result<Quiz, Error>)
        requires
            self.wf(),
        ensures
            (match r {
                Ok(q) => fetch_spec(self@, id@) == Ok::<QuizV, ErrorV>(q@),
                Err(e) => fetch_spec(self@, id@) == Err::<QuizV, ErrorV>(e@),
            }),
    {
        if !validate_object_id(id) {
            return Err(Error::InvalidIDError(String::from_str(id)));
        }
        let n = self.docs.len();
        let mut i: usize = 0;
        while i < n
            invariant
                self.wf(),
                0 <= i <= n,
                n == self.docs.len(),
                is_object_id(id@),
                forall|j: int| 0 <= j < i ==> !entry_matches(self@, id@, j),
            decreases n - i,
        {
            if object_ids_match(id, self.docs[i].id.as_str()) {
                proof {
                    assert(entry_matches(self@, id@, i as int));
                    lemma_match_unique(self@, id@, i as int);
                }
                let q = quiz_from_document(self.docs[i].id.as_str(), &self.docs[i].doc);
                return Ok(q.unwrap());
            }
            i = i + 1;
        }
        proof {
            assert forall|j: int| !entry_matches(self@, id@, j) by {}
        }
        Err(Error::NotFoundError(String::from_str(id)))
    }

    /// Create a quiz from `entry`: its document form is appended under a
    /// freshly assigned identifier, which is returned in string form.
    pub fn create_quiz(&mut self, entry: QuizRequest) -> (r: String)
        requires
            old(self).wf(),
            old(self)@.next < u64::MAX,
        ensures
            final(self).wf(),
            final(self)@ == create_spec(old(self)@, entry@).0,
            r@ == create_spec(old(self)@, entry@).1,
    {
        let id = object_id_string(self.next_seq);
        let doc = to_document(&entry);
        let stored = StoredQuiz { id, doc };
        let r = stored.id.clone();
        self.docs.push(stored);
        self.next_seq = self.next_seq + 1;
        proof {
            assert(self@.entries =~= create_spec(old(self)@, entry@).0.entries);
            lemma_create_wf(old(self)@, entry@);
        }
        r
    }

    /// Replace the document stored under `id` with `entry`'s document form:
    /// rejects a malformed identifier; succeeds silently when nothing
    /// matches.
    pub fn edit_quiz(&mut self, id: &str, entry: QuizRequest) -> (r: Result<(), Error>)
        requires
            old(self).wf(),
        ensures
            final(self).wf(),
            (match r {
                Ok(()) => edit_spec(old(self)@, id@, entry@) matches Ok(s2) && final(self)@ == s2,
                Err(e) => edit_spec(old(self)@, id@, entry@) == Err::<StoreV, ErrorV>(e@)
                    && *final(self) == *old(self),
            }),
    {
        if !validate_object_id(id) {
            return Err(Error::InvalidIDError(String::from_str(id)));
        }
        let n = self.docs.len();
        let mut i: usize = 0;
        while i < n
            invariant
                self.wf(),
                self == old(self),
                0 <= i <= n,
                n == self.docs.len(),
                is_object_id(id@),
                forall|j: int| 0 <= j < i ==> !entry_matches(self@, id@, j),
            decreases n - i,
        {
            if object_ids_match(id, self.docs[i].id.as_str()) {
                proof {
                    assert(entry_matches(self@, id@, i as int));
                    lemma_match_unique(self@, id@, i as int);
                }
                let old_entry = self.docs.remove(i);
                let replaced = StoredQuiz { id: old_entry.id, doc: to_document(&entry) };
                self.docs.insert(i, replaced);
                proof {
                    let s2 = edit_spec(old(self)@, id@, entry@)->Ok_0;
                    assert(self@.entries =~= s2.entries);
                    crate::codec::lemma_doc_round_trip(old(self)@.entries[i as int].id, entry@);
                    assert forall|a: int, b: int|
                        0 <= a < b < self@.entries.len() implies hex_val(
                        (#[trigger] self@.entries[a]).id,
                    ) != hex_val((#[trigger] self@.entries[b]).id) by {
                        assert(old(self)@.entries[a].id == self@.entries[a].id);
                        assert(old(self)@.entries[b].id == self@.entries[b].id);
                    }
                }
                return Ok(());
            }
            i = i + 1;
        }
        proof {
            assert forall|j: int| !entry_matches(self@, id@, j) by {}
        }
        Ok(())
    }

    /// Delete the document stored under `id`: rejects a malformed
    /// identifier; succeeds silently when nothing matches.
    pub fn delete_quiz(&mut self, id: &str) -> (r: Result<(), Error>)
        requires
            old(self).wf(),
        ensures
            final(self).wf(),
            (match r {
                Ok(()) => delete_spec(old(self)@, id@) matches Ok(s2) && final(self)@ == s2,
                Err(e) => delete_spec(old(self)@, id@) == Err::<StoreV, ErrorV>(e@)
                    && *final(self) == *old(self),
            }),
    {
        if !validate_object_id(id) {
            return Err(Error::InvalidIDError(String::from_str(id)));
        }
        let n = self.docs.len();
        let mut i: usize = 0;
        while i < n
            invariant
                self.wf(),
                self == old(self),
                0 <= i <= n,
                n == self.docs.len(),
                is_object_id(id@),
                forall|j: int| 0 <= j < i ==> !entry_matches(self@, id@, j),
            decreases n - i,
        {
            if object_ids_match(id, self.docs[i].id.as_str()) {
                proof {
                    assert(entry_matches(self@, id@, i as int));
                    lemma_match_unique(self@, id@, i as int);
                }
                self.docs.remove(i);
                proof {
                    let s2 = delete_spec(old(self)@, id@)->Ok_0;
                    assert(self@.entries =~= s2.entries);
                    assert forall|a: int|
                        0 <= a < self@.entries.len() implies is_object_id(
                        (#[trigger] self@.entries[a]).id,
                    ) && hex_val(self@.entries[a].id) < self@.next && quiz_of_doc(
                        self@.entries[a].id,
                        self@.entries[a].doc,
                    ) is Some by {
                        let aa = if a < i {
                            a
                        } else {
                            a + 1
                        };
                        assert(self@.entries[a] == old(self)@.entries[aa]);
                    }
                    assert forall|a: int, b: int|
                        0 <= a < b < self@.entries.len() implies hex_val(
                        (#[trigger] self@.entries[a]).id,
                    ) != hex_val((#[trigger] self@.entries[b]).id) by {
                        let aa = if a < i {
                            a
                        } else {
                            a + 1
                        };
                        let bb = if b < i {
                            b
                        } else {
                            b + 1
                        };
                        assert(self@.entries[a] == old(self)@.entries[aa]);
                        assert(self@.entries[b] == old(self)@.entries[bb]);
                    }
                }
                return Ok(());
            }
            i = i + 1;
        }
        proof {
            assert forall|j: int| !entry_matches(self@, id@, j) by {}
        }
        Ok(())
    }
}

/// All stored quizzes, decoded, in store order.
pub open spec fn all_quizzes(s: StoreV) -> Seq<QuizV> {
    s.entries.map_values(|e: EntryV| entry_quiz(e))
}

/// The index, among the first `k` quizzes, of the first one with maximal
/// timestamp.
pub open spec fn added_at_max_upto(qs: Seq<QuizV>, k: int) -> int
    decreases k,
{
    if k <= 1 {
        0
    } else {
        let p = added_at_max_upto(qs, k - 1);
        if qs[k - 1].added_at > qs[p].added_at {
            k - 1
        } else {
            p
        }
    }
}

/// The index of the first quiz with maximal timestamp.
pub open spec fn first_newest(qs: Seq<QuizV>) -> int {
    added_at_max_upto(qs, qs.len() as int)
}

/// Up to `k` quizzes selected by descending timestamp, earliest-stored
/// first among equals: the first newest, then the selection from the rest.
pub open spec fn recent_list(qs: Seq<QuizV>, k: nat) -> Seq<QuizV>
    decreases k,
{
    if k == 0 || qs.len() == 0 {
        Seq::empty()
    } else {
        let i = first_newest(qs);
        seq![qs[i]] + recent_list(qs.remove(i), (k - 1) as nat)
    }
}

/// What listing the most recent quizzes returns: the up-to-8 newest, by
/// descending timestamp.
pub open spec fn recent_spec(s: StoreV) -> Seq<QuizV> {
    recent_list(all_quizzes(s), crate::config::RECENT_LIMIT as nat)
}

/// The quizzes are ordered by non-increasing timestamp.
pub open spec fn sorted_by_added_desc(qs: Seq<QuizV>) -> bool {
    forall|i: int, j: int| 0 <= i < j < qs.len() ==> qs[i].added_at >= qs[j].added_at
}

/// The first-maximum index is in range and its timestamp dominates the
/// prefix it was taken over.
pub proof fn lemma_added_at_max_upto(qs: Seq<QuizV>, k: int)
    requires
        1 <= k <= qs.len(),
    ensures
        0 <= added_at_max_upto(qs, k) < k,
        forall|j: int|
            0 <= j < k ==> (#[trigger] qs[j]).added_at <= qs[added_at_max_upto(qs, k)].added_at,
    decreases k,
{
    if k > 1 {
        lemma_added_at_max_upto(qs, k - 1);
    }
}

/// The selection returns as many quizzes as asked for, or all of them if
/// there are fewer.
pub proof fn lemma_recent_len(qs: Seq<QuizV>, k: nat)
    ensures
        recent_list(qs, k).len() == (if k <= qs.len() {
            k as int
        } else {
            qs.len() as int
        }),
    decreases k,
{
    if k > 0 && qs.len() > 0 {
        lemma_added_at_max_upto(qs, qs.len() as int);
        lemma_recent_len(qs.remove(first_newest(qs)), (k - 1) as nat);
    }
}

/// Everything the selection returns is one of the quizzes it selected from.
pub proof fn lemma_recent_elements(qs: Seq<QuizV>, k: nat)
    ensures
        forall|x: QuizV| recent_list(qs, k).contains(x) ==> qs.contains(x),
    decreases k,
{
    if k > 0 && qs.len() > 0 {
        let i = first_newest(qs);
        lemma_added_at_max_upto(qs, qs.len() as int);
        let rest = qs.remove(i);
        lemma_recent_elements(rest, (k - 1) as nat);
        assert forall|x: QuizV| recent_list(qs, k).contains(x) implies qs.contains(x) by {
            let r = recent_list(qs, k);
            let ix = choose|ix: int| 0 <= ix < r.len() && r[ix] == x;
            if ix == 0 {
                assert(qs[i] == x);
            } else {
                assert(recent_list(rest, (k - 1) as nat).contains(x));
                assert(rest.contains(x));
                let jx = choose|jx: int| 0 <= jx < rest.len() && rest[jx] == x;
                if jx < i {
                    assert(qs[jx] == x);
                } else {
                    assert(qs[jx + 1] == x);
                }
            }
        }
    }
}

/// The selection is ordered by non-increasing timestamp.
pub proof fn lemma_recent_sorted(qs: Seq<QuizV>, k: nat)
    ensures
        sorted_by_added_desc(recent_list(qs, k)),
    decreases k,
{
    if k > 0 && qs.len() > 0 {
        let i = first_newest(qs);
        lemma_added_at_max_upto(qs, qs.len() as int);
        let rest = qs.remove(i);
        let tail = recent_list(rest, (k - 1) as nat);
        lemma_recent_sorted(rest, (k - 1) as nat);
        lemma_recent_elements(rest, (k - 1) as nat);
        let r = recent_list(qs, k);
        assert forall|a: int, b: int| 0 <= a < b < r.len() implies r[a].added_at >= r[b].added_at by {
            if a == 0 {
                assert(tail.contains(tail[b - 1]));
                assert(rest.contains(tail[b - 1]));
                let jx = choose|jx: int| 0 <= jx < rest.len() && rest[jx] == tail[b - 1];
                if jx < i {
                    assert(qs[jx] == tail[b - 1]);
                } else {
                    assert(qs[jx + 1] == tail[b - 1]);
                }
            } else {
                assert(tail[a - 1].added_at >= tail[b - 1].added_at);
            }
        }
    }
}

/// The listing of recent quizzes holds at most 8 entries, exactly 8 when
/// the collection has at least that many, ordered by descending timestamp.
pub proof fn lemma_recent_spec_props(s: StoreV)
    ensures
        recent_spec(s).len() == (if crate::config::RECENT_LIMIT <= all_quizzes(s).len() {
            crate::config::RECENT_LIMIT as int
        } else {
            all_quizzes(s).len() as int
        }),
        sorted_by_added_desc(recent_spec(s)),
{
    lemma_recent_len(all_quizzes(s), crate::config::RECENT_LIMIT as nat);
    lemma_recent_sorted(all_quizzes(s), crate::config::RECENT_LIMIT as nat);
}

impl QuizStore {
    /// All stored quizzes, decoded, in store order.
    pub fn fetch_quizzes(&self) -> (r: Vec<Quiz>)
        requires
            self.wf(),
        ensures
            quizzes_view(r@) == all_quizzes(self@),
    {
        let n = self.docs.len();
        let mut out: Vec<Quiz> = Vec::new();
        let mut i: usize = 0;
        proof {
            assert(quizzes_view(out@) =~= all_quizzes(self@).take(0));
        }
        while i < n
            invariant
                self.wf(),
                0 <= i <= n,
                n == self.docs.len(),
                quizzes_view(out@) == all_quizzes(self@).take(i as int),
            decreases n - i,
        {
            proof {
                assert(self@.entries[i as int] == self.docs@[i as int]@);
            }
            let q = quiz_from_document(self.docs[i].id.as_str(), &self.docs[i].doc);
            proof {
                assert(q is Some && q->0@ == entry_quiz(self@.entries[i as int]));
                assert(all_quizzes(self@)[i as int] == entry_quiz(self@.entries[i as int]));
            }
            let ghost prev = out@;
            proof {
                assert(all_quizzes(self@).len() == self@.entries.len() == self.docs@.len());
                assert(quizzes_view(prev).len() == prev.len());
                assert(prev.len() == i);
            }
            let q2 = q.unwrap();
            let ghost qv = q2@;
            out.push(q2);
            proof {
                assert(out@ == prev.push(q2));
                assert forall|j: int| 0 <= j < i + 1 implies quizzes_view(out@)[j] == all_quizzes(
                    self@,
                ).take(i as int + 1)[j] by {
                    assert(quizzes_view(out@)[j] == out@[j]@);
                    if j < i {
                        assert(out@[j] == prev[j]);
                        assert(quizzes_view(prev)[j] == prev[j]@);
                        assert(quizzes_view(prev)[j] == all_quizzes(self@).take(i as int)[j]);
                    } else {
                        assert(out@[j]@ == qv);
                    }
                }
                assert(quizzes_view(out@) =~= all_quizzes(self@).take(i as int + 1));
            }
            i = i + 1;
        }
        proof {
            assert(all_quizzes(self@).take(n as int) =~= all_quizzes(self@));
        }
        out
    }

    /// The most recently added quizzes: at most 8, sorted by descending
    /// timestamp, the earliest-stored first among equal timestamps.
    pub fn fetch_recent_quizzes(&self) -> (r: Vec<Quiz>)
        requires
            self.wf(),
        ensures
            quizzes_view(r@) == recent_spec(self@),
            r@.len() <= crate::config::RECENT_LIMIT,
    {
        let mut pool = self.fetch_quizzes();
        let mut out: Vec<Quiz> = Vec::new();
        let mut k: usize = 0;
        proof {
            assert(quizzes_view(out@) + recent_list(
                quizzes_view(pool@),
                crate::config::RECENT_LIMIT as nat,
            ) =~= recent_spec(self@));
        }
        while k < crate::config::RECENT_LIMIT && pool.len() > 0
            invariant
                0 <= k <= crate::config::RECENT_LIMIT,
                out@.len() == k,
                quizzes_view(out@) + recent_list(
                    quizzes_view(pool@),
                    (crate::config::RECENT_LIMIT - k) as nat,
                ) == recent_spec(self@),
            decreases crate::config::RECENT_LIMIT - k,
        {
            let ghost qs = quizzes_view(pool@);
            let n = pool.len();
            let mut best: usize = 0;
            let mut i: usize = 1;
            while i < n
                invariant
                    1 <= i <= n,
                    n == pool.len(),
                    qs == quizzes_view(pool@),
                    0 <= best < i,
                    best as int == added_at_max_upto(qs, i as int),
                decreases n - i,
            {
                if pool[i].added_at > pool[best].added_at {
                    best = i;
                }
                i = i + 1;
            }
            proof {
                assert(best as int == first_newest(qs));
            }
            let q = pool.remove(best);
            out.push(q);
            proof {
                assert(quizzes_view(pool@) =~= qs.remove(best as int));
                assert(quizzes_view(out@) =~= quizzes_view(out@.drop_last()).push(q@));
                assert(quizzes_view(out@.drop_last()).push(q@) + recent_list(
                    qs.remove(best as int),
                    (crate::config::RECENT_LIMIT - k - 1) as nat,
                ) =~= quizzes_view(out@.drop_last()) + recent_list(
                    qs,
                    (crate::config::RECENT_LIMIT - k) as nat,
                ));
            }
            k = k + 1;
        }
        proof {
            if k == crate::config::RECENT_LIMIT {
                assert(recent_list(quizzes_view(pool@), 0) =~= Seq::<QuizV>::empty());
            }
            assert(quizzes_view(out@) + Seq::<QuizV>::empty() =~= quizzes_view(out@));
        }
        out
    }
}

/// The stored quizzes whose title scores exactly `lvl` for the search term,
/// in store order.
pub open spec fn with_score(qs: Seq<QuizV>, term: Seq<char>, lvl: int) -> Seq<QuizV>
    decreases qs.len(),
{
    if qs.len() == 0 {
        Seq::empty()
    } else {
        with_score(qs.drop_last(), term, lvl) + (if score(qs.last().title, term) == lvl {
            seq![qs.last()]
        } else {
            Seq::empty()
        })
    }
}

/// The highest relevance score any quiz's title reaches for the term.
pub open spec fn max_score(qs: Seq<QuizV>, term: Seq<char>) -> nat
    decreases qs.len(),
{
    if qs.len() == 0 {
        0
    } else {
        let m = max_score(qs.drop_last(), term);
        if score(qs.last().title, term) > m {
            score(qs.last().title, term)
        } else {
            m
        }
    }
}

/// The quizzes scoring `lvl` down to 1, grouped by descending score, in
/// store order within a group.
pub open spec fn ranked(qs: Seq<QuizV>, term: Seq<char>, lvl: nat) -> Seq<QuizV>
    decreases lvl,
{
    if lvl == 0 {
        Seq::empty()
    } else {
        with_score(qs, term, lvl as int) + ranked(qs, term, (lvl - 1) as nat)
    }
}

/// What searching for a (decoded) term returns: every quiz whose title the
/// term occurs in, ordered by descending relevance score.
pub open spec fn search_spec(s: StoreV, term: Seq<char>) -> Seq<QuizV> {
    ranked(all_quizzes(s), term, max_score(all_quizzes(s), term))
}

/// No title scores above the maximum.
pub proof fn lemma_max_score_ge(qs: Seq<QuizV>, term: Seq<char>)
    ensures
        forall|j: int|
            0 <= j < qs.len() ==> score((#[trigger] qs[j]).title, term) <= max_score(qs, term),
    decreases qs.len(),
{
    if qs.len() > 0 {
        lemma_max_score_ge(qs.drop_last(), term);
        assert forall|j: int|
            0 <= j < qs.len() implies score((#[trigger] qs[j]).title, term) <= max_score(
            qs,
            term,
        ) by {
            if j < qs.len() - 1 {
                assert(qs.drop_last()[j] == qs[j]);
            }
        }
    }
}

/// Every quiz in a score group scores exactly that group's level, and comes
/// from the searched sequence.
pub proof fn lemma_with_score_members(qs: Seq<QuizV>, term: Seq<char>, lvl: int)
    ensures
        forall|i: int|
            0 <= i < with_score(qs, term, lvl).len() ==> score(
                (#[trigger] with_score(qs, term, lvl)[i]).title,
                term,
            ) == lvl,
        forall|i: int|
            0 <= i < with_score(qs, term, lvl).len() ==> qs.contains(
                #[trigger] with_score(qs, term, lvl)[i],
            ),
    decreases qs.len(),
{
    if qs.len() > 0 {
        lemma_with_score_members(qs.drop_last(), term, lvl);
        let w = with_score(qs, term, lvl);
        let w0 = with_score(qs.drop_last(), term, lvl);
        assert forall|i: int|
            0 <= i < w.len() implies score((#[trigger] w[i]).title, term) == lvl && qs.contains(
            w[i],
        ) by {
            if i < w0.len() {
                assert(w[i] == w0[i]);
                assert(qs.drop_last().contains(w0[i]));
                let j = choose|j: int|
                    0 <= j < qs.drop_last().len() && qs.drop_last()[j] == w0[i];
                assert(qs[j] == w[i]);
            } else {
                assert(w[i] == qs.last());
                assert(qs[qs.len() - 1] == qs.last());
            }
        }
    }
}

/// The ranked listing is ordered by non-increasing relevance score, every
/// listed quiz scores at least 1 and at most `lvl`, and every listed quiz
/// is a searched one.
pub proof fn lemma_ranked_sorted(qs: Seq<QuizV>, term: Seq<char>, lvl: nat)
    ensures
        forall|a: int, b: int|
            0 <= a < b < ranked(qs, term, lvl).len() ==> score(
                (#[trigger] ranked(qs, term, lvl)[a]).title,
                term,
            ) >= score((#[trigger] ranked(qs, term, lvl)[b]).title, term),
        forall|a: int|
            0 <= a < ranked(qs, term, lvl).len() ==> 1 <= score(
                (#[trigger] ranked(qs, term, lvl)[a]).title,
                term,
            ) <= lvl,
        forall|a: int|
            0 <= a < ranked(qs, term, lvl).len() ==> qs.contains(#[trigger] ranked(qs, term, lvl)[a]),
    decreases lvl,
{
    if lvl > 0 {
        lemma_ranked_sorted(qs, term, (lvl - 1) as nat);
        lemma_with_score_members(qs, term, lvl as int);
        let r = ranked(qs, term, lvl);
        let w = with_score(qs, term, lvl as int);
        let rest = ranked(qs, term, (lvl - 1) as nat);
        assert forall|a: int|
            0 <= a < r.len() implies 1 <= score((#[trigger] r[a]).title, term) <= lvl
                && qs.contains(r[a]) by {
            if a < w.len() {
                assert(r[a] == w[a]);
            } else {
                assert(r[a] == rest[a - w.len()]);
            }
        }
        assert forall|a: int, b: int|
            0 <= a < b < r.len() implies score((#[trigger] r[a]).title, term) >= score(
            (#[trigger] r[b]).title,
            term,
        ) by {
            if a < w.len() {
                assert(r[a] == w[a]);
            } else {
                assert(r[a] == rest[a - w.len()]);
            }
            if b < w.len() {
                assert(r[b] == w[b]);
            } else {
                assert(r[b] == rest[b - w.len()]);
            }
        }
    }
}

/// Search results come ordered by descending relevance score.
pub proof fn lemma_search_ordered(s: StoreV, term: Seq<char>)
    ensures
        forall|a: int, b: int|
            0 <= a < b < search_spec(s, term).len() ==> score(
                (#[trigger] search_spec(s, term)[a]).title,
                term,
            ) >= score((#[trigger] search_spec(s, term)[b]).title, term),
{
    lemma_ranked_sorted(all_quizzes(s), term, max_score(all_quizzes(s), term));
}

/// Where no title matches the term at all, a score group below 1 is empty.
proof fn lemma_with_score_none(qs: Seq<QuizV>, term: Seq<char>, lvl: int)
    requires
        lvl >= 1,
        forall|j: int| 0 <= j < qs.len() ==> score((#[trigger] qs[j]).title, term) == 0,
    ensures
        with_score(qs, term, lvl) =~= Seq::<QuizV>::empty(),
    decreases qs.len(),
{
    if qs.len() > 0 {
        assert forall|j: int|
            0 <= j < qs.drop_last().len() implies score(
            (#[trigger] qs.drop_last()[j]).title,
            term,
        ) == 0 by {
            assert(qs.drop_last()[j] == qs[j]);
        }
        lemma_with_score_none(qs.drop_last(), term, lvl);
        assert(score(qs[qs.len() - 1].title, term) == 0);
    }
}

/// Where exactly one title matches the term, each score group is that one
/// quiz at its score's level and empty elsewhere.
proof fn lemma_with_score_single(qs: Seq<QuizV>, term: Seq<char>, i: int, lvl: int)
    requires
        0 <= i < qs.len(),
        lvl >= 1,
        forall|j: int|
            0 <= j < qs.len() && j != i ==> score((#[trigger] qs[j]).title, term) == 0,
    ensures
        with_score(qs, term, lvl) =~= (if score(qs[i].title, term) == lvl {
            seq![qs[i]]
        } else {
            Seq::<QuizV>::empty()
        }),
    decreases qs.len(),
{
    let last = qs.len() - 1;
    if i == last {
        assert forall|j: int|
            0 <= j < qs.drop_last().len() implies score(
            (#[trigger] qs.drop_last()[j]).title,
            term,
        ) == 0 by {
            assert(qs.drop_last()[j] == qs[j]);
        }
        lemma_with_score_none(qs.drop_last(), term, lvl);
        assert(qs.last() == qs[i]);
    } else {
        assert forall|j: int|
            0 <= j < qs.drop_last().len() && j != i implies score(
            (#[trigger] qs.drop_last()[j]).title,
            term,
        ) == 0 by {
            assert(qs.drop_last()[j] == qs[j]);
        }
        assert(qs.drop_last()[i] == qs[i]);
        lemma_with_score_single(qs.drop_last(), term, i, lvl);
        assert(score(qs[last].title, term) == 0);
    }
}

/// Where exactly one title matches the term, the ranked listing down from
/// any level at or above its score is exactly that one quiz.
proof fn lemma_ranked_single(qs: Seq<QuizV>, term: Seq<char>, i: int, lvl: nat)
    requires
        0 <= i < qs.len(),
        score(qs[i].title, term) >= 1,
        forall|j: int|
            0 <= j < qs.len() && j != i ==> score((#[trigger] qs[j]).title, term) == 0,
    ensures
        ranked(qs, term, lvl) =~= (if score(qs[i].title, term) <= lvl {
            seq![qs[i]]
        } else {
            Seq::<QuizV>::empty()
        }),
    decreases lvl,
{
    if lvl > 0 {
        lemma_ranked_single(qs, term, i, (lvl - 1) as nat);
        lemma_with_score_single(qs, term, i, lvl as int);
    }
}

/// Where the term occurs in exactly one stored quiz's title, searching for
/// it returns exactly that quiz.
pub proof fn lemma_search_single_match(s: StoreV, term: Seq<char>, i: int)
    requires
        0 <= i < all_quizzes(s).len(),
        score(all_quizzes(s)[i].title, term) >= 1,
        forall|j: int|
            0 <= j < all_quizzes(s).len() && j != i ==> score(
                (#[trigger] all_quizzes(s)[j]).title,
                term,
            ) == 0,
    ensures
        search_spec(s, term) == seq![all_quizzes(s)[i]],
{
    let qs = all_quizzes(s);
    let sc = score(qs[i].title, term);
    lemma_max_score_ge(qs, term);
    assert(max_score(qs, term) >= sc) by {
        assert(score(qs[i].title, term) <= max_score(qs, term));
    }
    lemma_ranked_single(qs, term, i, max_score(qs, term));
    assert(search_spec(s, term) =~= seq![qs[i]]) by {
        assert(sc <= max_score(qs, term));
    }
}

impl QuizStore {
    /// Search the collection for a percent-encoded title term.  A term whose
    /// decoding fails is rejected as an invalid query; otherwise every quiz
    /// whose title the decoded term occurs in is returned, ordered by
    /// descending relevance score (number of occurrences), in store order
    /// within equal scores.
    pub fn search_quizzes(&self, title: &str) -> (r: Result<Vec<Quiz>, Error>)
        requires
            self.wf(),
        ensures
            (match r {
                Ok(v) => url_decoded(title@) is Some && quizzes_view(v@) == search_spec(
                    self@,
                    url_decoded(title@)->0,
                ),
                Err(e) => url_decoded(title@) is None && e@ == ErrorV::InvalidQuery(title@),
            }),
    {
        let decoded = match percent_decode(title) {
            Some(d) => d,
            None => {
                return Err(Error::InvalidQueryError(String::from_str(title)));
            },
        };
        let ghost term = decoded@;
        let all = self.fetch_quizzes();
        let ghost qs = quizzes_view(all@);
        let n = all.len();
        proof {
            assert(qs.len() == n);
        }
        let mut scores: Vec<usize> = Vec::new();
        let mut i: usize = 0;
        while i < n
            invariant
                0 <= i <= n,
                n == all.len(),
                qs == quizzes_view(all@),
                term == decoded@,
                scores@.len() == i,
                forall|j: int| 0 <= j < i ==> scores@[j] as nat == score(qs[j].title, term),
            decreases n - i,
        {
            proof {
                assert(qs[i as int] == all@[i as int]@);
            }
            scores.push(count_occurrences(all[i].title.as_str(), decoded.as_str()));
            i = i + 1;
        }
        let mut m: usize = 0;
        i = 0;
        proof {
            assert(qs.take(0) =~= Seq::<QuizV>::empty());
        }
        while i < n
            invariant
                0 <= i <= n,
                n == all.len(),
                n == qs.len(),
                scores@.len() == n,
                qs == quizzes_view(all@),
                forall|j: int| 0 <= j < n ==> scores@[j] as nat == score(qs[j].title, term),
                m as nat == max_score(qs.take(i as int), term),
            decreases n - i,
        {
            proof {
                assert(qs.take(i as int + 1).drop_last() =~= qs.take(i as int));
                assert(qs.take(i as int + 1).last() == qs[i as int]);
            }
            if scores[i] > m {
                m = scores[i];
            }
            i = i + 1;
        }
        proof {
            assert(qs.take(n as int) =~= qs);
        }
        let mut out: Vec<Quiz> = Vec::new();
        let mut lvl: usize = m;
        proof {
            assert(quizzes_view(out@) =~= Seq::<QuizV>::empty());
            assert(Seq::<QuizV>::empty() + ranked(qs, term, m as nat) =~= ranked(
                qs,
                term,
                max_score(qs, term),
            ));
        }
        while lvl > 0
            invariant
                0 <= lvl <= m,
                n == all.len(),
                n == qs.len(),
                scores@.len() == n,
                qs == quizzes_view(all@),
                forall|j: int| 0 <= j < n ==> scores@[j] as nat == score(qs[j].title, term),
                quizzes_view(out@) + ranked(qs, term, lvl as nat) == ranked(
                    qs,
                    term,
                    max_score(qs, term),
                ),
            decreases lvl,
        {
            let ghost out0 = quizzes_view(out@);
            let mut j: usize = 0;
            proof {
                assert(with_score(qs.take(0), term, lvl as int) =~= Seq::<QuizV>::empty());
                assert(out0 + Seq::<QuizV>::empty() =~= out0);
            }
            while j < n
                invariant
                    0 <= j <= n,
                    0 < lvl,
                    n == all.len(),
                    n == qs.len(),
                    scores@.len() == n,
                    qs == quizzes_view(all@),
                    forall|jj: int| 0 <= jj < n ==> scores@[jj] as nat == score(qs[jj].title, term),
                    quizzes_view(out@) == out0 + with_score(qs.take(j as int), term, lvl as int),
                decreases n - j,
            {
                proof {
                    assert(qs.take(j as int + 1).drop_last() =~= qs.take(j as int));
                    assert(qs.take(j as int + 1).last() == qs[j as int]);
                    assert(scores@[j as int] as nat == score(qs[j as int].title, term));
                }
                if scores[j] == lvl {
                    proof {
                        assert(score(qs[j as int].title, term) == lvl as nat);
                        assert(with_score(qs.take(j as int + 1), term, lvl as int) == with_score(
                            qs.take(j as int),
                            term,
                            lvl as int,
                        ) + seq![qs[j as int]]);
                    }
                    let ghost prev = out@;
                    let d = all[j].duplicate();
                    let ghost dv = d@;
                    out.push(d);
                    proof {
                        assert(qs[j as int] == all@[j as int]@);
                        assert(dv == qs[j as int]);
                        assert(quizzes_view(prev).len() == prev.len());
                        assert forall|x: int|
                            0 <= x < out@.len() implies quizzes_view(out@)[x] == (out0
                            + with_score(qs.take(j as int + 1), term, lvl as int))[x] by {
                            assert(quizzes_view(out@)[x] == out@[x]@);
                            if x < prev.len() {
                                assert(out@[x] == prev[x]);
                                assert(quizzes_view(prev)[x] == prev[x]@);
                            } else {
                                assert(out@[x]@ == dv);
                            }
                        }
                        assert(quizzes_view(out@) =~= out0 + with_score(
                            qs.take(j as int + 1),
                            term,
                            lvl as int,
                        ));
                    }
                } else {
                    proof {
                        assert(score(qs[j as int].title, term) != lvl as nat);
                        assert(with_score(qs.take(j as int + 1), term, lvl as int) == with_score(
                            qs.take(j as int),
                            term,
                            lvl as int,
                        ) + Seq::<QuizV>::empty());
                        assert(quizzes_view(out@) =~= out0 + with_score(
                            qs.take(j as int + 1),
                            term,
                            lvl as int,
                        ));
                    }
                }
                j = j + 1;
            }
            proof {
                assert(qs.take(n as int) =~= qs);
                assert(out0 + with_score(qs, term, lvl as int) + ranked(
                    qs,
                    term,
                    (lvl - 1) as nat,
                ) =~= out0 + ranked(qs, term, lvl as nat));
            }
            lvl = lvl - 1;
        }
        proof {
            assert(ranked(qs, term, 0) =~= Seq::<QuizV>::empty());
            assert(quizzes_view(out@) + Seq::<QuizV>::empty() =~= quizzes_view(out@));
        }
        Ok(out)
    }
}

/// The entry's document carries, as its tag set, exactly the single fixed
/// maintenance tag.
pub open spec fn has_maintenance_tag(e: EntryV) -> bool {
    first_value(e.doc, FieldName::Tags) == Some(
        ValueV::TextList(seq![crate::config::MAINTENANCE_TAG@]),
    )
}

/// The entries the bulk maintenance delete keeps: those not tagged, in
/// store order.
pub open spec fn purged(entries: Seq<EntryV>) -> Seq<EntryV>
    decreases entries.len(),
{
    if entries.len() == 0 {
        Seq::empty()
    } else {
        (if has_maintenance_tag(entries.first()) {
            Seq::empty()
        } else {
            seq![entries.first()]
        }) + purged(entries.drop_first())
    }
}

/// What the bulk maintenance delete does: the tagged documents leave, the
/// rest keep their order, and the count of removed documents is reported.
pub open spec fn purge_spec(s: StoreV) -> (StoreV, int) {
    (
        StoreV { entries: purged(s.entries), next: s.next },
        s.entries.len() - purged(s.entries).len(),
    )
}

/// The kept entries are no more numerous than the stored ones.
pub proof fn lemma_purged_len(entries: Seq<EntryV>)
    ensures
        purged(entries).len() <= entries.len(),
    decreases entries.len(),
{
    if entries.len() > 0 {
        lemma_purged_len(entries.drop_first());
    }
}

/// Every kept entry is one of the stored ones.
pub proof fn lemma_purged_contains(entries: Seq<EntryV>)
    ensures
        forall|x: EntryV| purged(entries).contains(x) ==> entries.contains(x),
    decreases entries.len(),
{
    if entries.len() > 0 {
        lemma_purged_contains(entries.drop_first());
        assert forall|x: EntryV| purged(entries).contains(x) implies entries.contains(x) by {
            let p = purged(entries);
            let ix = choose|ix: int| 0 <= ix < p.len() && p[ix] == x;
            if !has_maintenance_tag(entries.first()) && ix == 0 {
                assert(entries[0] == x);
            } else {
                assert(purged(entries.drop_first()).contains(x));
                assert(entries.drop_first().contains(x));
                let j = choose|j: int|
                    0 <= j < entries.drop_first().len() && entries.drop_first()[j] == x;
                assert(entries[j + 1] == x);
            }
        }
    }
}

/// The bulk maintenance delete preserves well-formedness.
pub proof fn lemma_purge_wf(s: StoreV)
    requires
        store_wf(s),
    ensures
        store_wf(purge_spec(s).0),
    decreases s.entries.len(),
{
    if s.entries.len() == 0 {
        assert(purged(s.entries) =~= Seq::<EntryV>::empty());
    } else {
        let rest = StoreV { entries: s.entries.drop_first(), next: s.next };
        assert forall|i: int, j: int|
            0 <= i < j < rest.entries.len() implies hex_val(
            (#[trigger] rest.entries[i]).id,
        ) != hex_val((#[trigger] rest.entries[j]).id) by {
            assert(rest.entries[i] == s.entries[i + 1] && rest.entries[j] == s.entries[j + 1]);
        }
        assert forall|i: int|
            0 <= i < rest.entries.len() implies is_object_id((#[trigger] rest.entries[i]).id)
                && hex_val(rest.entries[i].id) < rest.next && quiz_of_doc(
                rest.entries[i].id,
                rest.entries[i].doc,
            ) is Some by {
            assert(rest.entries[i] == s.entries[i + 1]);
        }
        lemma_purge_wf(rest);
        lemma_purged_contains(rest.entries);
        let p = purged(s.entries);
        let prest = purged(rest.entries);
        assert forall|i: int|
            0 <= i < p.len() implies is_object_id((#[trigger] p[i]).id) && hex_val(p[i].id)
                < s.next && quiz_of_doc(p[i].id, p[i].doc) is Some by {
            if !has_maintenance_tag(s.entries.first()) && i == 0 {
                assert(p[0] == s.entries[0]);
            } else {
                let off = if has_maintenance_tag(s.entries.first()) {
                    0int
                } else {
                    1int
                };
                assert(p[i] == prest[i - off]);
            }
        }
        assert forall|i: int, j: int| 0 <= i < j < p.len() implies hex_val(
            (#[trigger] p[i]).id,
        ) != hex_val((#[trigger] p[j]).id) by {
            let off = if has_maintenance_tag(s.entries.first()) {
                0int
            } else {
                1int
            };
            if off == 1 && i == 0 {
                assert(p[0] == s.entries[0]);
                assert(p[j] == prest[j - 1]);
                assert(prest.contains(prest[j - 1]));
                assert(rest.entries.contains(prest[j - 1]));
                let jj = choose|jj: int|
                    0 <= jj < rest.entries.len() && rest.entries[jj] == prest[j - 1];
                assert(s.entries[jj + 1] == p[j]);
            } else {
                assert(p[i] == prest[i - off] && p[j] == prest[j - off]);
            }
        }
    }
}

/// Whether this stored document carries exactly the fixed maintenance tag.
fn entry_has_maintenance_tag(sd: &StoredQuiz) -> (r: bool)
    ensures
        r == has_maintenance_tag(sd@),
{
    let positions = first_positions(&sd.doc);
    match positions.1 {
        None => false,
        Some(j) => match &sd.doc.fields[j].value {
            Value::TextList(v) => {
                if v.len() == 1 {
                    let lit = String::from_str(crate::config::MAINTENANCE_TAG);
                    let r = lit == v[0];
                    proof {
                        assert(strs_view(v@)[0] == v@[0]@);
                        if r {
                            assert(strs_view(v@) =~= seq![crate::config::MAINTENANCE_TAG@]);
                        } else {
                            if strs_view(v@) == seq![crate::config::MAINTENANCE_TAG@] {
                                assert(v@[0]@ == crate::config::MAINTENANCE_TAG@);
                            }
                        }
                    }
                    r
                } else {
                    proof {
                        assert(strs_view(v@).len() == v@.len());
                    }
                    false
                }
            },
            _ => false,
        },
    }
}

impl QuizStore {
    /// Bulk maintenance delete: removes every document whose tag set is
    /// exactly the single fixed maintenance tag, and reports how many
    /// documents were removed.
    pub fn delete_quizzes(&mut self) -> (count: usize)
        requires
            old(self).wf(),
        ensures
            final(self).wf(),
            final(self)@ == purge_spec(old(self)@).0,
            count as int == purge_spec(old(self)@).1,
    {
        let ghost entries0 = old(self)@.entries;
        let n = self.docs.len();
        let mut count: usize = 0;
        let mut i: usize = n;
        proof {
            assert(entries0.skip(n as int) =~= Seq::<EntryV>::empty());
            assert(self@.entries =~= entries0.take(n as int) + purged(entries0.skip(n as int)));
        }
        while i > 0
            invariant
                0 <= i <= n,
                n == entries0.len(),
                self@.next == old(self)@.next,
                self@.entries == entries0.take(i as int) + purged(entries0.skip(i as int)),
                count as int == n - i - purged(entries0.skip(i as int)).len(),
                count <= n - i,
            decreases i,
        {
            i = i - 1;
            proof {
                lemma_purged_len(entries0.skip(i as int));
                assert(self@.entries == entries0.take(i as int + 1) + purged(
                    entries0.skip(i as int + 1),
                ));
                assert(entries0.take(i as int + 1).len() == i + 1);
                assert(self@.entries.len() >= i + 1);
                assert(self.docs@.len() == self@.entries.len());
                assert(entries0.skip(i as int).first() == entries0[i as int]);
                assert(entries0.skip(i as int).drop_first() =~= entries0.skip(i as int + 1));
                assert(self.docs@[i as int]@ == self@.entries[i as int]);
                assert(self@.entries[i as int] == entries0[i as int]);
            }
            let tagged = entry_has_maintenance_tag(&self.docs[i]);
            let ghost docs_before = self.docs@;
            let ghost before_v = docs_before.map_values(|d: StoredQuiz| d@);
            if tagged {
                self.docs.remove(i);
                count = count + 1;
                proof {
                    assert(has_maintenance_tag(entries0[i as int]));
                    assert(purged(entries0.skip(i as int)) == Seq::<EntryV>::empty() + purged(
                        entries0.skip(i as int + 1),
                    ));
                    assert(purged(entries0.skip(i as int)) =~= purged(entries0.skip(i as int + 1)));
                    assert(before_v == entries0.take(i as int + 1) + purged(
                        entries0.skip(i as int + 1),
                    ));
                    assert(before_v.len() == docs_before.len());
                    assert(self.docs@ == docs_before.remove(i as int));
                    assert(self@.entries.len() == self.docs@.len());
                    assert forall|x: int|
                        0 <= x < self@.entries.len() implies self@.entries[x] == (entries0.take(
                        i as int,
                    ) + purged(entries0.skip(i as int)))[x] by {
                        assert(self@.entries[x] == self.docs@[x]@);
                        if x < i {
                            assert(self.docs@[x] == docs_before[x]);
                            assert(before_v[x] == docs_before[x]@);
                            assert(before_v[x] == entries0.take(i as int + 1)[x]);
                        } else {
                            assert(self.docs@[x] == docs_before[x + 1]);
                            assert(before_v[x + 1] == docs_before[x + 1]@);
                            assert(before_v[x + 1] == purged(entries0.skip(i as int + 1))[x + 1 - (
                            i + 1)]);
                        }
                    }
                    assert(self@.entries =~= entries0.take(i as int) + purged(
                        entries0.skip(i as int),
                    ));
                }
            } else {
                proof {
                    assert(purged(entries0.skip(i as int)) == seq![entries0[i as int]] + purged(
                        entries0.skip(i as int + 1),
                    ));
                    assert(self@.entries =~= entries0.take(i as int) + purged(
                        entries0.skip(i as int),
                    ));
                }
            }
        }
        proof {
            assert(entries0.take(0) =~= Seq::<EntryV>::empty());
            assert(entries0.skip(0) =~= entries0);
            assert(self@.entries == purged(entries0));
            assert(self@ == purge_spec(old(self)@).0);
            lemma_purge_wf(old(self)@);
        }
        count
    }
}

} // verus!
