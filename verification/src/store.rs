//! Transcript store.
//!
//! A queryable log of transcripts keyed by a derived short identifier.
//! `save` derives the identifier from the text and the timestamp and
//! upserts the record: a record with the same identifier is silently
//! replaced, the later write wins.  `list` returns the most recent
//! records ordered by timestamp descending — records with equal
//! timestamps keep their insertion order, a deliberate deterministic
//! tie-break.  `find_by_prefix` returns the first record, in the
//! store's own order, whose identifier starts with a prefix; on an
//! ambiguous prefix only that one record comes back.
//!
//! The store itself is an in-memory table; the durable copy on disk is
//! kept by the caller, which loads records back in through `insert`.

use vstd::prelude::*;
use vstd::math::min;
use vstd::multiset::Multiset;
use vstd::seq_lib::lemma_multiset_commutative;

use crate::ident::{generate_id, transcript_id};
use crate::text::str_starts_with;

verus! {

/// A stored transcript record.
pub struct Transcript {
    /// Short derived identifier, unique within the store.
    pub id: String,
    /// The transcribed text.
    pub text: String,
    /// Creation time, as the caller's clock reported it.
    pub timestamp: i64,
    /// Directory that was active when the recording was made.
    pub working_dir: String,
}

/// Mathematical value of a transcript record.
pub ghost struct TranscriptV {
    pub id: Seq<char>,
    pub text: Seq<char>,
    pub timestamp: int,
    pub working_dir: Seq<char>,
}

impl View for Transcript {
    type V = TranscriptV;

    open spec fn view(&self) -> TranscriptV {
        TranscriptV {
            id: self.id@,
            text: self.text@,
            timestamp: self.timestamp as int,
            working_dir: self.working_dir@,
        }
    }
}

impl Transcript {
    /// Copy of the record.
    pub fn duplicate(&self) -> (r: Transcript)
        ensures
            r@ == self@,
    {
        Transcript {
            id: self.id.clone(),
            text: self.text.clone(),
            timestamp: self.timestamp,
            working_dir: self.working_dir.clone(),
        }
    }
}

/// The values of a run of records.
pub open spec fn views_of(s: Seq<Transcript>) -> Seq<TranscriptV> {
    s.map_values(|t: Transcript| t@)
}

/// Index of the first record with the given identifier, or -1 when no
/// record has it.
pub open spec fn id_index(s: Seq<TranscriptV>, id: Seq<char>) -> int
    decreases s.len(),
{
    if s.len() == 0 {
        -1
    } else if s[0].id == id {
        0
    } else {
        let r = id_index(s.drop_first(), id);
        if r < 0 {
            -1
        } else {
            r + 1
        }
    }
}

/// What `id_index` finds: -1 exactly when no record has the
/// identifier, otherwise the first index that has it.
pub proof fn lemma_id_index(s: Seq<TranscriptV>, id: Seq<char>)
    ensures
        id_index(s, id) == -1 ==> forall|j: int| 0 <= j < s.len() ==> (#[trigger] s[j]).id != id,
        id_index(s, id) != -1 ==> {
            let i = id_index(s, id);
            &&& 0 <= i < s.len()
            &&& s[i].id == id
            &&& forall|j: int| 0 <= j < i ==> (#[trigger] s[j]).id != id
        },
    decreases s.len(),
{
    if s.len() > 0 && s[0].id != id {
        let rest = s.drop_first();
        lemma_id_index(rest, id);
        if id_index(s, id) == -1 {
            assert forall|j: int| 0 <= j < s.len() implies (#[trigger] s[j]).id != id by {
                if j > 0 {
                    assert(rest[j - 1] == s[j]);
                }
            }
        } else {
            let i = id_index(s, id);
            assert(s[i] == rest[i - 1]);
            assert forall|j: int| 0 <= j < i implies (#[trigger] s[j]).id != id by {
                if j > 0 {
                    assert(rest[j - 1] == s[j]);
                }
            }
        }
    }
}

/// Insert-or-replace: a record with the same identifier is replaced in
/// place, keeping its position; a fresh identifier is appended.
pub open spec fn upsert(s: Seq<TranscriptV>, t: TranscriptV) -> Seq<TranscriptV> {
    let i = id_index(s, t.id);
    if i == -1 {
        s.push(t)
    } else {
        s.update(i, t)
    }
}

/// No two records share an identifier.
pub open spec fn unique_ids(s: Seq<TranscriptV>) -> bool {
    forall|i: int, j: int|
        0 <= i < j < s.len() ==> (#[trigger] s[i]).id != (#[trigger] s[j]).id
}

/// Upsert keeps identifiers unique.
pub proof fn lemma_upsert_unique(s: Seq<TranscriptV>, t: TranscriptV)
    requires
        unique_ids(s),
    ensures
        unique_ids(upsert(s, t)),
{
    lemma_id_index(s, t.id);
    let i = id_index(s, t.id);
    let r = upsert(s, t);
    if i == -1 {
        assert forall|a: int, b: int| 0 <= a < b < r.len() implies r[a].id != r[b].id by {
            if b == s.len() {
                assert(r[a] == s[a]);
                assert(r[b] == t);
            } else {
                assert(r[a] == s[a]);
                assert(r[b] == s[b]);
            }
        }
    } else {
        assert forall|a: int, b: int| 0 <= a < b < r.len() implies r[a].id != r[b].id by {
            if a == i {
                assert(r[a] == t);
                assert(r[b] == s[b]);
                assert(s[i].id == t.id);
            } else if b == i {
                assert(r[a] == s[a]);
                assert(r[b] == t);
                assert(s[i].id == t.id);
            } else {
                assert(r[a] == s[a]);
                assert(r[b] == s[b]);
            }
        }
    }
}

/// Replace law: two upserts whose records carry the same identifier
/// come down to the second upsert alone — the later write fully
/// replaces the earlier one, whatever else the records hold.
pub proof fn lemma_upsert_same_id(s: Seq<TranscriptV>, a: TranscriptV, b: TranscriptV)
    requires
        a.id == b.id,
    ensures
        upsert(upsert(s, a), b) == upsert(s, b),
{
    lemma_id_index(s, a.id);
    let i = id_index(s, a.id);
    if i == -1 {
        let s1 = s.push(a);
        lemma_id_index(s1, b.id);
        let k = id_index(s1, b.id);
        assert(s1[s.len() as int] == a);
        assert(k != -1);
        assert(k == s.len()) by {
            if k < s.len() {
                assert(s1[k] == s[k]);
            }
        }
        assert(upsert(upsert(s, a), b) =~= s.push(b));
        assert(upsert(s, b) == s.push(b));
    } else {
        let s1 = s.update(i, a);
        lemma_id_index(s1, b.id);
        let k = id_index(s1, b.id);
        assert(s1[i] == a);
        assert(k != -1);
        assert(k == i) by {
            if k < i {
                assert(s1[k] == s[k]);
                assert(s[k].id != a.id);
            }
            if k > i {
                assert(forall|j: int| 0 <= j < k ==> (#[trigger] s1[j]).id != b.id);
                assert(s1[i].id == b.id);
            }
        }
        assert(upsert(upsert(s, a), b) =~= s.update(i, b));
        assert(upsert(s, b) == s.update(i, b));
    }
}

/// Index of the first record, in store order, whose identifier starts
/// with the prefix; -1 when none does.
pub open spec fn first_prefix_match(s: Seq<TranscriptV>, p: Seq<char>) -> int
    decreases s.len(),
{
    if s.len() == 0 {
        -1
    } else if p.is_prefix_of(s[0].id) {
        0
    } else {
        let r = first_prefix_match(s.drop_first(), p);
        if r < 0 {
            -1
        } else {
            r + 1
        }
    }
}

/// What `first_prefix_match` finds.
pub proof fn lemma_first_prefix_match(s: Seq<TranscriptV>, p: Seq<char>)
    ensures
        first_prefix_match(s, p) == -1 ==> forall|j: int|
            0 <= j < s.len() ==> !p.is_prefix_of((#[trigger] s[j]).id),
        first_prefix_match(s, p) != -1 ==> {
            let i = first_prefix_match(s, p);
            &&& 0 <= i < s.len()
            &&& p.is_prefix_of(s[i].id)
            &&& forall|j: int| 0 <= j < i ==> !p.is_prefix_of((#[trigger] s[j]).id)
        },
    decreases s.len(),
{
    if s.len() > 0 && !p.is_prefix_of(s[0].id) {
        let rest = s.drop_first();
        lemma_first_prefix_match(rest, p);
        if first_prefix_match(s, p) == -1 {
            assert forall|j: int| 0 <= j < s.len() implies !p.is_prefix_of(
                (#[trigger] s[j]).id,
            ) by {
                if j > 0 {
                    assert(rest[j - 1] == s[j]);
                }
            }
        } else {
            let i = first_prefix_match(s, p);
            assert(s[i] == rest[i - 1]);
            assert forall|j: int| 0 <= j < i implies !p.is_prefix_of((#[trigger] s[j]).id) by {
                if j > 0 {
                    assert(rest[j - 1] == s[j]);
                }
            }
        }
    }
}

/// Records ordered by timestamp descending.
pub open spec fn sorted_desc(s: Seq<TranscriptV>) -> bool {
    forall|i: int, j: int|
        0 <= i <= j < s.len() ==> (#[trigger] s[i]).timestamp >= (#[trigger] s[j]).timestamp
}

/// Where a record sorts among already placed records: after every
/// record whose timestamp is at least its own, so that of two records
/// with one timestamp the earlier-placed one stays first.
pub open spec fn sorted_insert(s: Seq<TranscriptV>, t: TranscriptV) -> Seq<TranscriptV>
    decreases s.len(),
{
    if s.len() == 0 {
        seq![t]
    } else if s[0].timestamp >= t.timestamp {
        seq![s[0]] + sorted_insert(s.drop_first(), t)
    } else {
        seq![t] + s
    }
}

/// The records ordered by recency: timestamp descending, records with
/// equal timestamps in their original order.
pub open spec fn sort_by_recency(s: Seq<TranscriptV>) -> Seq<TranscriptV>
    decreases s.len(),
{
    if s.len() == 0 {
        Seq::<TranscriptV>::empty()
    } else {
        sorted_insert(sort_by_recency(s.drop_last()), s.last())
    }
}

/// The up-to-`limit` most recent records.
pub open spec fn recent(s: Seq<TranscriptV>, limit: int) -> Seq<TranscriptV> {
    sort_by_recency(s).take(min(limit, s.len() as int))
}

/// Number of leading records whose timestamp is at least `t`'s: the
/// position where `sorted_insert` places `t`.
pub open spec fn insert_pos(s: Seq<TranscriptV>, t: TranscriptV) -> int
    decreases s.len(),
{
    if s.len() == 0 {
        0
    } else if s[0].timestamp >= t.timestamp {
        1 + insert_pos(s.drop_first(), t)
    } else {
        0
    }
}

/// What `insert_pos` counts.
pub proof fn lemma_insert_pos(s: Seq<TranscriptV>, t: TranscriptV)
    ensures
        0 <= insert_pos(s, t) <= s.len(),
        forall|q: int|
            0 <= q < insert_pos(s, t) ==> (#[trigger] s[q]).timestamp >= t.timestamp,
        insert_pos(s, t) < s.len() ==> s[insert_pos(s, t)].timestamp < t.timestamp,
    decreases s.len(),
{
    if s.len() > 0 && s[0].timestamp >= t.timestamp {
        let rest = s.drop_first();
        lemma_insert_pos(rest, t);
        let p = insert_pos(s, t);
        assert forall|q: int| 0 <= q < p implies (#[trigger] s[q]).timestamp >= t.timestamp by {
            if q > 0 {
                assert(rest[q - 1] == s[q]);
            }
        }
        if p < s.len() {
            assert(s[p] == rest[p - 1]);
        }
    }
}

/// `sorted_insert` splits the records at the insertion position.
pub proof fn lemma_sorted_insert_split(s: Seq<TranscriptV>, t: TranscriptV, p: int)
    requires
        0 <= p <= s.len(),
        forall|q: int| 0 <= q < p ==> (#[trigger] s[q]).timestamp >= t.timestamp,
        p < s.len() ==> s[p].timestamp < t.timestamp,
    ensures
        sorted_insert(s, t) == s.take(p) + seq![t] + s.skip(p),
    decreases s.len(),
{
    if s.len() == 0 {
        assert(sorted_insert(s, t) =~= s.take(p) + seq![t] + s.skip(p));
    } else if s[0].timestamp >= t.timestamp {
        let rest = s.drop_first();
        assert(forall|j: int| 0 <= j < rest.len() ==> rest[j] == s[j + 1]);
        lemma_sorted_insert_split(rest, t, p - 1);
        assert(sorted_insert(s, t) =~= s.take(p) + seq![t] + s.skip(p));
    } else {
        assert(sorted_insert(s, t) =~= s.take(p) + seq![t] + s.skip(p));
    }
}

/// `sorted_insert` adds exactly the new record, as multisets.
pub proof fn lemma_sorted_insert_multiset(s: Seq<TranscriptV>, t: TranscriptV)
    ensures
        sorted_insert(s, t).len() == s.len() + 1,
        sorted_insert(s, t).to_multiset() == s.to_multiset().insert(t),
    decreases s.len(),
{
    broadcast use vstd::seq_lib::group_to_multiset_ensures;
    broadcast use vstd::multiset::group_multiset_axioms;

    if s.len() == 0 {
        assert(seq![t] =~= Seq::<TranscriptV>::empty().push(t));
        assert(s.to_multiset() =~= Multiset::<TranscriptV>::empty());
        assert(sorted_insert(s, t).to_multiset() =~= s.to_multiset().insert(t));
    } else if s[0].timestamp >= t.timestamp {
        let rest = s.drop_first();
        lemma_sorted_insert_multiset(rest, t);
        lemma_multiset_commutative(seq![s[0]], sorted_insert(rest, t));
        lemma_multiset_commutative(seq![s[0]], rest);
        assert(s =~= seq![s[0]] + rest);
        assert(seq![s[0]] =~= Seq::<TranscriptV>::empty().push(s[0]));
        assert(sorted_insert(s, t).to_multiset() =~= s.to_multiset().insert(t));
    } else {
        lemma_multiset_commutative(seq![t], s);
        assert(seq![t] =~= Seq::<TranscriptV>::empty().push(t));
        assert(sorted_insert(s, t).to_multiset() =~= s.to_multiset().insert(t));
    }
}

/// `sorted_insert` keeps the descending order.
pub proof fn lemma_sorted_insert_sorted(s: Seq<TranscriptV>, t: TranscriptV)
    requires
        sorted_desc(s),
    ensures
        sorted_desc(sorted_insert(s, t)),
{
    let p = insert_pos(s, t);
    lemma_insert_pos(s, t);
    lemma_sorted_insert_split(s, t, p);
    let r = sorted_insert(s, t);
    assert forall|i: int, j: int|
        0 <= i <= j < r.len() implies (#[trigger] r[i]).timestamp >= (#[trigger] r[j]).timestamp by {
        if i < p {
            assert(r[i] == s[i]);
        } else if i == p {
            assert(r[i] == t);
        } else {
            assert(r[i] == s[i - 1]);
        }
        if j < p {
            assert(r[j] == s[j]);
        } else if j == p {
            assert(r[j] == t);
        } else {
            assert(r[j] == s[j - 1]);
        }
    }
}

/// Recency-ordering law: sorting by recency yields the same records —
/// the same multiset, with the same count — ordered by timestamp
/// descending.
pub proof fn lemma_sort_by_recency(s: Seq<TranscriptV>)
    ensures
        sort_by_recency(s).len() == s.len(),
        sorted_desc(sort_by_recency(s)),
        sort_by_recency(s).to_multiset() == s.to_multiset(),
    decreases s.len(),
{
    broadcast use vstd::seq_lib::group_to_multiset_ensures;
    broadcast use vstd::multiset::group_multiset_axioms;

    if s.len() == 0 {
        assert(s.to_multiset() =~= Multiset::<TranscriptV>::empty());
        assert(sort_by_recency(s).to_multiset() =~= s.to_multiset());
    } else {
        let rest = s.drop_last();
        lemma_sort_by_recency(rest);
        lemma_sorted_insert_sorted(sort_by_recency(rest), s.last());
        lemma_sorted_insert_multiset(sort_by_recency(rest), s.last());
        assert(s =~= rest.push(s.last()));
        assert(sort_by_recency(s).to_multiset() =~= s.to_multiset());
    }
}

/// The in-memory transcript table.
pub struct TranscriptStore {
    records: Vec<Transcript>,
}

impl View for TranscriptStore {
    type V = Seq<TranscriptV>;

    closed spec fn view(&self) -> Seq<TranscriptV> {
        views_of(self.records@)
    }
}

impl TranscriptStore {
    /// Well-formedness: no two stored records share an identifier.
    /// `open` establishes it and every method keeps it.
    pub open spec fn wf(&self) -> bool {
        unique_ids(self@)
    }

    /// Opens an empty store.
    pub fn open() -> (s: TranscriptStore)
        ensures
            s.wf(),
            s@ == Seq::<TranscriptV>::empty(),
    {
        let s = TranscriptStore { records: Vec::new() };
        proof {
            assert(s@ =~= Seq::<TranscriptV>::empty());
        }
        s
    }

    /// Number of stored records.
    pub fn len(&self) -> (n: usize)
        ensures
            n == self@.len(),
    {
        self.records.len()
    }

    /// The stored record at a position, in store order.
    pub fn get(&self, i: usize) -> (t: &Transcript)
        requires
            i < self@.len(),
        ensures
            t@ == self@[i as int],
    {
        &self.records[i]
    }

    /// Inserts a record with upsert semantics: a stored record with the
    /// same identifier is replaced in place, a fresh identifier is
    /// appended.
    pub fn insert(&mut self, t: Transcript)
        requires
            old(self).wf(),
        ensures
            final(self).wf(),
            final(self)@ == upsert(old(self)@, t@),
    {
        let n = self.records.len();
        let mut i: usize = 0;
        while i < n
            invariant
                *self == *old(self),
                old(self).wf(),
                n == old(self)@.len(),
                0 <= i <= n,
                forall|j: int| 0 <= j < i ==> (#[trigger] old(self)@[j]).id != t@.id,
            decreases n - i,
        {
            if self.records[i].id == t.id {
                proof {
                    let v = old(self)@;
                    lemma_id_index(v, t@.id);
                    lemma_upsert_unique(v, t@);
                    let k = id_index(v, t@.id);
                    assert(v[i as int] == self.records@[i as int]@);
                    assert(v[i as int].id == t@.id);
                    if k == -1 {
                        assert(v[i as int].id != t@.id);
                    } else if k < i as int {
                        assert(v[k].id == t@.id);
                        assert(v[k].id != t@.id);
                    } else if k > i as int {
                        assert(v[i as int].id != t@.id);
                    }
                    assert(k == i as int);
                }
                let ghost v0 = self.records@;
                let _removed = self.records.remove(i);
                self.records.insert(i, t);
                proof {
                    assert(self.records@ =~= v0.update(i as int, t));
                    assert(self@ =~= upsert(old(self)@, t@));
                }
                return ;
            }
            i = i + 1;
        }
        proof {
            lemma_id_index(old(self)@, t@.id);
            lemma_upsert_unique(old(self)@, t@);
            let k = id_index(old(self)@, t@.id);
            if k != -1 {
                assert(old(self)@[k].id == t@.id);
                assert(old(self)@[k].id != t@.id);
            }
            assert(k == -1);
        }
        let ghost v0 = self.records@;
        self.records.push(t);
        proof {
            assert(self.records@ =~= v0.push(t));
            assert(self@ =~= upsert(old(self)@, t@));
        }
    }

    /// Derives the identifier from the text and the timestamp, upserts
    /// the record, and returns the identifier.  The same text at the
    /// same timestamp always derives the same identifier, so the later
    /// of two such saves fully replaces the earlier one.
    pub fn save(&mut self, text: &str, working_dir: &str, timestamp: i64) -> (id: String)
        requires
            old(self).wf(),
        ensures
            final(self).wf(),
            id@ == transcript_id(text@, timestamp),
            final(self)@ == upsert(
                old(self)@,
                TranscriptV {
                    id: transcript_id(text@, timestamp),
                    text: text@,
                    timestamp: timestamp as int,
                    working_dir: working_dir@,
                },
            ),
    {
        let id = generate_id(text, timestamp);
        let t = Transcript {
            id: id.clone(),
            text: text.to_owned(),
            timestamp,
            working_dir: working_dir.to_owned(),
        };
        proof {
            assert(t@ == (TranscriptV {
                id: transcript_id(text@, timestamp),
                text: text@,
                timestamp: timestamp as int,
                working_dir: working_dir@,
            }));
        }
        self.insert(t);
        id
    }

    /// Up to `limit` of the most recent records, ordered by timestamp
    /// descending; records with equal timestamps keep store order.
    pub fn list(&self, limit: usize) -> (out: Vec<Transcript>)
        ensures
            views_of(out@) == recent(self@, limit as int),
            out@.len() == min(limit as int, self@.len() as int),
    {
        let n = self.records.len();
        let mut sorted: Vec<Transcript> = Vec::new();
        proof {
            assert(views_of(sorted@) =~= sort_by_recency(self@.take(0)));
        }
        let mut i: usize = 0;
        while i < n
            invariant
                n == self@.len(),
                n == self.records@.len(),
                sorted@.len() == i,
                0 <= i <= n,
                views_of(sorted@) == sort_by_recency(self@.take(i as int)),
            decreases n - i,
        {
            let t = self.records[i].duplicate();
            let m = sorted.len();
            let mut p: usize = 0;
            while p < m && sorted[p].timestamp >= t.timestamp
                invariant
                    m == sorted@.len(),
                    0 <= p <= m,
                    forall|q: int|
                        0 <= q < p ==> (#[trigger] views_of(sorted@)[q]).timestamp
                            >= t@.timestamp,
                decreases m - p,
            {
                proof {
                    assert(views_of(sorted@)[p as int] == sorted@[p as int]@);
                }
                p = p + 1;
            }
            proof {
                if (p as int) < m as int {
                    assert(views_of(sorted@)[p as int] == sorted@[p as int]@);
                }
                lemma_sorted_insert_split(views_of(sorted@), t@, p as int);
            }
            let ghost sv = sorted@;
            sorted.insert(p, t);
            proof {
                assert(views_of(sorted@) =~= views_of(sv).take(p as int) + seq![t@]
                    + views_of(sv).skip(p as int));
                assert(views_of(sorted@) =~= sorted_insert(views_of(sv), t@));
                assert(self@.take(i + 1).drop_last() =~= self@.take(i as int));
                assert(self@.take(i + 1).last() == self@[i as int]);
                assert(t@ == self@[i as int]);
                assert(views_of(sorted@) =~= sort_by_recency(self@.take(i + 1)));
            }
            i = i + 1;
        }
        proof {
            assert(self@.take(n as int) =~= self@);
        }
        let mut out = sorted;
        if out.len() > limit {
            let ghost before = out@;
            out.truncate(limit);
            proof {
                assert(views_of(out@) =~= views_of(before).take(limit as int));
            }
        }
        proof {
            assert(views_of(out@) =~= recent(self@, limit as int));
        }
        out
    }

    /// The first record, in store order, whose identifier starts with
    /// the prefix; absent when no identifier does.
    pub fn find_by_prefix(&self, prefix: &str) -> (r: Option<Transcript>)
        ensures
            match r {
                Some(t) => {
                    let i = first_prefix_match(self@, prefix@);
                    &&& 0 <= i < self@.len()
                    &&& prefix@.is_prefix_of(self@[i].id)
                    &&& forall|j: int|
                        0 <= j < i ==> !prefix@.is_prefix_of((#[trigger] self@[j]).id)
                    &&& t@ == self@[i]
                },
                None => forall|j: int|
                    0 <= j < self@.len() ==> !prefix@.is_prefix_of((#[trigger] self@[j]).id),
            },
    {
        let n = self.records.len();
        let mut i: usize = 0;
        while i < n
            invariant
                n == self@.len(),
                n == self.records@.len(),
                0 <= i <= n,
                forall|j: int| 0 <= j < i ==> !prefix@.is_prefix_of((#[trigger] self@[j]).id),
            decreases n - i,
        {
            if str_starts_with(self.records[i].id.as_str(), prefix) {
                proof {
                    let v = self@;
                    lemma_first_prefix_match(v, prefix@);
                    let k = first_prefix_match(v, prefix@);
                    assert(v[i as int] == self.records@[i as int]@);
                    assert(prefix@.is_prefix_of(v[i as int].id));
                    if k == -1 {
                        assert(!prefix@.is_prefix_of(v[i as int].id));
                    } else if k < i as int {
                        assert(prefix@.is_prefix_of(v[k].id));
                        assert(!prefix@.is_prefix_of(v[k].id));
                    } else if k > i as int {
                        assert(!prefix@.is_prefix_of(v[i as int].id));
                    }
                    assert(k == i as int);
                }
                return Some(self.records[i].duplicate());
            }
            proof {
                assert(self@[i as int] == self.records@[i as int]@);
            }
            i = i + 1;
        }
        proof {
            lemma_first_prefix_match(self@, prefix@);
            let k = first_prefix_match(self@, prefix@);
            if k != -1 {
                assert(prefix@.is_prefix_of(self@[k].id));
                assert(!prefix@.is_prefix_of(self@[k].id));
            }
        }
        None
    }
}

} // verus!
