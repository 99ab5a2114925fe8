//! The trust ledger: one record per build-script digest.
use vstd::prelude::*;

use crate::text::str_eq;

verus! {

/// The decision taken over one digest, and the packages seen with it.
pub struct TrustRecord {
    pub trusted: bool,
    pub associates: Vec<String>,
}

/// Mathematical value of a record: its flag and the set of package identities.
pub type RecordView = (bool, Set<Seq<char>>);

/// Mathematical value of a ledger: digest to record.
pub type LedgerView = Map<Seq<char>, RecordView>;

impl TrustRecord {
    pub open spec fn associate_set(&self) -> Set<Seq<char>> {
        Set::new(|p: Seq<char>| exists|j: int| 0 <= j < self.associates.len() && self.associates[j]@ == p)
    }

    pub open spec fn view(&self) -> RecordView {
        (self.trusted, self.associate_set())
    }

    /// Each package stands at most once among the associates.
    pub open spec fn distinct(&self) -> bool {
        string_views(self.associates@).no_duplicates()
    }

    pub proof fn lemma_associate_set(&self)
        ensures
            self.associate_set() == string_views(self.associates@).to_set(),
    {
        let v = string_views(self.associates@);
        assert forall|p: Seq<char>| #![auto] v.contains(p) implies self.associate_set().contains(p) by {
            let j = choose|j: int| 0 <= j < v.len() && v[j] == p;
            assert(self.associates[j]@ == p);
        }
        assert forall|p: Seq<char>| #![auto] self.associate_set().contains(p) implies v.contains(p) by {
            let j = choose|j: int| 0 <= j < self.associates.len() && self.associates[j]@ == p;
            assert(v[j] == p);
        }
        assert(self.associate_set() =~= v.to_set());
    }

    /// Whether `pkg_id` is among the associates.
    pub fn has_associate(&self, pkg_id: &str) -> (r: bool)
        ensures
            r == self.associate_set().contains(pkg_id@),
    {
        let mut j: usize = 0;
        while j < self.associates.len()
            invariant
                j <= self.associates.len(),
                forall|k: int| 0 <= k < j ==> self.associates[k]@ != pkg_id@,
            decreases self.associates.len() - j,
        {
            if str_eq(self.associates[j].as_str(), pkg_id) {
                return true;
            }
            j += 1;
        }
        false
    }
}

/// Views of a sequence of strings.
pub open spec fn string_views(v: Seq<String>) -> Seq<Seq<char>> {
    v.map_values(|x: String| x@)
}

/// The content-addressed store of trust decisions.
///
/// `entries` holds each digest once, beside its record.
pub struct BuildTrustStore {
    pub entries: Vec<(String, TrustRecord)>,
}

/// Record of `d` in `m`, or the untrusted record without associates.
pub open spec fn record_or_default(m: LedgerView, d: Seq<char>) -> RecordView {
    if m.contains_key(d) {
        m[d]
    } else {
        (false, Set::empty())
    }
}

/// Whether `d` is marked trusted in `m`; unseen digests are not.
pub open spec fn trusted_in(m: LedgerView, d: Seq<char>) -> bool {
    record_or_default(m, d).0
}

/// Ledger after adding `p` to the associates of `d`.
pub open spec fn associated(m: LedgerView, d: Seq<char>, p: Seq<char>) -> LedgerView {
    let r = record_or_default(m, d);
    m.insert(d, (r.0, r.1.insert(p)))
}

/// Whether adding `p` to the associates of `d` grows the set.
pub open spec fn association_changes(m: LedgerView, d: Seq<char>, p: Seq<char>) -> bool {
    !record_or_default(m, d).1.contains(p)
}

/// Ledger after setting the flag of `d` to `t` and associating `p` with it.
pub open spec fn with_trust(m: LedgerView, d: Seq<char>, t: bool, p: Seq<char>) -> LedgerView {
    let r = record_or_default(m, d);
    m.insert(d, (t, r.1.insert(p)))
}

/// Whether setting the flag of `d` to `t` differs from its previous value.
pub open spec fn trust_changes(m: LedgerView, d: Seq<char>, t: bool) -> bool {
    t != trusted_in(m, d)
}

impl BuildTrustStore {
    /// Each digest stands at most once, and so does each package among the
    /// associates of a record.
    pub open spec fn wf(&self) -> bool {
        &&& forall|i: int, j: int|
            0 <= i < self.entries.len() && 0 <= j < self.entries.len() && i != j
                ==> self.entries[i].0@ != self.entries[j].0@
        &&& forall|i: int| 0 <= i < self.entries.len() ==> #[trigger] self.entries[i].1.distinct()
    }

    pub open spec fn has_key(&self, d: Seq<char>) -> bool {
        exists|i: int| 0 <= i < self.entries.len() && self.entries[i].0@ == d
    }

    pub open spec fn view(&self) -> LedgerView {
        Map::new(
            |d: Seq<char>| self.has_key(d),
            |d: Seq<char>|
                {
                    let i = choose|i: int| 0 <= i < self.entries.len() && self.entries[i].0@ == d;
                    self.entries[i].1.view()
                },
        )
    }

    /// In a well-formed ledger the entry at `i` gives the value of its digest.
    pub proof fn lemma_entry_value(&self, i: int)
        requires
            self.wf(),
            0 <= i < self.entries.len(),
        ensures
            self.view().contains_key(self.entries[i].0@),
            self.view()[self.entries[i].0@] == self.entries[i].1.view(),
    {
        let d = self.entries[i].0@;
        assert(self.has_key(d));
        let k = choose|k: int| 0 <= k < self.entries.len() && self.entries[k].0@ == d;
        assert(k == i);
    }

    /// Replacing the record at `i`, digests unchanged, replaces that digest's value.
    pub proof fn lemma_replace_record(&self, other: &Self, i: int)
        requires
            self.wf(),
            0 <= i < self.entries.len(),
            other.entries.len() == self.entries.len(),
            forall|k: int| 0 <= k < self.entries.len() ==> #[trigger] other.entries[k].0@ == self.entries[k].0@,
            forall|k: int| 0 <= k < self.entries.len() && k != i ==> #[trigger] other.entries[k].1 == self.entries[k].1,
            other.entries[i].1.distinct(),
        ensures
            other.wf(),
            other.view() == self.view().insert(self.entries[i].0@, other.entries[i].1.view()),
    {
        let want = self.view().insert(self.entries[i].0@, other.entries[i].1.view());
        assert forall|d: Seq<char>| #![auto] other.has_key(d) == self.has_key(d) by {
            if self.has_key(d) {
                let k = choose|k: int| 0 <= k < self.entries.len() && self.entries[k].0@ == d;
                assert(other.entries[k].0@ == d);
            }
            if other.has_key(d) {
                let k = choose|k: int| 0 <= k < other.entries.len() && other.entries[k].0@ == d;
                assert(self.entries[k].0@ == d);
            }
        }
        other.lemma_entry_value(i);
        assert forall|d: Seq<char>| #![auto] other.has_key(d) && d != self.entries[i].0@ implies other.view()[d] == want[d] by {
            let k = choose|k: int| 0 <= k < other.entries.len() && other.entries[k].0@ == d;
            other.lemma_entry_value(k);
            self.lemma_entry_value(k);
        }
        assert(other.view() =~= want);
    }

    /// Appending an entry for a new digest adds that digest's value.
    pub proof fn lemma_push_entry(&self, other: &Self)
        requires
            self.wf(),
            other.entries.len() == self.entries.len() + 1,
            forall|k: int| 0 <= k < self.entries.len() ==> #[trigger] other.entries[k] == self.entries[k],
            !self.view().contains_key(other.entries@.last().0@),
            other.entries@.last().1.distinct(),
        ensures
            other.wf(),
            other.view() == self.view().insert(other.entries@.last().0@, other.entries@.last().1.view()),
    {
        let n = self.entries.len() as int;
        let d = other.entries[n].0@;
        let want = self.view().insert(d, other.entries[n].1.view());
        assert forall|i: int, j: int|
            0 <= i < other.entries.len() && 0 <= j < other.entries.len() && i != j
                implies other.entries[i].0@ != other.entries[j].0@ by {
            if i == n {
                assert(self.entries[j].0@ != d) by {
                    if self.entries[j].0@ == d {
                        assert(self.has_key(d));
                    }
                }
            } else if j == n {
                assert(self.entries[i].0@ != d) by {
                    if self.entries[i].0@ == d {
                        assert(self.has_key(d));
                    }
                }
            }
        }
        other.lemma_entry_value(n);
        assert forall|e: Seq<char>| #![auto] other.has_key(e) == want.contains_key(e) by {
            if self.has_key(e) {
                let k = choose|k: int| 0 <= k < self.entries.len() && self.entries[k].0@ == e;
                assert(other.entries[k].0@ == e);
            }
            if other.has_key(e) && e != d {
                let k = choose|k: int| 0 <= k < other.entries.len() && other.entries[k].0@ == e;
                assert(self.entries[k].0@ == e);
            }
        }
        assert forall|e: Seq<char>| #![auto] other.has_key(e) && e != d implies other.view()[e] == want[e] by {
            let k = choose|k: int| 0 <= k < other.entries.len() && other.entries[k].0@ == e;
            other.lemma_entry_value(k);
            self.lemma_entry_value(k);
        }
        assert(other.view() =~= want);
    }

    /// The empty ledger.
    pub fn new() -> (r: Self)
        ensures
            r.wf(),
            r.view() == Map::<Seq<char>, RecordView>::empty(),
    {
        let r = BuildTrustStore { entries: Vec::new() };
        assert(r.view() =~= Map::<Seq<char>, RecordView>::empty());
        r
    }

    /// Position of `digest` in `entries`.
    pub fn find(&self, digest: &str) -> (r: Option<usize>)
        requires
            self.wf(),
        ensures
            r is None ==> !self.view().contains_key(digest@),
            r matches Some(i) ==> i < self.entries.len() && self.entries[i as int].0@ == digest@,
    {
        let mut i: usize = 0;
        while i < self.entries.len()
            invariant
                i <= self.entries.len(),
                forall|k: int| 0 <= k < i ==> self.entries[k].0@ != digest@,
            decreases self.entries.len() - i,
        {
            if str_eq(self.entries[i].0.as_str(), digest) {
                return Some(i);
            }
            i += 1;
        }
        None
    }
}

impl BuildTrustStore {
    /// The record of `digest`, if the ledger has one.
    pub fn record(&self, digest: &str) -> (r: Option<&TrustRecord>)
        requires
            self.wf(),
        ensures
            r is None <==> !self.view().contains_key(digest@),
            r matches Some(rec) ==> rec.view() == self.view()[digest@],
    {
        match self.find(digest) {
            Some(i) => {
                proof {
                    self.lemma_entry_value(i as int);
                }
                Some(&self.entries[i].1)
            },
            None => None,
        }
    }

    /// Whether `digest` is marked trusted; a digest never seen is not.
    pub fn is_trusted(&self, digest: &str) -> (r: bool)
        requires
            self.wf(),
        ensures
            r == trusted_in(self.view(), digest@),
    {
        match self.find(digest) {
            Some(i) => {
                proof {
                    self.lemma_entry_value(i as int);
                }
                self.entries[i].1.trusted
            },
            None => false,
        }
    }

    /// Adds `pkg_id` to the associates of `digest`, creating an untrusted
    /// record for a new digest; returns whether the associate set grew.
    pub fn record_association(&mut self, digest: &str, pkg_id: &str) -> (changed: bool)
        requires
            old(self).wf(),
        ensures
            final(self).wf(),
            final(self).view() == associated(old(self).view(), digest@, pkg_id@),
            changed == association_changes(old(self).view(), digest@, pkg_id@),
    {
        let i = self.entry_index(digest);
        proof {
            self.lemma_entry_value(i as int);
        }
        let changed = !self.entries[i].1.has_associate(pkg_id);
        if changed {
            self.push_associate(i, pkg_id);
        } else {
            assert(record_or_default(old(self).view(), digest@).1.insert(pkg_id@) =~= record_or_default(old(self).view(), digest@).1);
            assert(self.view() =~= associated(old(self).view(), digest@, pkg_id@));
        }
        changed
    }

    /// Sets the flag of `digest` and adds `pkg_id` to its associates;
    /// returns whether the flag differs from what it was (an unseen digest
    /// counts as untrusted before).
    pub fn set_trust(&mut self, digest: &str, trusted: bool, pkg_id: &str) -> (changed: bool)
        requires
            old(self).wf(),
        ensures
            final(self).wf(),
            final(self).view() == with_trust(old(self).view(), digest@, trusted, pkg_id@),
            trusted_in(final(self).view(), digest@) == trusted,
            changed == trust_changes(old(self).view(), digest@, trusted),
    {
        let i = self.entry_index(digest);
        proof {
            self.lemma_entry_value(i as int);
        }
        let changed = self.entries[i].1.trusted != trusted;
        let ghost mid = *self;
        self.entries[i].1.trusted = trusted;
        proof {
            assert(mid.entries[i as int].1.distinct());
            assert(self.entries[i as int].1.associates == mid.entries[i as int].1.associates);
            mid.lemma_replace_record(self, i as int);
            mid.lemma_entry_value(i as int);
        }
        if !self.entries[i].1.has_associate(pkg_id) {
            self.push_associate(i, pkg_id);
        } else {
            assert(record_or_default(old(self).view(), digest@).1.insert(pkg_id@) =~= record_or_default(old(self).view(), digest@).1);
            assert(self.view() =~= with_trust(old(self).view(), digest@, trusted, pkg_id@));
        }
        changed
    }

    /// Index of the entry of `digest`, adding an untrusted record without
    /// associates when there is none.
    fn entry_index(&mut self, digest: &str) -> (i: usize)
        requires
            old(self).wf(),
        ensures
            final(self).wf(),
            i < final(self).entries.len(),
            final(self).entries[i as int].0@ == digest@,
            final(self).view() == old(self).view().insert(
                digest@,
                record_or_default(old(self).view(), digest@),
            ),
    {
        match self.find(digest) {
            Some(i) => {
                proof {
                    self.lemma_entry_value(i as int);
                    assert(self.view() =~= old(self).view().insert(
                        digest@,
                        record_or_default(old(self).view(), digest@),
                    ));
                }
                i
            },
            None => {
                let rec = TrustRecord { trusted: false, associates: Vec::new() };
                self.entries.push((digest.to_owned(), rec));
                let i = self.entries.len() - 1;
                proof {
                    assert(string_views(self.entries[i as int].1.associates@) =~= Seq::empty());
                    old(self).lemma_push_entry(self);
                    assert(self.entries[i as int].1.associate_set() =~= Set::empty());
                }
                i
            },
        }
    }

    /// Sets the record of `digest` to `trusted` with `associates`, in place of
    /// any record it had.
    /// The packages of `v`, each once, in the order of their first place.
    pub fn distinct_associates(v: &Vec<String>) -> (r: Vec<String>)
        ensures
            string_views(r@).no_duplicates(),
            string_views(r@).to_set() == string_views(v@).to_set(),
    {
        let mut out: Vec<String> = Vec::new();
        let mut i: usize = 0;
        while i < v.len()
            invariant
                i <= v.len(),
                string_views(out@).no_duplicates(),
                string_views(out@).to_set() == string_views(v@.take(i as int)).to_set(),
            decreases v.len() - i,
        {
            let rec = TrustRecord { trusted: false, associates: out };
            let seen = rec.has_associate(v[i].as_str());
            out = rec.associates;
            let ghost before = string_views(out@);
            proof {
                rec.lemma_associate_set();
                assert(string_views(v@.take(i + 1)) =~= string_views(v@.take(i as int)).push(v[i as int]@));
                string_views(v@.take(i as int)).lemma_push_to_set_commute(v[i as int]@);
            }
            if !seen {
                out.push(v[i].clone());
                proof {
                    assert(string_views(out@) =~= before.push(v[i as int]@));
                    assert forall|x: int, y: int| 0 <= x < before.len() + 1 && 0 <= y < before.len() + 1 && x != y implies string_views(out@)[x] != string_views(out@)[y] by {
                        if x == before.len() {
                            assert(before.contains(before[y]));
                        } else if y == before.len() {
                            assert(before.contains(before[x]));
                        }
                    }
                    before.lemma_push_to_set_commute(v[i as int]@);
                    assert(string_views(out@).to_set() =~= string_views(v@.take(i + 1)).to_set());
                }
            } else {
                proof {
                    assert(string_views(out@).to_set() =~= string_views(v@.take(i + 1)).to_set());
                }
            }
            i += 1;
        }
        assert(v@.take(i as int) =~= v@);
        out
    }

    pub fn insert_record(&mut self, digest: String, trusted: bool, associates: Vec<String>)
        requires
            old(self).wf(),
        ensures
            final(self).wf(),
            final(self).view() == old(self).view().insert(
                digest@,
                (trusted, string_views(associates@).to_set()),
            ),
    {
        let rec = TrustRecord { trusted, associates: Self::distinct_associates(&associates) };
        proof {
            rec.lemma_associate_set();
        }
        match self.find(digest.as_str()) {
            Some(i) => {
                let ghost before = *self;
                self.entries.set(i, (digest, rec));
                proof {
                    before.lemma_replace_record(self, i as int);
                }
            },
            None => {
                self.entries.push((digest, rec));
                proof {
                    old(self).lemma_push_entry(self);
                }
            },
        }
    }

    /// Appends `pkg_id` to the associates of the entry at `i`.
    fn push_associate(&mut self, i: usize, pkg_id: &str)
        requires
            old(self).wf(),
            i < old(self).entries.len(),
            !old(self).entries[i as int].1.associate_set().contains(pkg_id@),
        ensures
            final(self).wf(),
            final(self).view() == old(self).view().insert(
                old(self).entries[i as int].0@,
                (
                    old(self).entries[i as int].1.trusted,
                    old(self).entries[i as int].1.associate_set().insert(pkg_id@),
                ),
            ),
    {
        let ghost d = self.entries[i as int].0@;
        self.entries[i].1.associates.push(pkg_id.to_owned());
        proof {
            let want = old(self).view().insert(
                d,
                (old(self).entries[i as int].1.trusted, old(self).entries[i as int].1.associate_set().insert(pkg_id@)),
            );
            let a = self.entries[i as int].1.associates;
            assert(a@.last()@ == pkg_id@);
            assert(self.entries[i as int].1.associate_set() =~= old(self).entries[i as int].1.associate_set().insert(pkg_id@)) by {
                assert forall|p: Seq<char>| #![auto] old(self).entries[i as int].1.associate_set().contains(p) implies self.entries[i as int].1.associate_set().contains(p) by {
                    let j = choose|j: int| 0 <= j < old(self).entries[i as int].1.associates.len() && old(self).entries[i as int].1.associates[j]@ == p;
                    assert(a[j]@ == p);
                }
            }
            assert(string_views(a@) =~= string_views(old(self).entries[i as int].1.associates@).push(pkg_id@));
            assert(self.entries[i as int].1.distinct()) by {
                let o = string_views(old(self).entries[i as int].1.associates@);
                assert(old(self).entries[i as int].1.distinct());
                assert forall|x: int, y: int| 0 <= x < o.len() + 1 && 0 <= y < o.len() + 1 && x != y implies string_views(a@)[x] != string_views(a@)[y] by {
                    if x == o.len() {
                        assert(old(self).entries[i as int].1.associates[y]@ == o[y]);
                    } else if y == o.len() {
                        assert(old(self).entries[i as int].1.associates[x]@ == o[x]);
                    }
                }
            }
            old(self).lemma_replace_record(self, i as int);
            assert(self.view() =~= want);
        }
    }
}

impl Default for BuildTrustStore {
    /// The empty ledger.
    fn default() -> (r: Self)
        ensures
            r.wf(),
            r.view() == Map::<Seq<char>, RecordView>::empty(),
    {
        Self::new()
    }
}

/// After the flag of `d` is set to `t`, `d` is trusted exactly when `t` is.
pub proof fn lemma_set_trust_then_trusted(m: LedgerView, d: Seq<char>, t: bool, p: Seq<char>)
    ensures
        trusted_in(with_trust(m, d, t, p), d) == t,
{
}

} // verus!
