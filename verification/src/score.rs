//! The coverage scorer: a per-run accumulator over evaluated records and
//! its finalization into a score report. Scores are fixed-point integers
//! in micro-units. Three dimensions combine linearly: cap-bounded presence
//! per domain, temporal composition within submit-time windows, and an
//! anti-spam penalty for occurrences beyond the cap.

use vstd::prelude::*;
use crate::normalize::EvalActionRecord;
use crate::pattern::DomainMatcher;
use crate::text::str_eq;
use crate::text::views_of;

verus! {

/// Penalty per occurrence of one signature beyond the cap, in micro-units.
pub const PENALTY_PER_EXTRA_MICRO: u64 = 100000;

/// Bonus per additional distinct signature within one window, micro-units.
pub const BONUS_PER_EXTRA_MICRO: u64 = 250000;

/// Most signature occurrences one run may score; a machine limit of the
/// fixed-width score arithmetic.
pub const MAX_SCORED_OCCURRENCES: u64 = 0x1_0000_0000;

/// How often the signature occurs among the incorporated items.
pub open spec fn occ(items: Seq<(int, Seq<char>)>, s: Seq<char>) -> int
    decreases items.len(),
{
    if items.len() == 0 {
        0
    } else {
        occ(items.drop_last(), s) + if items.last().1 == s {
            1int
        } else {
            0int
        }
    }
}

/// The distinct signatures seen, in order of first occurrence.
pub open spec fn distinct_sigs(items: Seq<(int, Seq<char>)>) -> Seq<Seq<char>>
    decreases items.len(),
{
    if items.len() == 0 {
        Seq::empty()
    } else {
        let p = distinct_sigs(items.drop_last());
        if p.contains(items.last().1) {
            p
        } else {
            p.push(items.last().1)
        }
    }
}

/// The distinct window keys seen, in order of first occurrence.
pub open spec fn window_keys(items: Seq<(int, Seq<char>)>) -> Seq<int>
    decreases items.len(),
{
    if items.len() == 0 {
        Seq::empty()
    } else {
        let p = window_keys(items.drop_last());
        if p.contains(items.last().0) {
            p
        } else {
            p.push(items.last().0)
        }
    }
}

/// The distinct signatures seen within one window key, in order of first
/// occurrence.
pub open spec fn window_sigs(items: Seq<(int, Seq<char>)>, k: int) -> Seq<Seq<char>>
    decreases items.len(),
{
    if items.len() == 0 {
        Seq::empty()
    } else {
        let p = window_sigs(items.drop_last(), k);
        if items.last().0 != k {
            p
        } else if p.contains(items.last().1) {
            p
        } else {
            p.push(items.last().1)
        }
    }
}

/// How many occurrences arrived when their signature was already at or
/// over the cap: each such occurrence accrues one penalty unit.
pub open spec fn excess_count(items: Seq<(int, Seq<char>)>, cap: int) -> int
    decreases items.len(),
{
    if items.len() == 0 {
        0
    } else {
        excess_count(items.drop_last(), cap) + if occ(items, items.last().1) > cap {
            1int
        } else {
            0int
        }
    }
}

/// The composition bonus units over the listed window keys: one unit per
/// distinct signature beyond the first in each window.
pub open spec fn window_excess(items: Seq<(int, Seq<char>)>, keys: Seq<int>) -> int
    decreases keys.len(),
{
    if keys.len() == 0 {
        0
    } else {
        window_excess(items, keys.drop_last()) + (window_sigs(items, keys.last()).len() - 1)
    }
}

/// Total composition bonus units of a run.
pub open spec fn bonus_units(items: Seq<(int, Seq<char>)>) -> int {
    window_excess(items, window_keys(items))
}

pub proof fn lemma_occ_bounds(items: Seq<(int, Seq<char>)>, s: Seq<char>)
    ensures
        0 <= occ(items, s) <= items.len(),
    decreases items.len(),
{
    if items.len() != 0 {
        lemma_occ_bounds(items.drop_last(), s);
    }
}

pub proof fn lemma_excess_bounds(items: Seq<(int, Seq<char>)>, cap: int)
    ensures
        0 <= excess_count(items, cap) <= items.len(),
    decreases items.len(),
{
    if items.len() != 0 {
        lemma_excess_bounds(items.drop_last(), cap);
    }
}

/// The distinct-signature list has no duplicates, contains exactly the
/// signatures that occur, and is no longer than the item list.
pub proof fn lemma_distinct_sigs(items: Seq<(int, Seq<char>)>)
    ensures
        forall|i: int, j: int|
            0 <= i < j < distinct_sigs(items).len() ==> distinct_sigs(items)[i] != distinct_sigs(
                items,
            )[j],
        forall|s: Seq<char>| #[trigger] distinct_sigs(items).contains(s) <==> occ(items, s) > 0,
        distinct_sigs(items).len() <= items.len(),
    decreases items.len(),
{
    if items.len() != 0 {
        lemma_distinct_sigs(items.drop_last());
        let p = distinct_sigs(items.drop_last());
        let x = items.last().1;
        assert forall|s: Seq<char>| #[trigger]
            distinct_sigs(items).contains(s) <==> occ(items, s) > 0 by {
            lemma_occ_bounds(items.drop_last(), s);
            if distinct_sigs(items).contains(s) {
                let i = choose|i: int|
                    0 <= i < distinct_sigs(items).len() && distinct_sigs(items)[i] == s;
                if !p.contains(x) && i == distinct_sigs(items).len() - 1 {
                } else {
                    assert(p.contains(s)) by {
                        assert(distinct_sigs(items)[i] == p[i]);
                    }
                }
            }
            if occ(items, s) > 0 {
                if s == x {
                    if p.contains(x) {
                    } else {
                        assert(distinct_sigs(items)[distinct_sigs(items).len() - 1] == s);
                    }
                } else {
                    assert(p.contains(s) ==> distinct_sigs(items).contains(s)) by {
                        if p.contains(s) {
                            let i = choose|i: int| 0 <= i < p.len() && p[i] == s;
                            assert(distinct_sigs(items)[i] == s);
                        }
                    }
                }
            }
        }
        if !p.contains(x) {
            assert forall|i: int, j: int|
                0 <= i < j < distinct_sigs(items).len() implies distinct_sigs(items)[i]
                != distinct_sigs(items)[j] by {
                if j < distinct_sigs(items).len() - 1 {
                    assert(distinct_sigs(items)[i] == p[i]);
                    assert(distinct_sigs(items)[j] == p[j]);
                } else {
                    assert(distinct_sigs(items)[i] == p[i]);
                    assert(p.contains(p[i]));
                }
            }
        }
    }
}

/// The window-key list has no duplicates and contains exactly the keys
/// that occur; a key that never occurs has no window signatures.
pub proof fn lemma_window_keys(items: Seq<(int, Seq<char>)>)
    ensures
        forall|i: int, j: int|
            0 <= i < j < window_keys(items).len() ==> window_keys(items)[i] != window_keys(
                items,
            )[j],
        forall|k: int|
            !(#[trigger] window_keys(items).contains(k)) ==> window_sigs(items, k) == Seq::<
                Seq<char>,
            >::empty(),
    decreases items.len(),
{
    if items.len() != 0 {
        lemma_window_keys(items.drop_last());
        let p = window_keys(items.drop_last());
        let x = items.last().0;
        if !p.contains(x) {
            assert forall|i: int, j: int|
                0 <= i < j < window_keys(items).len() implies window_keys(items)[i] != window_keys(
                items,
            )[j] by {
                if j < window_keys(items).len() - 1 {
                    assert(window_keys(items)[i] == p[i]);
                    assert(window_keys(items)[j] == p[j]);
                } else {
                    assert(window_keys(items)[i] == p[i]);
                    assert(p.contains(p[i]));
                }
            }
        }
        assert forall|k: int|
            !(#[trigger] window_keys(items).contains(k)) implies window_sigs(items, k) == Seq::<
            Seq<char>,
        >::empty() by {
            if !window_keys(items).contains(k) {
                assert(!p.contains(k)) by {
                    if p.contains(k) {
                        let i = choose|i: int| 0 <= i < p.len() && p[i] == k;
                        assert(window_keys(items)[i] == k);
                    }
                }
                assert(k != x) by {
                    if k == x {
                        if p.contains(x) {
                            assert(window_keys(items).contains(k));
                        } else {
                            assert(window_keys(items)[window_keys(items).len() - 1] == k);
                        }
                    }
                }
            }
        }
    }
}

/// One signature occurrence: its window key and its text.
pub open spec fn items_of(e: EvalActionRecord) -> Seq<(int, Seq<char>)> {
    e.signatures@.map_values(|s: String| (e.window_key_ms as int, s@))
}

/// One signature credited once toward a domain, with its running count.
#[derive(Debug)]
pub struct SigRecord {
    pub sig: String,
    pub count: u64,
    pub credit: Option<usize>,
}

/// The distinct signatures of one submit-time window.
#[derive(Debug)]
pub struct WindowBucket {
    pub key: i64,
    pub sigs: Vec<String>,
}

/// A structured, collectible warning: a signature matched several domains.
#[derive(Debug)]
pub struct AmbiguityWarning {
    pub signature: String,
    pub names: Vec<String>,
}

pub open spec fn sig_views(v: Seq<SigRecord>) -> Seq<Seq<char>> {
    v.map_values(|r: SigRecord| r.sig@)
}

pub open spec fn bucket_keys(v: Seq<WindowBucket>) -> Seq<int> {
    v.map_values(|b: WindowBucket| b.key as int)
}

/// The per-run scorer state: append-only accumulation, finalized once.
pub struct ScoreState {
    pub matcher: DomainMatcher,
    pub cap_per_signature: u64,
    pub window_ms: i64,
    pub all_sigs: Vec<SigRecord>,
    pub windows: Vec<WindowBucket>,
    pub excesses: u64,
    pub total: u64,
    pub warnings: Vec<AmbiguityWarning>,
    pub items: Ghost<Seq<(int, Seq<char>)>>,
}

impl ScoreState {
    /// The credit a signature record must carry: the resolved domain index
    /// unless the signature is unresolved or resolves to the catch-all.
    pub open spec fn credit_ok(&self, r: SigRecord) -> bool {
        match r.credit {
            Some(d) => self.matcher.spec_credit(r.sig@) == Some(d as int) && d
                < self.matcher.entries@.len(),
            None => self.matcher.spec_credit(r.sig@) is None,
        }
    }

    /// Well-formedness: every accumulator field agrees with the ghost item
    /// sequence.
    pub open spec fn wf(&self) -> bool {
        &&& self.cap_per_signature >= 1
        &&& self.total == self.items@.len()
        &&& self.items@.len() <= MAX_SCORED_OCCURRENCES
        &&& sig_views(self.all_sigs@) == distinct_sigs(self.items@)
        &&& forall|i: int|
            0 <= i < self.all_sigs@.len() ==> (#[trigger] self.all_sigs@[i]).count == occ(
                self.items@,
                self.all_sigs@[i].sig@,
            )
        &&& forall|i: int|
            0 <= i < self.all_sigs@.len() ==> self.credit_ok(#[trigger] self.all_sigs@[i])
        &&& bucket_keys(self.windows@) == window_keys(self.items@)
        &&& forall|w: int|
            0 <= w < self.windows@.len() ==> views_of((#[trigger] self.windows@[w]).sigs@)
                == window_sigs(self.items@, self.windows@[w].key as int)
        &&& self.excesses == excess_count(self.items@, self.cap_per_signature as int)
    }

    /// A fresh scorer over the given registry.
    pub fn new(matcher: DomainMatcher, cap_per_signature: u64, window_ms: i64) -> (r: ScoreState)
        requires
            cap_per_signature >= 1,
        ensures
            r.wf(),
            r.items@ == Seq::<(int, Seq<char>)>::empty(),
            r.matcher == matcher,
            r.cap_per_signature == cap_per_signature,
            r.window_ms == window_ms,
    {
        let r = ScoreState {
            matcher,
            cap_per_signature,
            window_ms,
            all_sigs: Vec::new(),
            windows: Vec::new(),
            excesses: 0,
            total: 0,
            warnings: Vec::new(),
            items: Ghost(Seq::empty()),
        };
        proof {
            assert(sig_views(r.all_sigs@) =~~= distinct_sigs(r.items@));
            assert(bucket_keys(r.windows@) =~= window_keys(r.items@));
        }
        r
    }
}

/// Finds the record of one signature, if present.
fn find_sig_index(v: &Vec<SigRecord>, s: &str) -> (r: Option<usize>)
    ensures
        match r {
            Some(j) => j < v@.len() && v@[j as int].sig@ == s@,
            None => !sig_views(v@).contains(s@),
        },
{
    let mut i: usize = 0;
    while i < v.len()
        invariant
            i <= v@.len(),
            forall|j: int| 0 <= j < i ==> (#[trigger] v@[j]).sig@ != s@,
        decreases v@.len() - i,
    {
        if str_eq(v[i].sig.as_str(), s) {
            return Some(i);
        }
        i = i + 1;
    }
    proof {
        if sig_views(v@).contains(s@) {
            let j = choose|j: int| 0 <= j < sig_views(v@).len() && sig_views(v@)[j] == s@;
            assert(v@[j].sig@ == s@);
        }
    }
    None
}

/// Finds the bucket of one window key, if present.
fn find_window_index(v: &Vec<WindowBucket>, key: i64) -> (r: Option<usize>)
    ensures
        match r {
            Some(w) => w < v@.len() && v@[w as int].key == key,
            None => !bucket_keys(v@).contains(key as int),
        },
{
    let mut i: usize = 0;
    while i < v.len()
        invariant
            i <= v@.len(),
            forall|j: int| 0 <= j < i ==> (#[trigger] v@[j]).key != key,
        decreases v@.len() - i,
    {
        if v[i].key == key {
            return Some(i);
        }
        i = i + 1;
    }
    proof {
        if bucket_keys(v@).contains(key as int) {
            let j = choose|j: int|
                0 <= j < bucket_keys(v@).len() && bucket_keys(v@)[j] == key as int;
            assert(v@[j].key == key);
        }
    }
    None
}

/// Whether the string list contains the given text.
fn vec_contains_str(v: &Vec<String>, s: &str) -> (r: bool)
    ensures
        r == views_of(v@).contains(s@),
{
    let mut i: usize = 0;
    while i < v.len()
        invariant
            i <= v@.len(),
            forall|j: int| 0 <= j < i ==> (#[trigger] v@[j])@ != s@,
        decreases v@.len() - i,
    {
        if str_eq(v[i].as_str(), s) {
            proof {
                assert(views_of(v@)[i as int] == s@);
            }
            return true;
        }
        i = i + 1;
    }
    proof {
        if views_of(v@).contains(s@) {
            let j = choose|j: int| 0 <= j < views_of(v@).len() && views_of(v@)[j] == s@;
            assert(v@[j]@ == s@);
        }
    }
    false
}

impl ScoreState {
    /// Accounts one signature occurrence within one window.
    fn add_one(&mut self, key: i64, s: &String)
        requires
            old(self).wf(),
            old(self).total < MAX_SCORED_OCCURRENCES,
        ensures
            final(self).wf(),
            final(self).items@ == old(self).items@.push((key as int, s@)),
            final(self).matcher == old(self).matcher,
            final(self).cap_per_signature == old(self).cap_per_signature,
            final(self).window_ms == old(self).window_ms,
            final(self).total == old(self).total + 1,
    {
        let ghost items0 = self.items@;
        let ghost items1 = items0.push((key as int, s@));
        proof {
            assert(items1.drop_last() =~= items0);
            lemma_distinct_sigs(items0);
            lemma_window_keys(items0);
            lemma_occ_bounds(items0, s@);
            lemma_excess_bounds(items0, self.cap_per_signature as int);
        }
        // Window bucket: record the signature among its window's distinct set.
        match find_window_index(&self.windows, key) {
            Some(w) => {
                let ghost oldwin = self.windows@;
                if !vec_contains_str(&self.windows[w].sigs, s.as_str()) {
                    self.windows[w].sigs.push(s.clone());
                    proof {
                        assert(bucket_keys(self.windows@) =~= bucket_keys(oldwin));
                        assert(views_of(self.windows@[w as int].sigs@) =~~= views_of(
                            oldwin[w as int].sigs@,
                        ).push(s@));
                    }
                }
                proof {
                    assert(window_keys(items0).contains(key as int)) by {
                        assert(bucket_keys(oldwin)[w as int] == key as int);
                    }
                    assert(window_keys(items1) == window_keys(items0));
                    assert forall|w2: int|
                        0 <= w2 < self.windows@.len() implies views_of(
                        (#[trigger] self.windows@[w2]).sigs@,
                    ) == window_sigs(items1, self.windows@[w2].key as int) by {
                        if w2 != w as int {
                            assert(self.windows@[w2] == oldwin[w2]);
                            assert(bucket_keys(oldwin)[w2] == oldwin[w2].key as int);
                            assert(bucket_keys(oldwin)[w as int] == key as int);
                            assert(oldwin[w2].key != key);
                        }
                    }
                }
            },
            None => {
                let mut sigs: Vec<String> = Vec::new();
                sigs.push(s.clone());
                let ghost oldwin = self.windows@;
                self.windows.push(WindowBucket { key, sigs });
                proof {
                    assert(bucket_keys(self.windows@) =~= bucket_keys(oldwin).push(key as int));
                    assert(window_keys(items1) == window_keys(items0).push(key as int));
                    assert(window_sigs(items0, key as int) == Seq::<Seq<char>>::empty());
                    assert(views_of(
                        self.windows@[self.windows@.len() - 1].sigs@,
                    ) =~~= window_sigs(items1, key as int));
                    assert forall|w2: int|
                        0 <= w2 < self.windows@.len() implies views_of(
                        (#[trigger] self.windows@[w2]).sigs@,
                    ) == window_sigs(items1, self.windows@[w2].key as int) by {
                        if w2 < self.windows@.len() - 1 {
                            assert(self.windows@[w2] == oldwin[w2]);
                            assert(bucket_keys(oldwin)[w2] == oldwin[w2].key as int);
                            assert(!bucket_keys(oldwin).contains(key as int));
                            assert(oldwin[w2].key != key);
                        }
                    }
                }
            },
        }
        // Signature record: occurrence count and, on first sight, the credit.
        let newcount: u64;
        match find_sig_index(&self.all_sigs, s.as_str()) {
            Some(j) => {
                let ghost oldsigs = self.all_sigs@;
                let c = self.all_sigs[j].count;
                proof {
                    assert(c == occ(items0, s@));
                }
                let c1 = c + 1;
                self.all_sigs[j].count = c1;
                newcount = c1;
                proof {
                    assert(sig_views(self.all_sigs@) =~~= sig_views(oldsigs));
                    assert(distinct_sigs(items1) == distinct_sigs(items0)) by {
                        assert(distinct_sigs(items0).contains(s@)) by {
                            assert(sig_views(oldsigs)[j as int] == s@);
                        }
                    }
                    assert forall|i: int|
                        0 <= i < self.all_sigs@.len() implies (#[trigger] self.all_sigs@[i]).count
                        == occ(items1, self.all_sigs@[i].sig@) by {
                        if i != j as int {
                            assert(self.all_sigs@[i] == oldsigs[i]);
                            assert(sig_views(oldsigs)[i] == oldsigs[i].sig@);
                            assert(sig_views(oldsigs)[j as int] == s@);
                            assert(oldsigs[i].sig@ != s@);
                        }
                    }
                    assert forall|i: int|
                        0 <= i < self.all_sigs@.len() implies self.credit_ok(
                        #[trigger] self.all_sigs@[i],
                    ) by {
                        if i != j as int {
                            assert(self.all_sigs@[i] == oldsigs[i]);
                        } else {
                            assert(oldsigs[i].credit == self.all_sigs@[i].credit);
                            assert(oldsigs[i].sig@ == self.all_sigs@[i].sig@);
                        }
                    }
                }
            },
            None => {
                proof {
                    assert(occ(items0, s@) == 0);
                }
                let credit: Option<usize> = match self.matcher.domain_for(s.as_str()) {
                    Some(d) => {
                        if str_eq(self.matcher.entries[d].name.as_str(), "_other") {
                            None
                        } else {
                            Some(d)
                        }
                    },
                    None => None,
                };
                let ghost oldsigs = self.all_sigs@;
                let rec = SigRecord { sig: s.clone(), count: 1, credit };
                self.all_sigs.push(rec);
                newcount = 1;
                proof {
                    assert(sig_views(self.all_sigs@) =~~= sig_views(oldsigs).push(s@));
                    assert(distinct_sigs(items1) == distinct_sigs(items0).push(s@)) by {
                        assert(!distinct_sigs(items0).contains(s@));
                    }
                    assert forall|i: int|
                        0 <= i < self.all_sigs@.len() implies (#[trigger] self.all_sigs@[i]).count
                        == occ(items1, self.all_sigs@[i].sig@) by {
                        if i < self.all_sigs@.len() - 1 {
                            assert(self.all_sigs@[i] == oldsigs[i]);
                            assert(sig_views(oldsigs)[i] == oldsigs[i].sig@);
                            assert(!distinct_sigs(items0).contains(s@));
                            assert(oldsigs[i].sig@ != s@) by {
                                if oldsigs[i].sig@ == s@ {
                                    assert(sig_views(oldsigs).contains(s@));
                                }
                            }
                        } else {
                            assert(occ(items1, s@) == 1);
                        }
                    }
                    assert forall|i: int|
                        0 <= i < self.all_sigs@.len() implies self.credit_ok(
                        #[trigger] self.all_sigs@[i],
                    ) by {
                        if i < self.all_sigs@.len() - 1 {
                            assert(self.all_sigs@[i] == oldsigs[i]);
                        }
                    }
                }
            },
        }
        // Penalty or, while under the cap, the ambiguity warning check.
        proof {
            assert(occ(items1, s@) == newcount);
            assert(excess_count(items1, self.cap_per_signature as int) == excess_count(
                items0,
                self.cap_per_signature as int,
            ) + if newcount > self.cap_per_signature {
                1int
            } else {
                0int
            });
        }
        if newcount > self.cap_per_signature {
            self.excesses = self.excesses + 1;
        } else {
            let ms = self.matcher.domain_matches(s.as_str());
            if ms.len() > 1 {
                let mut names: Vec<String> = Vec::new();
                let mut k: usize = 0;
                while k < ms.len()
                    invariant
                        forall|t: int|
                            0 <= t < ms@.len() ==> ms@[t] < self.matcher.entries@.len(),
                    decreases ms@.len() - k,
                {
                    names.push(self.matcher.entries[ms[k]].name.clone());
                    k = k + 1;
                }
                let signature = s.clone();
                self.warnings.push(AmbiguityWarning { signature, names });
            }
        }
        self.total = self.total + 1;
        proof {
            self.items@ = items1;
            assert(self.total == self.items@.len());
            assert(self.items@.len() <= MAX_SCORED_OCCURRENCES);
            assert(sig_views(self.all_sigs@) == distinct_sigs(self.items@));
            assert(forall|i: int|
                0 <= i < self.all_sigs@.len() ==> (#[trigger] self.all_sigs@[i]).count == occ(
                    self.items@,
                    self.all_sigs@[i].sig@,
                ));
            assert(forall|i: int|
                0 <= i < self.all_sigs@.len() ==> self.credit_ok(#[trigger] self.all_sigs@[i]));
            assert(bucket_keys(self.windows@) == window_keys(self.items@));
            assert(forall|w: int|
                0 <= w < self.windows@.len() ==> views_of((#[trigger] self.windows@[w]).sigs@)
                    == window_sigs(self.items@, self.windows@[w].key as int));
            assert(self.excesses == excess_count(self.items@, self.cap_per_signature as int));
        }
    }

    /// Folds one evaluated record into the run: every signature joins its
    /// window bucket and the distinct set, counts toward its occurrence
    /// total, and is credited or penalized against the cap.
    pub fn incorporate(&mut self, action: &EvalActionRecord)
        requires
            old(self).wf(),
            old(self).total + action.signatures@.len() <= MAX_SCORED_OCCURRENCES,
        ensures
            final(self).wf(),
            final(self).items@ == old(self).items@ + items_of(*action),
            final(self).matcher == old(self).matcher,
            final(self).cap_per_signature == old(self).cap_per_signature,
            final(self).window_ms == old(self).window_ms,
            final(self).total == old(self).total + action.signatures@.len(),
    {
        if action.signatures.len() == 0 {
            proof {
                assert(self.items@ + items_of(*action) =~= self.items@);
            }
            return ;
        }
        let mut i: usize = 0;
        while i < action.signatures.len()
            invariant
                i <= action.signatures@.len(),
                self.wf(),
                self.matcher == old(self).matcher,
                self.cap_per_signature == old(self).cap_per_signature,
                self.window_ms == old(self).window_ms,
                self.total == old(self).total + i,
                self.items@ == old(self).items@ + items_of(*action).take(i as int),
            decreases action.signatures@.len() - i,
        {
            let ghost before = self.items@;
            self.add_one(action.window_key_ms, &action.signatures[i]);
            proof {
                assert(items_of(*action)[i as int] == (
                    action.window_key_ms as int,
                    action.signatures@[i as int]@,
                ));
                assert(before.push(items_of(*action)[i as int]) =~= old(self).items@ + items_of(
                    *action,
                ).take(i + 1));
            }
            i = i + 1;
        }
        proof {
            assert(items_of(*action).take(action.signatures@.len() as int) =~= items_of(*action));
        }
    }
}

/// How many signature records are credited to domain `d`.
pub open spec fn credited_count(recs: Seq<SigRecord>, d: int) -> int
    decreases recs.len(),
{
    if recs.len() == 0 {
        0
    } else {
        credited_count(recs.drop_last(), d) + match recs.last().credit {
            Some(c) => if c as int == d {
                1int
            } else {
                0int
            },
            None => 0int,
        }
    }
}

/// The credited counts of the first `nd` domains, summed.
pub open spec fn sum_credited(recs: Seq<SigRecord>, nd: int) -> int
    decreases nd,
{
    if nd <= 0 {
        0
    } else {
        sum_credited(recs, nd - 1) + credited_count(recs, nd - 1)
    }
}

pub proof fn lemma_sum_credited_push(recs: Seq<SigRecord>, r: SigRecord, nd: int)
    ensures
        sum_credited(recs.push(r), nd) == sum_credited(recs, nd) + match r.credit {
            Some(c) => if 0 <= (c as int) && (c as int) < nd {
                1int
            } else {
                0int
            },
            None => 0int,
        },
    decreases nd,
{
    if nd > 0 {
        lemma_sum_credited_push(recs, r, nd - 1);
        assert(recs.push(r).drop_last() =~= recs);
    }
}

pub proof fn lemma_sum_credited_empty(nd: int)
    ensures
        sum_credited(Seq::empty(), nd) == 0,
    decreases nd,
{
    if nd > 0 {
        lemma_sum_credited_empty(nd - 1);
    }
}

/// Every signature record is credited to at most one domain, so the
/// credited counts sum to at most the number of records.
pub proof fn lemma_sum_credited_le(recs: Seq<SigRecord>, nd: int)
    ensures
        0 <= sum_credited(recs, nd) <= recs.len(),
    decreases recs.len(),
{
    if recs.len() == 0 {
        assert(recs =~= Seq::<SigRecord>::empty());
        lemma_sum_credited_empty(nd);
    } else {
        lemma_sum_credited_le(recs.drop_last(), nd);
        lemma_sum_credited_push(recs.drop_last(), recs.last(), nd);
        assert(recs.drop_last().push(recs.last()) =~= recs);
    }
}

/// Window-key and window-signature lists never outgrow the item list, and
/// a key that occurs has at least one signature.
pub proof fn lemma_window_lens(items: Seq<(int, Seq<char>)>)
    ensures
        window_keys(items).len() <= items.len(),
        forall|k: int| #[trigger] window_sigs(items, k).len() <= items.len(),
        forall|k: int|
            #[trigger] window_keys(items).contains(k) ==> window_sigs(items, k).len() >= 1,
    decreases items.len(),
{
    if items.len() != 0 {
        lemma_window_lens(items.drop_last());
        let p = window_keys(items.drop_last());
        let x = items.last().0;
        assert forall|k: int| #[trigger] window_sigs(items, k).len() <= items.len() by {
            assert(window_sigs(items.drop_last(), k).len() <= items.drop_last().len());
        }
        assert forall|k: int|
            #[trigger] window_keys(items).contains(k) implies window_sigs(items, k).len()
            >= 1 by {
            if k == x {
                assert(window_sigs(items.drop_last(), k).len() >= 0);
            } else {
                assert(p.contains(k)) by {
                    let i = choose|i: int|
                        0 <= i < window_keys(items).len() && window_keys(items)[i] == k;
                    if !p.contains(x) && i == window_keys(items).len() - 1 {
                    } else {
                        assert(window_keys(items)[i] == p[i]);
                    }
                }
            }
        }
    }
}

/// One domain's share of the report: its credited signatures sorted, their
/// count, and the weighted contribution in micro-units.
#[derive(Debug)]
pub struct DomainBreakdown {
    pub name: String,
    pub weight: u64,
    pub unique_signatures: Vec<String>,
    pub unique_count: usize,
    pub contribution: i128,
}

/// The finalized score report; never mutated after finalization.
#[derive(Debug)]
pub struct ScoreReport {
    pub final_score: i128,
    pub base: i128,
    pub bonus: i128,
    pub penalty: i128,
    pub per_domain: Vec<DomainBreakdown>,
    pub unique_signatures: Vec<String>,
    pub cap_per_signature: u64,
    pub window_ms: i64,
    pub unmapped_signatures: Vec<String>,
}

/// The contributions of the listed domains, summed.
pub open spec fn contrib_sum(ds: Seq<DomainBreakdown>) -> int
    decreases ds.len(),
{
    if ds.len() == 0 {
        0
    } else {
        contrib_sum(ds.drop_last()) + ds.last().contribution
    }
}

/// What one domain's share of the report must hold: its registry name
/// and weight, the credited signatures sorted without duplicates, and
/// the weighted contribution.
pub open spec fn breakdown_ok(
    matcher: DomainMatcher,
    items: Seq<(int, Seq<char>)>,
    d: int,
    b: DomainBreakdown,
) -> bool {
    &&& b.name@ == matcher.entries@[d].name@
    &&& b.weight == matcher.entries@[d].weight
    &&& crate::text::strictly_sorted(views_of(b.unique_signatures@))
    &&& forall|s: Seq<char>|
        #[trigger] views_of(b.unique_signatures@).contains(s) <==> (occ(items, s) > 0
            && matcher.spec_credit(s) == Some(d))
    &&& b.unique_count == b.unique_signatures@.len()
    &&& b.contribution == (b.weight as int) * (b.unique_signatures@.len() as int)
}

/// What a finalized report must hold, given the scored items, the
/// registry and the settings: sorted global and unmapped signature lists
/// pinned by membership, one breakdown per domain, and the three linearly
/// combined score dimensions.
pub open spec fn report_ok(
    r: ScoreReport,
    items: Seq<(int, Seq<char>)>,
    matcher: DomainMatcher,
    cap: u64,
    window_ms: i64,
) -> bool {
    &&& r.cap_per_signature == cap
    &&& r.window_ms == window_ms
    &&& crate::text::strictly_sorted(views_of(r.unique_signatures@))
    &&& forall|s: Seq<char>|
        #[trigger] views_of(r.unique_signatures@).contains(s) <==> occ(items, s) > 0
    &&& crate::text::strictly_sorted(views_of(r.unmapped_signatures@))
    &&& forall|s: Seq<char>|
        #[trigger] views_of(r.unmapped_signatures@).contains(s) <==> (occ(items, s) > 0
            && matcher.spec_credit(s) is None)
    &&& r.per_domain@.len() == matcher.entries@.len()
    &&& forall|d: int|
        0 <= d < r.per_domain@.len() ==> breakdown_ok(matcher, items, d, #[trigger] r.per_domain@[d])
    &&& r.base == contrib_sum(r.per_domain@)
    &&& r.bonus == (BONUS_PER_EXTRA_MICRO as int) * bonus_units(items)
    &&& r.penalty == (PENALTY_PER_EXTRA_MICRO as int) * excess_count(items, cap as int)
    &&& r.final_score == r.base + r.bonus - r.penalty
}

impl ScoreState {
    /// Finalizes the run into a report: per-domain breakdowns with the
    /// weighted base, the composition bonus over window buckets, the
    /// anti-spam penalty, and the sorted signature lists.
    pub fn finalize(&self) -> (r: ScoreReport)
        requires
            self.wf(),
        ensures
            report_ok(r, self.items@, self.matcher, self.cap_per_signature, self.window_ms),
    {
        proof {
            lemma_distinct_sigs(self.items@);
            lemma_window_keys(self.items@);
            lemma_window_lens(self.items@);
            lemma_excess_bounds(self.items@, self.cap_per_signature as int);
        }
        // The global sorted unique-signature list.
        let mut unique_signatures: Vec<String> = Vec::new();
        let mut i: usize = 0;
        while i < self.all_sigs.len()
            invariant
                i <= self.all_sigs@.len(),
                crate::text::strictly_sorted(views_of(unique_signatures@)),
                forall|x: Seq<char>|
                    #[trigger] views_of(unique_signatures@).contains(x) <==> sig_views(
                        self.all_sigs@,
                    ).take(i as int).contains(x),
            decreases self.all_sigs@.len() - i,
        {
            proof {
                assert(sig_views(self.all_sigs@).take(i + 1) =~= sig_views(self.all_sigs@).take(
                    i as int,
                ).push(self.all_sigs@[i as int].sig@));
                crate::text::lemma_contains_push(
                    sig_views(self.all_sigs@).take(i as int),
                    self.all_sigs@[i as int].sig@,
                );
            }
            crate::text::insert_sorted(&mut unique_signatures, self.all_sigs[i].sig.clone());
            i = i + 1;
        }
        proof {
            assert(sig_views(self.all_sigs@).take(self.all_sigs@.len() as int) =~= sig_views(
                self.all_sigs@,
            ));
        }
        // The sorted unmapped-signature list.
        let mut unmapped_signatures: Vec<String> = Vec::new();
        let mut i2: usize = 0;
        while i2 < self.all_sigs.len()
            invariant
                i2 <= self.all_sigs@.len(),
                crate::text::strictly_sorted(views_of(unmapped_signatures@)),
                forall|x: Seq<char>|
                    #[trigger] views_of(unmapped_signatures@).contains(x) <==> exists|t: int|
                        0 <= t < i2 && (#[trigger] self.all_sigs@[t]).sig@ == x
                            && self.all_sigs@[t].credit is None,
            decreases self.all_sigs@.len() - i2,
        {
            let ghost before = views_of(unmapped_signatures@);
            match self.all_sigs[i2].credit {
                None => {
                    crate::text::insert_sorted(
                        &mut unmapped_signatures,
                        self.all_sigs[i2].sig.clone(),
                    );
                },
                Some(_) => {},
            }
            proof {
                assert forall|x: Seq<char>|
                    #[trigger] views_of(unmapped_signatures@).contains(x) <==> exists|t: int|
                        0 <= t < i2 + 1 && (#[trigger] self.all_sigs@[t]).sig@ == x
                            && self.all_sigs@[t].credit is None by {
                    if views_of(unmapped_signatures@).contains(x) {
                        if before.contains(x) {
                            let t = choose|t: int|
                                0 <= t < i2 && (#[trigger] self.all_sigs@[t]).sig@ == x
                                    && self.all_sigs@[t].credit is None;
                            assert(0 <= t < i2 + 1 && self.all_sigs@[t].sig@ == x
                                && self.all_sigs@[t].credit is None);
                        } else {
                            assert(self.all_sigs@[i2 as int].sig@ == x
                                && self.all_sigs@[i2 as int].credit is None);
                        }
                    }
                    if exists|t: int|
                        0 <= t < i2 + 1 && (#[trigger] self.all_sigs@[t]).sig@ == x
                            && self.all_sigs@[t].credit is None {
                        let t = choose|t: int|
                            0 <= t < i2 + 1 && (#[trigger] self.all_sigs@[t]).sig@ == x
                                && self.all_sigs@[t].credit is None;
                        if t < i2 {
                            assert(before.contains(x));
                        }
                    }
                }
            }
            i2 = i2 + 1;
        }
        proof {
            assert forall|s: Seq<char>|
                #[trigger] views_of(unmapped_signatures@).contains(s) <==> (occ(self.items@, s)
                    > 0 && self.matcher.spec_credit(s) is None) by {
                if views_of(unmapped_signatures@).contains(s) {
                    let t = choose|t: int|
                        0 <= t < self.all_sigs@.len() && (#[trigger] self.all_sigs@[t]).sig@ == s
                            && self.all_sigs@[t].credit is None;
                    assert(sig_views(self.all_sigs@)[t] == s);
                    assert(distinct_sigs(self.items@).contains(s));
                    assert(self.credit_ok(self.all_sigs@[t]));
                }
                if occ(self.items@, s) > 0 && self.matcher.spec_credit(s) is None {
                    assert(distinct_sigs(self.items@).contains(s));
                    let t = choose|t: int|
                        0 <= t < sig_views(self.all_sigs@).len() && sig_views(self.all_sigs@)[t]
                            == s;
                    assert(self.all_sigs@[t].sig@ == s);
                    assert(self.credit_ok(self.all_sigs@[t]));
                    assert(self.all_sigs@[t].credit is None);
                }
            }
        }
        // Per-domain breakdowns and the weighted base.
        let mut per_domain: Vec<DomainBreakdown> = Vec::new();
        let mut base: i128 = 0;
        let mut d: usize = 0;
        while d < self.matcher.entries.len()
            invariant
                d <= self.matcher.entries@.len(),
                per_domain@.len() == d,
                forall|j: int|
                    0 <= j < d ==> breakdown_ok(self.matcher, self.items@, j, #[trigger] per_domain@[j]),
                base == contrib_sum(per_domain@),
                0 <= base,
                base <= 0xFFFF_FFFF_FFFF_FFFFi128 * sum_credited(self.all_sigs@, d as int),
            decreases self.matcher.entries@.len() - d,
        {
            proof {
                lemma_sum_credited_le(self.all_sigs@, d as int);
                lemma_sum_credited_le(self.all_sigs@, d + 1 as int);
            }
            let mut list: Vec<String> = Vec::new();
            let mut j: usize = 0;
            while j < self.all_sigs.len()
                invariant
                    j <= self.all_sigs@.len(),
                    0 <= (d as int) < self.matcher.entries@.len(),
                    crate::text::strictly_sorted(views_of(list@)),
                    forall|x: Seq<char>|
                        #[trigger] views_of(list@).contains(x) <==> exists|t: int|
                            0 <= t < j && (#[trigger] self.all_sigs@[t]).sig@ == x
                                && self.all_sigs@[t].credit == Some(d),
                    list@.len() == credited_count(self.all_sigs@.take(j as int), d as int),
                decreases self.all_sigs@.len() - j,
            {
                let ghost before = views_of(list@);
                let mut inserted: bool = false;
                match self.all_sigs[j].credit {
                    Some(c) => {
                        if c == d {
                            proof {
                                if before.contains(self.all_sigs@[j as int].sig@) {
                                    let t = choose|t: int|
                                        0 <= t < j && (#[trigger] self.all_sigs@[t]).sig@
                                            == self.all_sigs@[j as int].sig@
                                            && self.all_sigs@[t].credit == Some(d);
                                    assert(sig_views(self.all_sigs@)[t] == sig_views(
                                        self.all_sigs@,
                                    )[j as int]);
                                }
                            }
                            crate::text::insert_sorted(&mut list, self.all_sigs[j].sig.clone());
                            inserted = true;
                        }
                    },
                    None => {},
                }
                proof {
                    assert(self.all_sigs@.take(j + 1).drop_last() =~= self.all_sigs@.take(
                        j as int,
                    ));
                    assert(self.all_sigs@.take(j + 1).last() == self.all_sigs@[j as int]);
                    assert forall|x: Seq<char>|
                        #[trigger] views_of(list@).contains(x) <==> exists|t: int|
                            0 <= t < j + 1 && (#[trigger] self.all_sigs@[t]).sig@ == x
                                && self.all_sigs@[t].credit == Some(d) by {
                        if views_of(list@).contains(x) {
                            if before.contains(x) {
                                let t = choose|t: int|
                                    0 <= t < j && (#[trigger] self.all_sigs@[t]).sig@ == x
                                        && self.all_sigs@[t].credit == Some(d);
                                assert(0 <= t < j + 1 && self.all_sigs@[t].sig@ == x
                                    && self.all_sigs@[t].credit == Some(d));
                            } else {
                                assert(inserted);
                                assert(self.all_sigs@[j as int].sig@ == x && self.all_sigs@[j
                                    as int].credit == Some(d));
                            }
                        }
                        if exists|t: int|
                            0 <= t < j + 1 && (#[trigger] self.all_sigs@[t]).sig@ == x
                                && self.all_sigs@[t].credit == Some(d) {
                            let t = choose|t: int|
                                0 <= t < j + 1 && (#[trigger] self.all_sigs@[t]).sig@ == x
                                    && self.all_sigs@[t].credit == Some(d);
                            if t < j {
                                assert(before.contains(x));
                            }
                        }
                    }
                }
                j = j + 1;
            }
            proof {
                assert(self.all_sigs@.take(self.all_sigs@.len() as int) =~= self.all_sigs@);
                assert forall|x: Seq<char>|
                    #[trigger] views_of(list@).contains(x) <==> (occ(self.items@, x) > 0
                        && self.matcher.spec_credit(x) == Some(d as int)) by {
                    if views_of(list@).contains(x) {
                        let t = choose|t: int|
                            0 <= t < self.all_sigs@.len() && (#[trigger] self.all_sigs@[t]).sig@
                                == x && self.all_sigs@[t].credit == Some(d);
                        assert(sig_views(self.all_sigs@)[t] == x);
                        assert(distinct_sigs(self.items@).contains(x));
                        assert(self.credit_ok(self.all_sigs@[t]));
                    }
                    if occ(self.items@, x) > 0 && self.matcher.spec_credit(x) == Some(d as int) {
                        assert(distinct_sigs(self.items@).contains(x));
                        let t = choose|t: int|
                            0 <= t < sig_views(self.all_sigs@).len() && sig_views(
                                self.all_sigs@,
                            )[t] == x;
                        assert(self.all_sigs@[t].sig@ == x);
                        assert(self.credit_ok(self.all_sigs@[t]));
                        assert(self.all_sigs@[t].credit == Some(d));
                    }
                }
            }
            let cnt = list.len();
            let weight = self.matcher.entries[d].weight;
            proof {
                assert(self.all_sigs@.len() == distinct_sigs(self.items@).len());
                vstd::arithmetic::mul::lemma_mul_upper_bound(
                    weight as int,
                    0xFFFF_FFFF_FFFF_FFFFint,
                    cnt as int,
                    MAX_SCORED_OCCURRENCES as int,
                );
                vstd::arithmetic::mul::lemma_mul_nonnegative(weight as int, cnt as int);
            }
            let contribution: i128 = (weight as i128) * (cnt as i128);
            let ghost old_base = base;
            base = base + contribution;
            let name = self.matcher.entries[d].name.clone();
            let ghost old_pd = per_domain@;
            per_domain.push(
                DomainBreakdown {
                    name,
                    weight,
                    unique_signatures: list,
                    unique_count: cnt,
                    contribution,
                },
            );
            proof {
                assert(per_domain@.drop_last() =~= old_pd);
                assert(contribution as int <= 0xFFFF_FFFF_FFFF_FFFFint * (cnt as int)) by {
                    vstd::arithmetic::mul::lemma_mul_upper_bound(
                        weight as int,
                        0xFFFF_FFFF_FFFF_FFFFint,
                        cnt as int,
                        cnt as int,
                    );
                }
                assert(0xFFFF_FFFF_FFFF_FFFFint * sum_credited(self.all_sigs@, d as int)
                    + 0xFFFF_FFFF_FFFF_FFFFint * (cnt as int) == 0xFFFF_FFFF_FFFF_FFFFint * (
                sum_credited(self.all_sigs@, d as int) + (cnt as int))) by {
                    vstd::arithmetic::mul::lemma_mul_is_distributive_add(
                        0xFFFF_FFFF_FFFF_FFFFint,
                        sum_credited(self.all_sigs@, d as int),
                        cnt as int,
                    );
                }
            }
            d = d + 1;
        }
        // Composition bonus over the window buckets.
        let mut units: i128 = 0;
        let mut w: usize = 0;
        proof {
            assert(bucket_keys(self.windows@).take(0) =~= Seq::<int>::empty());
        }
        while w < self.windows.len()
            invariant
                w <= self.windows@.len(),
                units == window_excess(
                    self.items@,
                    bucket_keys(self.windows@).take(w as int),
                ),
                0 <= units + (w as int),
                units <= (w as int) * (MAX_SCORED_OCCURRENCES as int),
            decreases self.windows@.len() - w,
        {
            let blen = self.windows[w].sigs.len();
            proof {
                assert(views_of(self.windows@[w as int].sigs@).len() == window_sigs(
                    self.items@,
                    self.windows@[w as int].key as int,
                ).len());
                assert(window_keys(self.items@).contains(self.windows@[w as int].key as int)) by {
                    assert(bucket_keys(self.windows@)[w as int] == self.windows@[w as int].key
                        as int);
                }
                assert(bucket_keys(self.windows@).take(w + 1).drop_last() =~= bucket_keys(
                    self.windows@,
                ).take(w as int));
                assert(bucket_keys(self.windows@).take(w + 1).last() == self.windows@[w
                    as int].key as int);
            }
            units = units + ((blen as i128) - 1);
            w = w + 1;
        }
        proof {
            assert(bucket_keys(self.windows@).take(self.windows@.len() as int) =~= bucket_keys(
                self.windows@,
            ));
        }
        proof {
            lemma_sum_credited_le(self.all_sigs@, self.matcher.entries@.len() as int);
            assert(self.all_sigs@.len() <= MAX_SCORED_OCCURRENCES);
            assert(sum_credited(self.all_sigs@, self.matcher.entries@.len() as int)
                <= MAX_SCORED_OCCURRENCES);
            vstd::arithmetic::mul::lemma_mul_left_inequality(
                0xFFFF_FFFF_FFFF_FFFFint,
                sum_credited(self.all_sigs@, self.matcher.entries@.len() as int),
                MAX_SCORED_OCCURRENCES as int,
            );
            assert(base <= 0xFFFF_FFFF_FFFF_FFFFint * 0x1_0000_0000int);
            assert(self.windows@.len() <= MAX_SCORED_OCCURRENCES) by {
                assert(bucket_keys(self.windows@).len() == window_keys(self.items@).len());
            }
            vstd::arithmetic::mul::lemma_mul_inequality(
                self.windows@.len() as int,
                MAX_SCORED_OCCURRENCES as int,
                MAX_SCORED_OCCURRENCES as int,
            );
            assert(units <= 0x1_0000_0000int * 0x1_0000_0000int);
            assert(0x1_0000_0000int * 0x1_0000_0000int == 0x1_0000_0000_0000_0000int);
            assert(units <= 0x1_0000_0000_0000_0000i128);
            assert(units >= -0x1_0000_0000i128);
            assert(self.excesses <= MAX_SCORED_OCCURRENCES);
        }
        proof {
            assert(BONUS_PER_EXTRA_MICRO == 250000);
            assert(PENALTY_PER_EXTRA_MICRO == 100000);
            vstd::arithmetic::mul::lemma_mul_inequality(units as int, 0x1_0000_0000_0000_0000int, 250000int);
            vstd::arithmetic::mul::lemma_mul_inequality(-0x1_0000_0000int, units as int, 250000int);
            vstd::arithmetic::mul::lemma_mul_is_commutative(250000int, units as int);
            vstd::arithmetic::mul::lemma_mul_inequality(self.excesses as int, 0x1_0000_0000int, 100000int);
            vstd::arithmetic::mul::lemma_mul_nonnegative(self.excesses as int, 100000int);
            vstd::arithmetic::mul::lemma_mul_is_commutative(100000int, self.excesses as int);
        }
        let bonus: i128 = (BONUS_PER_EXTRA_MICRO as i128) * units;
        let penalty: i128 = (PENALTY_PER_EXTRA_MICRO as i128) * (self.excesses as i128);
        let final_score: i128 = base + bonus - penalty;
        ScoreReport {
            final_score,
            base,
            bonus,
            penalty,
            per_domain,
            unique_signatures,
            cap_per_signature: self.cap_per_signature,
            window_ms: self.window_ms,
            unmapped_signatures,
        }
    }
}

/// The items a batch of evaluated records contributes: ignored records
/// contribute nothing.
pub open spec fn scored_items(evals: Seq<EvalActionRecord>) -> Seq<(int, Seq<char>)>
    decreases evals.len(),
{
    if evals.len() == 0 {
        Seq::empty()
    } else {
        (if evals[0].ignored {
            Seq::<(int, Seq<char>)>::empty()
        } else {
            items_of(evals[0])
        }) + scored_items(evals.drop_first())
    }
}

/// Scores a whole batch of evaluated records in one pass, skipping the
/// ignored ones, and finalizes the report. The report is a pure function
/// of the records, the registry and the settings: re-running on identical
/// input yields an identical report. Beside the report it hands out the
/// collected ambiguity warnings: one entry, with the matching domain
/// names, for each scored occurrence whose signature matched several
/// domains.
pub fn score_records(
    matcher: DomainMatcher,
    cap_per_signature: u64,
    window_ms: i64,
    evals: &Vec<EvalActionRecord>,
) -> (r: (ScoreReport, Vec<AmbiguityWarning>))
    requires
        cap_per_signature >= 1,
        scored_items(evals@).len() <= MAX_SCORED_OCCURRENCES,
    ensures
        report_ok(r.0, scored_items(evals@), matcher, cap_per_signature, window_ms),
{
    let ghost gmatcher = matcher;
    let mut state = ScoreState::new(matcher, cap_per_signature, window_ms);
    let mut i: usize = 0;
    proof {
        assert(state.items@ + scored_items(evals@.skip(0)) =~= scored_items(evals@.skip(0)));
        assert(evals@.skip(0) =~= evals@);
    }
    while i < evals.len()
        invariant
            i <= evals@.len(),
            state.wf(),
            state.matcher == gmatcher,
            state.cap_per_signature == cap_per_signature,
            state.window_ms == window_ms,
            scored_items(evals@) == state.items@ + scored_items(evals@.skip(i as int)),
            scored_items(evals@).len() <= MAX_SCORED_OCCURRENCES,
        decreases evals@.len() - i,
    {
        proof {
            assert(evals@.skip(i as int)[0] == evals@[i as int]);
            assert(evals@.skip(i as int).drop_first() =~= evals@.skip(i + 1));
            lemma_scored_items_nonneg(evals@.skip(i + 1));
        }
        if !evals[i].ignored {
            state.incorporate(&evals[i]);
            proof {
                assert(scored_items(evals@) =~= state.items@ + scored_items(evals@.skip(i + 1)));
            }
        } else {
            proof {
                assert(Seq::<(int, Seq<char>)>::empty() + scored_items(evals@.skip(i + 1))
                    =~= scored_items(evals@.skip(i + 1)));
            }
        }
        i = i + 1;
    }
    proof {
        assert(evals@.skip(evals@.len() as int) =~= Seq::<EvalActionRecord>::empty());
        assert(state.items@ + Seq::<(int, Seq<char>)>::empty() =~= state.items@);
    }
    let report = state.finalize();
    (report, state.warnings)
}

pub proof fn lemma_scored_items_nonneg(evals: Seq<EvalActionRecord>)
    ensures
        scored_items(evals).len() >= 0,
{
}

/// The score report is deterministic: any two reports that satisfy the
/// report relation for the same items, registry and settings agree on
/// every score, every list and every breakdown. With the executable
/// scorer pinned to that relation, re-running it on identical input
/// yields an identical report, with no hidden temporal state.
pub proof fn lemma_report_deterministic(
    r1: ScoreReport,
    r2: ScoreReport,
    items: Seq<(int, Seq<char>)>,
    matcher: DomainMatcher,
    cap: u64,
    window_ms: i64,
)
    requires
        report_ok(r1, items, matcher, cap, window_ms),
        report_ok(r2, items, matcher, cap, window_ms),
    ensures
        r1.final_score == r2.final_score,
        r1.base == r2.base,
        r1.bonus == r2.bonus,
        r1.penalty == r2.penalty,
        r1.cap_per_signature == r2.cap_per_signature,
        r1.window_ms == r2.window_ms,
        views_of(r1.unique_signatures@) == views_of(r2.unique_signatures@),
        views_of(r1.unmapped_signatures@) == views_of(r2.unmapped_signatures@),
        r1.per_domain@.len() == r2.per_domain@.len(),
        forall|d: int|
            0 <= d < r1.per_domain@.len() ==> {
                &&& (#[trigger] r1.per_domain@[d]).name@ == r2.per_domain@[d].name@
                &&& r1.per_domain@[d].weight == r2.per_domain@[d].weight
                &&& views_of(r1.per_domain@[d].unique_signatures@) == views_of(
                    r2.per_domain@[d].unique_signatures@,
                )
                &&& r1.per_domain@[d].unique_count == r2.per_domain@[d].unique_count
                &&& r1.per_domain@[d].contribution == r2.per_domain@[d].contribution
            },
{
    crate::text::lemma_sorted_unique(
        views_of(r1.unique_signatures@),
        views_of(r2.unique_signatures@),
    );
    crate::text::lemma_sorted_unique(
        views_of(r1.unmapped_signatures@),
        views_of(r2.unmapped_signatures@),
    );
    assert forall|d: int|
        0 <= d < r1.per_domain@.len() implies {
        &&& (#[trigger] r1.per_domain@[d]).name@ == r2.per_domain@[d].name@
        &&& r1.per_domain@[d].weight == r2.per_domain@[d].weight
        &&& views_of(r1.per_domain@[d].unique_signatures@) == views_of(
            r2.per_domain@[d].unique_signatures@,
        )
        &&& r1.per_domain@[d].unique_count == r2.per_domain@[d].unique_count
        &&& r1.per_domain@[d].contribution == r2.per_domain@[d].contribution
    } by {
        assert(breakdown_ok(matcher, items, d, r1.per_domain@[d]));
        assert(breakdown_ok(matcher, items, d, r2.per_domain@[d]));
        crate::text::lemma_sorted_unique(
            views_of(r1.per_domain@[d].unique_signatures@),
            views_of(r2.per_domain@[d].unique_signatures@),
        );
    }
    lemma_contrib_sum_congruent(r1.per_domain@, r2.per_domain@);
}

/// Breakdowns with equal contributions sum to the same base.
proof fn lemma_contrib_sum_congruent(a: Seq<DomainBreakdown>, b: Seq<DomainBreakdown>)
    requires
        a.len() == b.len(),
        forall|d: int| 0 <= d < a.len() ==> (#[trigger] a[d]).contribution == b[d].contribution,
    ensures
        contrib_sum(a) == contrib_sum(b),
    decreases a.len(),
{
    if a.len() != 0 {
        lemma_contrib_sum_congruent(a.drop_last(), b.drop_last());
        assert(a.last().contribution == b.last().contribution) by {
            assert(a[a.len() - 1].contribution == b[a.len() - 1].contribution);
        }
    }
}

/// A run in which every occurrence carries the same signature: the
/// signature is counted once per occurrence and, once the count passes
/// the cap, each further occurrence accrues exactly one penalty unit.
pub proof fn lemma_uniform_signature_counts(items: Seq<(int, Seq<char>)>, s: Seq<char>, cap: int)
    requires
        cap >= 0,
        forall|i: int| 0 <= i < items.len() ==> (#[trigger] items[i]).1 == s,
    ensures
        occ(items, s) == items.len(),
        excess_count(items, cap) == if items.len() > cap {
            items.len() - cap
        } else {
            0
        },
    decreases items.len(),
{
    if items.len() != 0 {
        assert(items[items.len() - 1].1 == s);
        assert forall|i: int|
            0 <= i < items.drop_last().len() implies (#[trigger] items.drop_last()[i]).1 == s by {
            assert(items.drop_last()[i] == items[i]);
        }
        lemma_uniform_signature_counts(items.drop_last(), s, cap);
        assert(occ(items, s) == occ(items.drop_last(), s) + 1);
        assert(occ(items, items.last().1) == items.len());
        assert(excess_count(items, cap) == excess_count(items.drop_last(), cap) + (if occ(
            items,
            items.last().1,
        ) > cap {
            1int
        } else {
            0int
        }));
        if items.len() > cap {
            if items.len() - 1 > cap {
                assert(excess_count(items, cap) == (items.len() - 1 - cap) + 1);
            } else {
                assert(excess_count(items, cap) == 0 + 1);
            }
        }
    }
}

/// A signature that occurs somewhere stands at some position.
pub proof fn lemma_occ_witness(items: Seq<(int, Seq<char>)>, x: Seq<char>)
    requires
        occ(items, x) > 0,
    ensures
        exists|i: int| 0 <= i < items.len() && (#[trigger] items[i]).1 == x,
    decreases items.len(),
{
    if items.len() != 0 {
        if items.last().1 == x {
            assert(items[items.len() - 1].1 == x);
        } else {
            lemma_occ_witness(items.drop_last(), x);
            let i = choose|i: int|
                0 <= i < items.drop_last().len() && (#[trigger] items.drop_last()[i]).1 == x;
            assert(items[i].1 == x);
        }
    }
}

/// A signature occurring several times in one domain is credited once and
/// penalized once per occurrence beyond the cap: in a run holding only
/// occurrences of one credited signature, the domain's breakdown counts
/// exactly one unique signature, and the penalty is the per-occurrence
/// penalty times the count beyond the cap.
pub proof fn lemma_cap_credits_once(
    r: ScoreReport,
    items: Seq<(int, Seq<char>)>,
    matcher: DomainMatcher,
    cap: u64,
    window_ms: i64,
    s: Seq<char>,
    d: int,
)
    requires
        report_ok(r, items, matcher, cap, window_ms),
        forall|i: int| 0 <= i < items.len() ==> (#[trigger] items[i]).1 == s,
        items.len() >= 1,
        matcher.spec_credit(s) == Some(d),
        0 <= d < matcher.entries@.len(),
    ensures
        r.per_domain@[d].unique_count == 1,
        r.penalty == (PENALTY_PER_EXTRA_MICRO as int) * (if items.len() > cap as int {
            items.len() - cap as int
        } else {
            0
        }),
{
    lemma_uniform_signature_counts(items, s, cap as int);
    assert(breakdown_ok(matcher, items, d, r.per_domain@[d]));
    let list = views_of(r.per_domain@[d].unique_signatures@);
    assert forall|x: Seq<char>| list.contains(x) <==> seq![s].contains(x) by {
        if list.contains(x) {
            lemma_occ_witness(items, x);
            assert(x == s);
            assert(seq![s][0] == x);
        }
        if seq![s].contains(x) {
            assert(x == s);
            assert(occ(items, s) > 0);
        }
    }
    assert(crate::text::strictly_sorted(seq![s]));
    crate::text::lemma_sorted_unique(list, seq![s]);
    assert(r.per_domain@[d].unique_signatures@.len() == 1);
}

/// Window keys of a run confined to one window.
pub proof fn lemma_uniform_window(items: Seq<(int, Seq<char>)>, w: int)
    requires
        forall|i: int| 0 <= i < items.len() ==> (#[trigger] items[i]).0 == w,
        items.len() >= 1,
    ensures
        window_keys(items) == seq![w],
        window_sigs(items, w) == distinct_sigs(items),
    decreases items.len(),
{
    assert(items[items.len() - 1].0 == w);
    if items.len() == 1 {
        assert(items.drop_last() =~= Seq::<(int, Seq<char>)>::empty());
        assert(window_keys(items.drop_last()) == Seq::<int>::empty());
        assert(window_sigs(items.drop_last(), w) == Seq::<Seq<char>>::empty());
        assert(distinct_sigs(items.drop_last()) == Seq::<Seq<char>>::empty());
        assert(window_keys(items) =~= seq![w]);
        assert(window_sigs(items, w) =~~= distinct_sigs(items));
    } else {
        assert forall|i: int|
            0 <= i < items.drop_last().len() implies (#[trigger] items.drop_last()[i]).0 == w by {
            assert(items.drop_last()[i] == items[i]);
        }
        lemma_uniform_window(items.drop_last(), w);
        assert(window_keys(items.drop_last()).contains(w)) by {
            assert(seq![w][0] == w);
        }
        assert(window_keys(items) == seq![w]);
        assert(window_sigs(items, w) =~~= distinct_sigs(items));
    }
}

/// Distinct signatures sharing one window key each contribute one bonus
/// unit beyond the first: a run confined to one window earns the bonus
/// rate times one less than its number of distinct signatures.
pub proof fn lemma_single_window_bonus(
    r: ScoreReport,
    items: Seq<(int, Seq<char>)>,
    matcher: DomainMatcher,
    cap: u64,
    window_ms: i64,
    w: int,
)
    requires
        report_ok(r, items, matcher, cap, window_ms),
        forall|i: int| 0 <= i < items.len() ==> (#[trigger] items[i]).0 == w,
        items.len() >= 1,
    ensures
        r.bonus == (BONUS_PER_EXTRA_MICRO as int) * (distinct_sigs(items).len() - 1),
{
    lemma_uniform_window(items, w);
    assert(window_keys(items) == seq![w]);
    assert(seq![w].drop_last() =~= Seq::<int>::empty());
    assert(seq![w].last() == w);
    assert(window_excess(items, Seq::<int>::empty()) == 0);
    assert(window_excess(items, seq![w]) == distinct_sigs(items).len() - 1);
}

} // verus!
