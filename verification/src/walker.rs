//! The commit frontier walker: a k-way merge over the commit graphs of a
//! forest of repositories, emitting one globally time-ordered stream.
//!
//! Commits live in a flat table; each entry names its repository, its
//! content-addressed id, its committer timestamp and its parents (as table
//! indexes). The walker keeps a frontier of not-yet-emitted heads, repeatedly
//! removes the entry of greatest priority, and inserts the parents of each
//! emitted commit. A commit already emitted is skipped when reached again, so
//! a commit reachable along several converging paths is emitted at most once.
//!
//! Priority is non-increasing committer timestamp; ties are broken
//! deterministically by repository index, then commit id, so equal-timestamp
//! entries from different repositories interleave in a fixed order.

use vstd::prelude::*;

verus! {

use crate::model::CommitEntry;

/// True iff every parent index of every table entry is again a table index.
pub open spec fn parents_bounded(t: Seq<CommitEntry>) -> bool {
    forall|c: int, j: int|
        0 <= c < t.len() && 0 <= j < t[c].parents@.len() ==> t[c].parents@[j] < t.len()
}

/// True iff no parent is younger than its child: along every edge the
/// parent's committer timestamp is at most the child's.
pub open spec fn parents_older(t: Seq<CommitEntry>) -> bool {
    forall|c: int, j: int|
        0 <= c < t.len() && 0 <= j < t[c].parents@.len() ==> t[(#[trigger] t[c].parents@[j]) as int].time
            <= t[c].time
}

/// Emission priority: entry `a` strictly precedes entry `b` iff `a` has the
/// larger timestamp, or the timestamps tie and `a` has the smaller repository
/// index, or those tie too and `a` has the smaller commit id.
pub open spec fn precedes(t: Seq<CommitEntry>, a: int, b: int) -> bool {
    t[a].time > t[b].time || (t[a].time == t[b].time && (t[a].repo < t[b].repo || (t[a].repo
        == t[b].repo && t[a].id < t[b].id)))
}

/// The emitted timestamps never increase along the stream.
pub open spec fn non_increasing(t: Seq<CommitEntry>, out: Seq<usize>) -> bool {
    forall|i: int, j: int| 0 <= i <= j < out.len() ==> t[out[j] as int].time <= t[out[i] as int].time
}

/// The number of set flags in a boolean sequence.
pub open spec fn count_trues(s: Seq<bool>) -> nat
    decreases s.len(),
{
    if s.len() == 0 {
        0
    } else {
        count_trues(s.drop_last()) + if s.last() {
            1nat
        } else {
            0nat
        }
    }
}

proof fn lemma_count_trues_le(s: Seq<bool>)
    ensures
        count_trues(s) <= s.len(),
    decreases s.len(),
{
    if s.len() > 0 {
        lemma_count_trues_le(s.drop_last());
    }
}

proof fn lemma_count_trues_update(s: Seq<bool>, i: int)
    requires
        0 <= i < s.len(),
        !s[i],
    ensures
        count_trues(s.update(i, true)) == count_trues(s) + 1,
    decreases s.len(),
{
    let u = s.update(i, true);
    if i == s.len() - 1 {
        assert(u.drop_last() =~= s.drop_last());
    } else {
        assert(u.drop_last() =~= s.drop_last().update(i, true));
        lemma_count_trues_update(s.drop_last(), i);
    }
}

proof fn lemma_count_trues_zero(s: Seq<bool>)
    requires
        forall|i: int| 0 <= i < s.len() ==> !s[i],
    ensures
        count_trues(s) == 0,
    decreases s.len(),
{
    if s.len() > 0 {
        lemma_count_trues_zero(s.drop_last());
    }
}

/// The merge walker's state: the frontier of pending table indexes and one
/// emitted flag per table entry.
pub struct Walker {
    pub frontier: Vec<usize>,
    pub emitted: Vec<bool>,
}

impl Walker {
    /// Structural soundness against a given table: the flag vector covers the
    /// table and every frontier index points into it.
    pub open spec fn valid(self, t: Seq<CommitEntry>) -> bool {
        &&& self.emitted@.len() == t.len()
        &&& forall|i: int| 0 <= i < self.frontier@.len() ==> self.frontier@[i] < t.len()
    }

    /// A fresh walker over `table`, seeded with the given heads and with no
    /// commit emitted yet.
    pub fn new(table: &Vec<CommitEntry>, seeds: &Vec<usize>) -> (w: Walker)
        requires
            forall|i: int| 0 <= i < seeds@.len() ==> seeds@[i] < table@.len(),
        ensures
            w.valid(table@),
            w.frontier@ == seeds@,
            w.emitted@.len() == table@.len(),
            forall|i: int| 0 <= i < w.emitted@.len() ==> !w.emitted@[i],
            count_trues(w.emitted@) == 0,
    {
        let mut emitted: Vec<bool> = Vec::new();
        let n = table.len();
        let mut i: usize = 0;
        while i < n
            invariant
                i <= n,
                emitted@.len() == i,
                forall|k: int| 0 <= k < i ==> !emitted@[k],
            decreases n - i,
        {
            emitted.push(false);
            i = i + 1;
        }
        let mut frontier: Vec<usize> = Vec::new();
        let m = seeds.len();
        let mut j: usize = 0;
        while j < m
            invariant
                j <= m,
                m == seeds@.len(),
                frontier@ == seeds@.subrange(0, j as int),
            decreases m - j,
        {
            frontier.push(seeds[j]);
            proof {
                assert(seeds@.subrange(0, j + 1int) =~= seeds@.subrange(0, j as int).push(
                    seeds@[j as int],
                ));
            }
            j = j + 1;
        }
        proof {
            assert(seeds@.subrange(0, m as int) =~= seeds@);
            lemma_count_trues_zero(emitted@);
        }
        Walker { frontier, emitted }
    }

    /// One step of the merge: remove the highest-priority frontier entry,
    /// skipping any whose commit was already emitted; mark the removed commit
    /// emitted, insert its parents into the frontier, and hand it out.
    /// `None` means the frontier is exhausted.
    pub fn next(&mut self, table: &Vec<CommitEntry>) -> (r: Option<usize>)
        requires
            old(self).valid(table@),
            parents_bounded(table@),
        ensures
            final(self).valid(table@),
            match r {
                None => {
                    &&& final(self).frontier@.len() == 0
                    &&& final(self).emitted@ == old(self).emitted@
                    &&& forall|x: usize|
                        #[trigger] old(self).frontier@.contains(x) ==> final(self).emitted@[x as int]
                },
                Some(c) => {
                    &&& c < table@.len()
                    &&& old(self).frontier@.contains(c)
                    &&& !old(self).emitted@[c as int]
                    &&& final(self).emitted@ == old(self).emitted@.update(c as int, true)
                    &&& forall|x: usize|
                        #[trigger] final(self).frontier@.contains(x)
                            ==> old(self).frontier@.contains(x)
                            || table@[c as int].parents@.contains(x)
                    &&& forall|x: usize|
                        #[trigger] old(self).frontier@.contains(x)
                            ==> final(self).frontier@.contains(x)
                            || final(self).emitted@[x as int]
                    &&& forall|x: usize|
                        #[trigger] final(self).frontier@.contains(x) ==> table@[x as int].time
                            <= table@[c as int].time || table@[c as int].parents@.contains(x)
                    &&& forall|j: int|
                        0 <= j < table@[c as int].parents@.len()
                            ==> final(self).frontier@.contains(
                            #[trigger] table@[c as int].parents@[j],
                        )
                    &&& forall|x: usize|
                        #[trigger] old(self).frontier@.contains(x) && !old(self).emitted@[
                            x as int] ==> !precedes(table@, x as int, c as int)
                },
            },
    {
        loop
            invariant
                self.valid(table@),
                old(self).valid(table@),
                parents_bounded(table@),
                self.emitted@ == old(self).emitted@,
                forall|x: usize|
                    #[trigger] self.frontier@.contains(x) ==> old(self).frontier@.contains(x),
                forall|x: usize|
                    #[trigger] old(self).frontier@.contains(x) ==> self.frontier@.contains(x)
                        || self.emitted@[x as int],
            decreases self.frontier@.len(),
        {
            let n = self.frontier.len();
            if n == 0 {
                return None;
            }
            let mut best: usize = 0;
            let mut j: usize = 1;
            while j < n
                invariant
                    self.valid(table@),
                    n == self.frontier@.len(),
                    best < n,
                    1 <= j <= n,
                    forall|k: int|
                        0 <= k < j ==> !precedes(
                            table@,
                            self.frontier@[k] as int,
                            self.frontier@[best as int] as int,
                        ),
                decreases n - j,
            {
                let fj = self.frontier[j];
                let fb = self.frontier[best];
                if table[fj].time > table[fb].time || (table[fj].time == table[fb].time
                    && (table[fj].repo < table[fb].repo || (table[fj].repo == table[fb].repo
                    && table[fj].id < table[fb].id))) {
                    best = j;
                }
                j = j + 1;
            }
            let ghost start_frontier = self.frontier@;
            let c = self.frontier.swap_remove(best);
            let ghost mid = self.frontier@;
            proof {
                assert(start_frontier.contains(c)) by {
                    assert(start_frontier[best as int] == c);
                }
                assert forall|x: usize| mid.contains(x) implies start_frontier.contains(x) by {
                    let i = choose|i: int| 0 <= i < mid.len() && mid[i] == x;
                    if i == best as int {
                        assert(start_frontier[start_frontier.len() - 1] == x);
                    } else {
                        assert(start_frontier[i] == x);
                    }
                }
                assert forall|x: usize| start_frontier.contains(x) implies mid.contains(x) || x
                    == c by {
                    let i = choose|i: int|
                        0 <= i < start_frontier.len() && start_frontier[i] == x;
                    if x != c {
                        if i < start_frontier.len() - 1 {
                            if i == best as int {
                                assert(start_frontier[start_frontier.len() - 1] == x);
                                assert(mid[best as int] == x);
                            } else {
                                assert(mid[i] == x);
                            }
                        } else {
                            assert(best as int != i);
                            assert(mid[best as int] == x);
                        }
                    }
                }
                assert forall|x: usize| mid.contains(x) implies !precedes(
                    table@,
                    x as int,
                    c as int,
                ) by {
                    let i = choose|i: int| 0 <= i < mid.len() && mid[i] == x;
                    if i == best as int {
                        assert(start_frontier[start_frontier.len() - 1] == x);
                    } else {
                        assert(start_frontier[i] == x);
                    }
                }
            }
            if self.emitted[c] {
                continue;
            }
            self.emitted[c] = true;
            let np = table[c].parents.len();
            let mut k: usize = 0;
            proof {
                assert(mid + table@[c as int].parents@.subrange(0, 0int) =~= mid);
            }
            while k < np
                invariant
                    c < table@.len(),
                    np == table@[c as int].parents@.len(),
                    k <= np,
                    parents_bounded(table@),
                    self.emitted@.len() == table@.len(),
                    self.emitted@ == old(self).emitted@.update(c as int, true),
                    self.frontier@ == mid + table@[c as int].parents@.subrange(0, k as int),
                decreases np - k,
            {
                let p = table[c].parents[k];
                self.frontier.push(p);
                proof {
                    assert(mid + table@[c as int].parents@.subrange(0, k + 1int) =~= (mid
                        + table@[c as int].parents@.subrange(0, k as int)).push(
                        table@[c as int].parents@[k as int],
                    ));
                }
                k = k + 1;
            }
            proof {
                let parents = table@[c as int].parents@;
                assert(parents.subrange(0, np as int) =~= parents);
                assert(self.frontier@ =~= mid + parents);
                assert forall|x: usize| self.frontier@.contains(x) implies mid.contains(x)
                    || parents.contains(x) by {
                    let i = choose|i: int|
                        0 <= i < self.frontier@.len() && self.frontier@[i] == x;
                    if i < mid.len() {
                        assert(mid[i] == x);
                    } else {
                        assert(parents[i - mid.len()] == x);
                    }
                }
                assert forall|x: usize| mid.contains(x) implies self.frontier@.contains(x) by {
                    let i = choose|i: int| 0 <= i < mid.len() && mid[i] == x;
                    assert(self.frontier@[i] == x);
                }
                // structural validity of the rebuilt frontier
                assert forall|i: int|
                    0 <= i < self.frontier@.len() implies self.frontier@[i] < table@.len() by {
                    if i < mid.len() {
                        let x = mid[i];
                        let j = choose|j: int|
                            0 <= j < start_frontier.len() && start_frontier[j] == x;
                    } else {
                        assert(parents[i - mid.len()] < table@.len());
                    }
                }
                // the three frontier postconditions
                assert forall|x: usize| self.frontier@.contains(x) implies old(
                    self,
                ).frontier@.contains(x) || parents.contains(x) by {
                    if mid.contains(x) {
                        assert(start_frontier.contains(x));
                    }
                }
                assert forall|x: usize| old(self).frontier@.contains(x) implies self.frontier@.contains(
                    x,
                ) || self.emitted@[x as int] by {
                    if start_frontier.contains(x) {
                        if mid.contains(x) {
                            assert(self.frontier@.contains(x));
                        } else {
                            assert(x == c);
                            assert(self.emitted@[c as int]);
                        }
                    } else {
                        assert(old(self).emitted@[x as int]);
                        let i = choose|i: int|
                            0 <= i < old(self).frontier@.len() && old(self).frontier@[i] == x;
                        assert(x < table@.len());
                        assert(x != c);
                        assert(self.emitted@[x as int]);
                    }
                }
                assert forall|x: usize| self.frontier@.contains(x) implies table@[x as int].time
                    <= table@[c as int].time || parents.contains(x) by {
                    if mid.contains(x) {
                        assert(!precedes(table@, x as int, c as int));
                    }
                }
                // the emitted commit is of maximal priority among the pending
                // (not yet emitted) entries of the frontier as it was given
                assert forall|x: usize|
                    old(self).frontier@.contains(x) && !old(self).emitted@[x as int]
                        implies !precedes(table@, x as int, c as int) by {
                    if start_frontier.contains(x) {
                        if mid.contains(x) {
                            assert(!precedes(table@, x as int, c as int));
                        } else {
                            assert(x == c);
                        }
                    }
                }
                assert forall|j: int| 0 <= j < parents.len() implies self.frontier@.contains(
                    #[trigger] parents[j],
                ) by {
                    assert(self.frontier@[mid.len() + j] == parents[j]);
                }
            }
            return Some(c);
        }
    }
}

/// Runs the merge to exhaustion and returns the emission order.
///
/// The stream: contains no table index twice; contains every seed; every
/// entry is a seed or a parent of an earlier entry; once the stream ends,
/// every parent of an emitted commit was itself emitted; and, whenever no
/// parent in the table is younger than its child, the emitted timestamps are
/// non-increasing.
pub fn walk(table: &Vec<CommitEntry>, seeds: &Vec<usize>) -> (out: Vec<usize>)
    requires
        forall|i: int| 0 <= i < seeds@.len() ==> seeds@[i] < table@.len(),
        parents_bounded(table@),
    ensures
        forall|k: int| 0 <= k < out@.len() ==> out@[k] < table@.len(),
        out@.no_duplicates(),
        forall|i: int| 0 <= i < seeds@.len() ==> out@.contains(seeds@[i]),
        forall|k: int|
            0 <= k < out@.len() ==> seeds@.contains(out@[k]) || exists|j: int|
                0 <= j < k && table@[out@[j] as int].parents@.contains(out@[k]),
        forall|k: int, p: usize|
            0 <= k < out@.len() && table@[out@[k] as int].parents@.contains(p) ==> out@.contains(p),
        parents_older(table@) ==> non_increasing(table@, out@),
{
    let mut w = Walker::new(table, seeds);
    let mut out: Vec<usize> = Vec::new();
    proof {
        lemma_count_trues_le(w.emitted@);
    }
    loop
        invariant
            w.valid(table@),
            parents_bounded(table@),
            forall|i: int| 0 <= i < seeds@.len() ==> seeds@[i] < table@.len(),
            count_trues(w.emitted@) <= table@.len(),
            forall|k: int| 0 <= k < out@.len() ==> out@[k] < table@.len(),
            out@.no_duplicates(),
            // the emitted flags match the output stream
            forall|x: usize| x < table@.len() ==> (w.emitted@[x as int] <==> out@.contains(x)),
            // every seed is either already out or still pending
            forall|i: int|
                0 <= i < seeds@.len() ==> out@.contains(seeds@[i]) || w.frontier@.contains(
                    seeds@[i],
                ),
            // provenance of pending entries
            forall|f: usize|
                w.frontier@.contains(f) ==> seeds@.contains(f) || exists|j: int|
                    0 <= j < out@.len() && table@[out@[j] as int].parents@.contains(f),
            // provenance of emitted entries
            forall|k: int|
                0 <= k < out@.len() ==> seeds@.contains(out@[k]) || exists|j: int|
                    0 <= j < k && table@[out@[j] as int].parents@.contains(out@[k]),
            // parents of emitted commits are out or pending
            forall|k: int, p: usize|
                0 <= k < out@.len() && table@[out@[k] as int].parents@.contains(p) ==> out@.contains(
                    p,
                ) || w.frontier@.contains(p),
            // ordering
            parents_older(table@) ==> non_increasing(table@, out@),
            parents_older(table@) ==> (out@.len() > 0 ==> forall|f: usize|
                w.frontier@.contains(f) ==> table@[f as int].time <= table@[
                    out@.last() as int].time),
        ensures
            w.frontier@.len() == 0,
            forall|k: int| 0 <= k < out@.len() ==> out@[k] < table@.len(),
            out@.no_duplicates(),
            forall|i: int|
                0 <= i < seeds@.len() ==> out@.contains(seeds@[i]) || w.frontier@.contains(
                    seeds@[i],
                ),
            forall|k: int|
                0 <= k < out@.len() ==> seeds@.contains(out@[k]) || exists|j: int|
                    0 <= j < k && table@[out@[j] as int].parents@.contains(out@[k]),
            forall|k: int, p: usize|
                0 <= k < out@.len() && table@[out@[k] as int].parents@.contains(p) ==> out@.contains(
                    p,
                ) || w.frontier@.contains(p),
            parents_older(table@) ==> non_increasing(table@, out@),
        decreases table@.len() - count_trues(w.emitted@),
    {
        let ghost prev_emitted = w.emitted@;
        let ghost prev_frontier = w.frontier@;
        let ghost prev_out = out@;
        match w.next(table) {
            None => {
                break;
            },
            Some(c) => {
                proof {
                    lemma_count_trues_update(prev_emitted, c as int);
                    lemma_count_trues_le(w.emitted@);
                }
                out.push(c);
                proof {
                    assert(out@ =~= prev_out.push(c));
                    assert(out@[prev_out.len() as int] == c);
                    assert forall|x: usize| x < table@.len() implies (w.emitted@[x as int]
                        <==> out@.contains(x)) by {
                        if x == c {
                            assert(out@[out@.len() - 1] == c);
                        } else {
                            assert(w.emitted@[x as int] == prev_emitted[x as int]);
                            if prev_out.contains(x) {
                                let i = choose|i: int|
                                    0 <= i < prev_out.len() && prev_out[i] == x;
                                assert(out@[i] == x);
                            }
                            if out@.contains(x) {
                                let i = choose|i: int| 0 <= i < out@.len() && out@[i] == x;
                                assert(i < prev_out.len());
                                assert(prev_out[i] == x);
                            }
                        }
                    }
                    assert(!prev_out.contains(c));
                    assert forall|i: int, j: int|
                        0 <= i < out@.len() && 0 <= j < out@.len() && i != j implies out@[i]
                        != out@[j] by {
                        if i < prev_out.len() && j < prev_out.len() {
                        } else if j == prev_out.len() as int {
                            if out@[i] == c {
                                assert(prev_out[i] == c);
                            }
                        } else if i == prev_out.len() as int {
                            if out@[j] == c {
                                assert(prev_out[j] == c);
                            }
                        }
                    }
                    // provenance of the new entry
                    assert forall|k: int|
                        0 <= k < out@.len() implies seeds@.contains(out@[k]) || exists|j: int|
                        0 <= j < k && table@[out@[j] as int].parents@.contains(out@[k]) by {
                        if k < prev_out.len() {
                            assert(out@[k] == prev_out[k]);
                            if !seeds@.contains(prev_out[k]) {
                                let j = choose|j: int|
                                    0 <= j < k && table@[prev_out[j] as int].parents@.contains(
                                        prev_out[k],
                                    );
                                assert(out@[j] == prev_out[j]);
                                assert(table@[out@[j] as int].parents@.contains(out@[k]));
                            }
                        } else {
                            assert(out@[k] == c);
                            if !seeds@.contains(c) {
                                assert(prev_frontier.contains(c));
                                let j = choose|j: int|
                                    0 <= j < prev_out.len() && table@[
                                        prev_out[j] as int].parents@.contains(c);
                                assert(out@[j] == prev_out[j]);
                                assert(table@[out@[j] as int].parents@.contains(out@[k]));
                            }
                        }
                    }
                    // closure: parents of everything emitted are out or pending
                    assert forall|k: int, p: usize|
                        0 <= k < out@.len() && table@[out@[k] as int].parents@.contains(p)
                            implies out@.contains(p) || w.frontier@.contains(p) by {
                        if k < prev_out.len() {
                            assert(out@[k] == prev_out[k]);
                            assert(table@[prev_out[k] as int].parents@.contains(p));
                            assert(prev_out.contains(p) || prev_frontier.contains(p));
                            if prev_out.contains(p) {
                                let i = choose|i: int|
                                    0 <= i < prev_out.len() && prev_out[i] == p;
                                assert(out@[i] == p);
                            } else {
                                if !w.frontier@.contains(p) {
                                    let i = choose|i: int|
                                        0 <= i < prev_frontier.len() && prev_frontier[i] == p;
                                    assert(p < table@.len());
                                    assert(w.emitted@[p as int]);
                                    assert(out@.contains(p));
                                }
                            }
                        } else {
                            assert(out@[k] == c);
                            assert(table@[c as int].parents@.contains(p));
                            let j = choose|j: int|
                                0 <= j < table@[c as int].parents@.len() && table@[
                                    c as int].parents@[j] == p;
                            assert(w.frontier@.contains(p));
                        }
                    }
                    // seed coverage
                    assert forall|i: int|
                        0 <= i < seeds@.len() implies out@.contains(seeds@[i])
                            || w.frontier@.contains(seeds@[i]) by {
                        let s = seeds@[i];
                        if prev_out.contains(s) {
                            let ii = choose|ii: int| 0 <= ii < prev_out.len() && prev_out[ii] == s;
                            assert(out@[ii] == s);
                        } else if prev_frontier.contains(s) {
                            if !w.frontier@.contains(s) {
                                assert(w.emitted@[s as int]);
                                assert(out@.contains(s));
                            }
                        }
                    }
                    // frontier provenance
                    assert forall|f: usize|
                        w.frontier@.contains(f) implies seeds@.contains(f) || exists|j: int|
                        0 <= j < out@.len() && table@[out@[j] as int].parents@.contains(f) by {
                        if prev_frontier.contains(f) {
                            if !seeds@.contains(f) {
                                let j = choose|j: int|
                                    0 <= j < prev_out.len() && table@[
                                        prev_out[j] as int].parents@.contains(f);
                                assert(out@[j] == prev_out[j]);
                                assert(table@[out@[j] as int].parents@.contains(f));
                            }
                        } else {
                            assert(table@[c as int].parents@.contains(f));
                            assert(out@[out@.len() - 1int] == c);
                            assert(table@[out@[out@.len() - 1int] as int].parents@.contains(f));
                        }
                    }
                    // ordering
                    if parents_older(table@) {
                        if prev_out.len() > 0 {
                            assert(prev_frontier.contains(c));
                            assert(table@[c as int].time <= table@[prev_out.last() as int].time);
                        }
                        assert forall|i: int, j: int|
                            0 <= i <= j < out@.len() implies table@[out@[j] as int].time
                                <= table@[out@[i] as int].time by {
                            if j < prev_out.len() {
                            } else {
                                assert(out@[j] == c);
                                if i < prev_out.len() {
                                    assert(table@[c as int].time <= table@[
                                        prev_out.last() as int].time);
                                    assert(table@[prev_out.last() as int].time <= table@[
                                        prev_out[i] as int].time);
                                }
                            }
                        }
                        assert forall|f: usize| w.frontier@.contains(f) implies table@[
                            f as int].time <= table@[out@.last() as int].time by {
                            assert(out@.last() == c);
                            if table@[c as int].parents@.contains(f) {
                                let j = choose|j: int|
                                    0 <= j < table@[c as int].parents@.len() && table@[
                                        c as int].parents@[j] == f;
                            } else {
                                assert(prev_frontier.contains(f));
                                assert(table@[f as int].time <= table@[c as int].time);
                            }
                        }
                    }
                }
            },
        }
    }
    proof {
        assert forall|i: int| 0 <= i < seeds@.len() implies out@.contains(seeds@[i]) by {}
        assert forall|k: int, p: usize|
            0 <= k < out@.len() && table@[out@[k] as int].parents@.contains(p) implies out@.contains(
            p,
        ) by {}
    }
    out
}

/// A commit is reachable from the seeds within `n` parent steps: it is a
/// seed itself, or a parent of a commit reachable within `n - 1` steps.
pub open spec fn reachable_within(
    t: Seq<CommitEntry>,
    seeds: Seq<usize>,
    c: usize,
    n: nat,
) -> bool
    decreases n,
{
    seeds.contains(c) || (n > 0 && exists|d: usize|
        reachable_within(t, seeds, d, (n - 1) as nat) && d < t.len()
            && #[trigger] t[d as int].parents@.contains(c))
}

/// A commit reachable from the seeded heads — also one reachable along
/// several separate, converging paths — stands in the emitted stream at
/// exactly one position. The premises are what [`walk`] ensures of its
/// output.
pub proof fn lemma_emitted_exactly_once(
    t: Seq<CommitEntry>,
    seeds: Seq<usize>,
    out: Seq<usize>,
    c: usize,
    n: nat,
)
    requires
        out.no_duplicates(),
        forall|i: int| 0 <= i < seeds.len() ==> out.contains(seeds[i]),
        forall|k: int, p: usize|
            0 <= k < out.len() && t[out[k] as int].parents@.contains(p) ==> out.contains(p),
        reachable_within(t, seeds, c, n),
    ensures
        out.contains(c),
        forall|i: int, j: int|
            0 <= i < out.len() && 0 <= j < out.len() && out[i] == c && out[j] == c ==> i == j,
    decreases n,
{
    if seeds.contains(c) {
        let i = choose|i: int| 0 <= i < seeds.len() && seeds[i] == c;
        assert(out.contains(seeds[i]));
    } else {
        let d = choose|d: usize|
            reachable_within(t, seeds, d, (n - 1) as nat) && d < t.len() && #[trigger] t[
                d as int].parents@.contains(c);
        lemma_emitted_exactly_once(t, seeds, out, d, (n - 1) as nat);
        let k = choose|k: int| 0 <= k < out.len() && out[k] == d;
        assert(t[out[k] as int].parents@.contains(c));
    }
}

} // verus!
