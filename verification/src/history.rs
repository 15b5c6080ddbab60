//! The consumer side of the merged commit stream: message and author
//! pattern filters, the cross-repository pathspec filter, and pagination.
//!
//! All filters are pure: they select entries of the emitted stream and never
//! change the walker's state or the entries themselves.

use vstd::prelude::*;

verus! {

use crate::model::{CommitEntry, Error, RepoInfo};
use crate::pathspec::{
    changes_paths_valid, changes_view, commit_matches_pathspec, pathspec_ok, pathspec_usable,
    patterns_view, spec_commit_matches,
};
use crate::walker::non_increasing;

/// Whether the pattern compiles as a regular expression.
pub uninterp spec fn regex_ok(pattern: Seq<char>) -> bool;

/// The answer of the regular-expression engine for a pattern and a text.
pub uninterp spec fn regex_accepts(pattern: Seq<char>, text: Seq<char>) -> bool;

/// Relies on `regex::Regex::new` and `regex::Regex::is_match`: compilation
/// and matching depend on the pattern and the text alone. `None` reports
/// that the pattern does not compile.
#[verifier::external_body]
fn regex_query(pattern: &str, text: &str) -> (r: Option<bool>)
    ensures
        r is Some <==> regex_ok(pattern@),
        r is Some ==> r->0 == regex_accepts(pattern@, text@),
{
    match regex::Regex::new(pattern) {
        Ok(re) => Some(re.is_match(text)),
        Err(_) => None,
    }
}

/// Checks whether a pattern compiles as a regular expression.
pub fn regex_usable(pattern: &str) -> (r: bool)
    ensures
        r == regex_ok(pattern@),
{
    regex_query(pattern, "").is_some()
}

/// The caller's history filters: an optional message pattern, an optional
/// author pattern, an optional pathspec, and the page window.
pub struct HistoryFilter {
    pub grep: Option<String>,
    pub author: Option<String>,
    pub patterns: Option<Vec<String>>,
    pub start: usize,
    pub num: Option<usize>,
}

/// All three optional filter expressions are ones their engines accept.
pub open spec fn filter_usable(f: HistoryFilter) -> bool {
    &&& match f.grep {
        Some(g) => regex_ok(g@),
        None => true,
    }
    &&& match f.author {
        Some(a) => regex_ok(a@),
        None => true,
    }
    &&& match f.patterns {
        Some(ps) => pathspec_ok(patterns_view(ps@)),
        None => true,
    }
}

/// One or both regular-expression patterns are refused by their engine.
pub open spec fn regex_refused(f: HistoryFilter) -> bool {
    ||| match f.grep {
        Some(g) => !regex_ok(g@),
        None => false,
    }
    ||| match f.author {
        Some(a) => !regex_ok(a@),
        None => false,
    }
}

/// A commit of the stream passes every given filter.
pub open spec fn spec_passes(
    t: Seq<CommitEntry>,
    repos: Seq<RepoInfo>,
    f: HistoryFilter,
    c: usize,
) -> bool {
    &&& match f.grep {
        Some(g) => regex_accepts(g@, t[c as int].message@),
        None => true,
    }
    &&& match f.author {
        Some(a) => regex_accepts(a@, t[c as int].author@),
        None => true,
    }
    &&& match f.patterns {
        Some(ps) => spec_commit_matches(
            patterns_view(ps@),
            repos[t[c as int].repo as int].mount@,
            changes_view(t[c as int].changes@),
        ),
        None => true,
    }
}

/// Every stream entry is a table index, its repository is a table row, and,
/// where a pathspec is given, every rewritten changed path is one the
/// matching engine takes.
pub open spec fn stream_wf(
    t: Seq<CommitEntry>,
    repos: Seq<RepoInfo>,
    f: HistoryFilter,
    stream: Seq<usize>,
) -> bool {
    &&& forall|k: int| 0 <= k < stream.len() ==> stream[k] < t.len()
    &&& forall|k: int|
        0 <= k < stream.len() ==> (#[trigger] t[stream[k] as int].repo) < repos.len()
    &&& f.patterns is Some ==> forall|k: int|
        0 <= k < stream.len() ==> changes_paths_valid(
            repos[(#[trigger] t[stream[k] as int]).repo as int].mount@,
            changes_view(t[stream[k] as int].changes@),
        )
}

/// Selects from the emitted stream the commits that pass every filter,
/// keeping their order. The pattern expressions are validated first: a
/// regular expression that does not compile reports `InvalidRegex`, then a
/// refused pathspec reports `InvalidPathspec`.
pub fn filter_history(
    table: &Vec<CommitEntry>,
    repos: &Vec<RepoInfo>,
    stream: &Vec<usize>,
    f: &HistoryFilter,
) -> (r: Result<Vec<usize>, Error>)
    requires
        stream_wf(table@, repos@, *f, stream@),
    ensures
        match r {
            Ok(v) => filter_usable(*f) && v@ == stream@.filter(
                |c: usize| spec_passes(table@, repos@, *f, c),
            ),
            Err(e) => !filter_usable(*f),
        },
        regex_refused(*f) ==> r == Err::<Vec<usize>, Error>(Error::InvalidRegex),
        !regex_refused(*f) && !filter_usable(*f) ==> r == Err::<Vec<usize>, Error>(
            Error::InvalidPathspec,
        ),
{
    if let Some(g) = &f.grep {
        if !regex_usable(g.as_str()) {
            return Err(Error::InvalidRegex);
        }
    }
    if let Some(a) = &f.author {
        if !regex_usable(a.as_str()) {
            return Err(Error::InvalidRegex);
        }
    }
    if let Some(ps) = &f.patterns {
        if !pathspec_usable(ps) {
            return Err(Error::InvalidPathspec);
        }
    }
    let ghost pred = |c: usize| spec_passes(table@, repos@, *f, c);
    let n = stream.len();
    let mut out: Vec<usize> = Vec::new();
    proof {
        assert(stream@.subrange(0, 0int).filter(pred) =~= Seq::<usize>::empty());
    }
    let mut k: usize = 0;
    while k < n
        invariant
            stream_wf(table@, repos@, *f, stream@),
            filter_usable(*f),
            n == stream@.len(),
            k <= n,
            pred == (|c: usize| spec_passes(table@, repos@, *f, c)),
            out@ == stream@.subrange(0, k as int).filter(pred),
        decreases n - k,
    {
        let c = stream[k];
        let mut keep = true;
        if let Some(g) = &f.grep {
            let hit = regex_query(g.as_str(), table[c].message.as_str()).unwrap();
            if !hit {
                keep = false;
            }
        }
        if keep {
            if let Some(a) = &f.author {
                let hit = regex_query(a.as_str(), table[c].author.as_str()).unwrap();
                if !hit {
                    keep = false;
                }
            }
        }
        if keep {
            if let Some(ps) = &f.patterns {
                let repo = table[c].repo;
                let hit = commit_matches_pathspec(
                    ps,
                    repos[repo].mount.as_str(),
                    &table[c].changes,
                );
                if !hit {
                    keep = false;
                }
            }
        }
        proof {
            assert(keep == pred(c));
            assert(stream@.subrange(0, k + 1int) =~= stream@.subrange(0, k as int).push(c));
            stream@.subrange(0, k as int).lemma_filter_push(c, pred);
        }
        if keep {
            out.push(c);
        }
        k = k + 1;
    }
    proof {
        assert(stream@.subrange(0, n as int) =~= stream@);
    }
    Ok(out)
}

/// The page window: drop the first `start` entries, then keep at most `num`,
/// both saturating at the end of the stream.
pub open spec fn spec_page(s: Seq<usize>, start: int, num: Option<usize>) -> Seq<usize> {
    let lo = if start <= s.len() {
        start
    } else {
        s.len() as int
    };
    let hi = match num {
        Some(n) => if lo + n <= s.len() {
            lo + n
        } else {
            s.len() as int
        },
        None => s.len() as int,
    };
    s.subrange(lo, hi)
}

/// Cuts the page out of a stream: entries at ranks `start + 1` up to
/// `start + num`, counted from the newest.
pub fn paginate(stream: &Vec<usize>, start: usize, num: Option<usize>) -> (r: Vec<usize>)
    ensures
        r@ == spec_page(stream@, start as int, num),
{
    let n = stream.len();
    let lo = if start <= n {
        start
    } else {
        n
    };
    let hi = match num {
        Some(m) => if m <= n - lo {
            lo + m
        } else {
            n
        },
        None => n,
    };
    let mut out: Vec<usize> = Vec::new();
    let mut k: usize = lo;
    proof {
        assert(stream@.subrange(lo as int, lo as int) =~= Seq::<usize>::empty());
    }
    while k < hi
        invariant
            lo <= k <= hi <= n,
            n == stream@.len(),
            out@ == stream@.subrange(lo as int, k as int),
        decreases hi - k,
    {
        out.push(stream[k]);
        proof {
            assert(stream@.subrange(lo as int, k + 1int) =~= stream@.subrange(
                lo as int,
                k as int,
            ).push(stream@[k as int]));
        }
        k = k + 1;
    }
    proof {
        assert(out@ =~= spec_page(stream@, start as int, num));
    }
    out
}

/// Filtering a stream keeps its order: the timestamps of a filtered
/// non-increasing stream are again non-increasing.
pub proof fn lemma_filter_keeps_order(
    t: Seq<CommitEntry>,
    s: Seq<usize>,
    pred: spec_fn(usize) -> bool,
)
    requires
        non_increasing(t, s),
    ensures
        non_increasing(t, s.filter(pred)),
    decreases s.len(),
{
    reveal(Seq::filter);
    if s.len() > 0 {
        let dl = s.drop_last();
        assert(non_increasing(t, dl));
        lemma_filter_keeps_order(t, dl, pred);
        let fdl = dl.filter(pred);
        if pred(s.last()) {
            assert(s.filter(pred) == fdl.push(s.last()));
            assert forall|i: int, j: int|
                0 <= i <= j < s.filter(pred).len() implies t[s.filter(pred)[j] as int].time
                <= t[s.filter(pred)[i] as int].time by {
                if j < fdl.len() {
                } else {
                    assert(s.filter(pred)[j] == s.last());
                    if i < fdl.len() {
                        dl.lemma_filter_contains_rev(pred, fdl[i]);
                        let m = choose|m: int| 0 <= m < dl.len() && dl[m] == fdl[i];
                        assert(s[m] == fdl[i]);
                        assert(t[s.last() as int].time <= t[s[m] as int].time);
                    }
                }
            }
        }
    }
}

/// Filtering a stream introduces no repetition: a filtered stream without
/// duplicates stays without duplicates.
pub proof fn lemma_filter_keeps_no_dup(s: Seq<usize>, pred: spec_fn(usize) -> bool)
    requires
        s.no_duplicates(),
    ensures
        s.filter(pred).no_duplicates(),
    decreases s.len(),
{
    reveal(Seq::filter);
    if s.len() > 0 {
        let dl = s.drop_last();
        lemma_filter_keeps_no_dup(dl, pred);
        let fdl = dl.filter(pred);
        if pred(s.last()) {
            assert(!dl.contains(s.last())) by {
                if dl.contains(s.last()) {
                    let m = choose|m: int| 0 <= m < dl.len() && dl[m] == s.last();
                    assert(s[m] == s[s.len() - 1]);
                }
            }
            assert(!fdl.contains(s.last())) by {
                if fdl.contains(s.last()) {
                    dl.lemma_filter_contains_rev(pred, s.last());
                }
            }
            assert(s.filter(pred) == fdl.push(s.last()));
            assert forall|i: int, j: int|
                0 <= i < s.filter(pred).len() && 0 <= j < s.filter(pred).len() && i != j
                    implies s.filter(pred)[i] != s.filter(pred)[j] by {
                if i < fdl.len() && j < fdl.len() {
                } else if j == fdl.len() as int {
                    if s.filter(pred)[i] == s.last() {
                        assert(fdl.contains(s.last()));
                    }
                } else if i == fdl.len() as int {
                    if s.filter(pred)[j] == s.last() {
                        assert(fdl.contains(s.last()));
                    }
                }
            }
        }
    }
}

/// A page keeps the order of its stream.
pub proof fn lemma_page_keeps_order(
    t: Seq<CommitEntry>,
    s: Seq<usize>,
    start: int,
    num: Option<usize>,
)
    requires
        0 <= start,
        non_increasing(t, s),
    ensures
        non_increasing(t, spec_page(s, start, num)),
{
    let p = spec_page(s, start, num);
    assert forall|i: int, j: int| 0 <= i <= j < p.len() implies t[p[j] as int].time <= t[
        p[i] as int].time by {
        let lo = if start <= s.len() {
            start
        } else {
            s.len() as int
        };
        assert(p[i] == s[lo + i]);
        assert(p[j] == s[lo + j]);
    }
}

/// One history query over an already-merged stream: validate and apply the
/// filters, then cut the requested page. The result is the page
/// `[start, start + num)` of the filtered stream; its timestamps are
/// non-increasing whenever the stream's are, and it repeats no entry the
/// stream does not repeat.
pub fn history_page(
    table: &Vec<CommitEntry>,
    repos: &Vec<RepoInfo>,
    stream: &Vec<usize>,
    f: &HistoryFilter,
) -> (r: Result<Vec<usize>, Error>)
    requires
        stream_wf(table@, repos@, *f, stream@),
    ensures
        match r {
            Ok(v) => {
                &&& filter_usable(*f)
                &&& v@ == spec_page(
                    stream@.filter(|c: usize| spec_passes(table@, repos@, *f, c)),
                    f.start as int,
                    f.num,
                )
                &&& non_increasing(table@, stream@) ==> non_increasing(table@, v@)
                &&& stream@.no_duplicates() ==> v@.no_duplicates()
            },
            Err(e) => !filter_usable(*f),
        },
        regex_refused(*f) ==> r == Err::<Vec<usize>, Error>(Error::InvalidRegex),
        !regex_refused(*f) && !filter_usable(*f) ==> r == Err::<Vec<usize>, Error>(
            Error::InvalidPathspec,
        ),
{
    let filtered = match filter_history(table, repos, stream, f) {
        Ok(v) => v,
        Err(e) => {
            return Err(e);
        },
    };
    let page = paginate(&filtered, f.start, f.num);
    proof {
        let ghost pred = |c: usize| spec_passes(table@, repos@, *f, c);
        if non_increasing(table@, stream@) {
            lemma_filter_keeps_order(table@, stream@, pred);
            lemma_page_keeps_order(table@, filtered@, f.start as int, f.num);
        }
        if stream@.no_duplicates() {
            lemma_filter_keeps_no_dup(stream@, pred);
            assert forall|i: int, j: int|
                0 <= i < page@.len() && 0 <= j < page@.len() && i != j implies page@[i]
                != page@[j] by {
            }
        }
    }
    Ok(page)
}

} // verus!
