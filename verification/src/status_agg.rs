//! The status aggregator: a recursive, per-repository computation of
//! dirty and drifted state over the forest.
//!
//! Each repository node carries its own staged (index) and unstaged
//! (worktree) entry sets — never its children's — plus its operational state
//! and its checked-out commit against the pin its parent records. A node is
//! reported iff the caller asked for every repository, a filtered entry set
//! is non-empty, the operational state is not clean, or the head drifted
//! from the pin. Whether or not a node is reported, aggregation descends
//! into every child, so drift is detected per level.

use vstd::prelude::*;

verus! {

use crate::filter::{classify, DiffFilter, StatusFlags};

/// One raw status entry of one repository: its flag set and its path; for a
/// rename, the old and the new path are carried separately.
#[derive(Debug)]
pub struct StatusItem {
    pub flags: StatusFlags,
    pub path: String,
    pub old_path: String,
    pub new_path: String,
}

/// The mathematical picture of a status entry.
pub ghost struct StatusItemV {
    pub flags: StatusFlags,
    pub path: Seq<char>,
    pub old_path: Seq<char>,
    pub new_path: Seq<char>,
}

impl View for StatusItem {
    type V = StatusItemV;

    open spec fn view(&self) -> StatusItemV {
        StatusItemV {
            flags: self.flags,
            path: self.path@,
            old_path: self.old_path@,
            new_path: self.new_path@,
        }
    }
}

/// One repository of the forest, as the aggregator sees it: display name,
/// checked-out head, the pin its parent records (the head itself at the
/// root), operational state, its own index and worktree entries, and its
/// child repositories.
#[derive(Debug)]
pub struct RepoStatusNode {
    pub name: String,
    pub head_id: u64,
    pub pinned_id: u64,
    pub state_clean: bool,
    pub state_label: String,
    pub index_entries: Vec<StatusItem>,
    pub worktree_entries: Vec<StatusItem>,
    pub children: Vec<RepoStatusNode>,
}

/// Which of the two entry sets the caller asked to see.
#[derive(Clone, Copy, PartialEq, Eq, Structural, Debug)]
pub enum ShowOption {
    Index,
    WorkTree,
    Both,
}

/// The caller's status request: which sets to show, the category filter,
/// and whether every repository is reported regardless of its state.
#[derive(Clone, Copy, PartialEq, Eq, Structural, Debug)]
pub struct StatusQuery {
    pub show_option: ShowOption,
    pub diff_filter: DiffFilter,
    pub all: bool,
}

/// One reported block: the repository's identity and state, the drift
/// verdict, and the entries that survived the category filter.
#[derive(Debug)]
pub struct RepoReport {
    pub name: String,
    pub head_id: u64,
    pub pinned_id: u64,
    pub drifted: bool,
    pub state_clean: bool,
    pub state_label: String,
    pub index_kept: Vec<StatusItem>,
    pub worktree_kept: Vec<StatusItem>,
}

/// The mathematical picture of a reported block.
pub ghost struct RepoReportV {
    pub name: Seq<char>,
    pub head_id: u64,
    pub pinned_id: u64,
    pub drifted: bool,
    pub state_clean: bool,
    pub state_label: Seq<char>,
    pub index_kept: Seq<StatusItemV>,
    pub worktree_kept: Seq<StatusItemV>,
}

impl View for RepoReport {
    type V = RepoReportV;

    open spec fn view(&self) -> RepoReportV {
        RepoReportV {
            name: self.name@,
            head_id: self.head_id,
            pinned_id: self.pinned_id,
            drifted: self.drifted,
            state_clean: self.state_clean,
            state_label: self.state_label@,
            index_kept: self.index_kept@.map_values(|it: StatusItem| it@),
            worktree_kept: self.worktree_kept@.map_values(|it: StatusItem| it@),
        }
    }
}

/// The views of a vector of entries.
pub open spec fn items_view(items: Seq<StatusItem>) -> Seq<StatusItemV> {
    items.map_values(|it: StatusItem| it@)
}

/// The views of a vector of reports.
pub open spec fn reports_view(reports: Seq<RepoReport>) -> Seq<RepoReportV> {
    reports.map_values(|r: RepoReport| r@)
}

/// The entries of one set that pass the category filter.
pub open spec fn spec_kept(entries: Seq<StatusItemV>, df: DiffFilter) -> Seq<StatusItemV> {
    entries.filter(|it: StatusItemV| df.allows(classify(it.flags)))
}

/// The staged entries the query keeps: none when only the worktree is shown.
pub open spec fn spec_index_kept(node: RepoStatusNode, q: StatusQuery) -> Seq<StatusItemV> {
    if q.show_option is WorkTree {
        Seq::empty()
    } else {
        spec_kept(items_view(node.index_entries@), q.diff_filter)
    }
}

/// The worktree entries the query keeps: none when only the index is shown.
pub open spec fn spec_worktree_kept(node: RepoStatusNode, q: StatusQuery) -> Seq<StatusItemV> {
    if q.show_option is Index {
        Seq::empty()
    } else {
        spec_kept(items_view(node.worktree_entries@), q.diff_filter)
    }
}

/// Whether a repository's own block is reported.
pub open spec fn spec_selected(node: RepoStatusNode, q: StatusQuery) -> bool {
    ||| q.all
    ||| spec_index_kept(node, q).len() > 0
    ||| spec_worktree_kept(node, q).len() > 0
    ||| !node.state_clean
    ||| node.head_id != node.pinned_id
}

/// The block reported for one repository.
pub open spec fn spec_block(node: RepoStatusNode, q: StatusQuery) -> RepoReportV {
    RepoReportV {
        name: node.name@,
        head_id: node.head_id,
        pinned_id: node.pinned_id,
        drifted: node.head_id != node.pinned_id,
        state_clean: node.state_clean,
        state_label: node.state_label@,
        index_kept: spec_index_kept(node, q),
        worktree_kept: spec_worktree_kept(node, q),
    }
}

/// Every block of a repository's subtree, in order: its own block when it is
/// selected, then each child's subtree in turn.
pub open spec fn spec_subtree_reports(node: RepoStatusNode, q: StatusQuery) -> Seq<RepoReportV>
    decreases node, node.children@.len() + 1int,
{
    let own: Seq<RepoReportV> = if spec_selected(node, q) {
        seq![spec_block(node, q)]
    } else {
        Seq::empty()
    };
    own + spec_children_reports(node, q, 0)
}

/// The blocks of the subtrees of `node.children[i..]`.
pub open spec fn spec_children_reports(node: RepoStatusNode, q: StatusQuery, i: int) -> Seq<
    RepoReportV,
>
    decreases node, node.children@.len() - i,
{
    if 0 <= i < node.children@.len() {
        spec_subtree_reports(node.children@[i], q) + spec_children_reports(node, q, i + 1)
    } else {
        Seq::empty()
    }
}

/// An unselected repository contributes no block of its own, yet its
/// children are still aggregated: its subtree's reports are exactly its
/// children's.
pub proof fn lemma_unselected_subtree_reports(node: RepoStatusNode, q: StatusQuery)
    requires
        !spec_selected(node, q),
    ensures
        spec_subtree_reports(node, q) =~= spec_children_reports(node, q, 0),
{
}

/// Head drift alone selects a repository, whatever its entry sets hold: its
/// own block comes first in its subtree's reports and records the drift.
pub proof fn lemma_drift_is_reported(node: RepoStatusNode, q: StatusQuery)
    requires
        node.head_id != node.pinned_id,
    ensures
        spec_subtree_reports(node, q).len() > 0,
        spec_subtree_reports(node, q)[0] == spec_block(node, q),
        spec_subtree_reports(node, q)[0].drifted,
{
}

/// A field-for-field copy of one entry.
fn copy_item(it: &StatusItem) -> (r: StatusItem)
    ensures
        r@ == it@,
{
    StatusItem {
        flags: it.flags,
        path: it.path.clone(),
        old_path: it.old_path.clone(),
        new_path: it.new_path.clone(),
    }
}

/// Copies the entries of one set that pass the category filter.
fn keep_filtered(entries: &Vec<StatusItem>, df: &DiffFilter) -> (r: Vec<StatusItem>)
    ensures
        items_view(r@) == spec_kept(items_view(entries@), *df),
{
    let ghost pred = |it: StatusItemV| df.allows(classify(it.flags));
    let mut out: Vec<StatusItem> = Vec::new();
    let n = entries.len();
    let mut i: usize = 0;
    proof {
        assert(items_view(entries@.subrange(0, 0int)).filter(pred) =~= Seq::<
            StatusItemV,
        >::empty());
        assert(items_view(out@) =~= Seq::<StatusItemV>::empty());
    }
    while i < n
        invariant
            n == entries@.len(),
            i <= n,
            pred == (|it: StatusItemV| df.allows(classify(it.flags))),
            items_view(out@) == items_view(entries@.subrange(0, i as int)).filter(pred),
        decreases n - i,
    {
        let keep = df.test(&entries[i].flags);
        let ghost prev = out@;
        if keep {
            let c = copy_item(&entries[i]);
            out.push(c);
            proof {
                assert(items_view(out@) =~= items_view(prev).push(entries@[i as int]@));
            }
        }
        proof {
            assert(entries@.subrange(0, i + 1int) =~= entries@.subrange(0, i as int).push(
                entries@[i as int],
            ));
            assert(items_view(entries@.subrange(0, i + 1int)) =~= items_view(
                entries@.subrange(0, i as int),
            ).push(entries@[i as int]@));
            items_view(entries@.subrange(0, i as int)).lemma_filter_push(
                entries@[i as int]@,
                pred,
            );
        }
        i = i + 1;
    }
    proof {
        assert(entries@.subrange(0, n as int) =~= entries@);
    }
    out
}

/// Aggregates one repository's subtree: appends its reports, in order, to
/// `out`. Whether or not the node itself is reported, every child subtree is
/// aggregated after it.
pub fn aggregate_status(node: &RepoStatusNode, q: &StatusQuery, out: &mut Vec<RepoReport>)
    ensures
        reports_view(final(out)@) == reports_view(old(out)@) + spec_subtree_reports(*node, *q),
    decreases *node,
{
    let index_kept: Vec<StatusItem> = match q.show_option {
        ShowOption::WorkTree => Vec::new(),
        _ => keep_filtered(&node.index_entries, &q.diff_filter),
    };
    let worktree_kept: Vec<StatusItem> = match q.show_option {
        ShowOption::Index => Vec::new(),
        _ => keep_filtered(&node.worktree_entries, &q.diff_filter),
    };
    proof {
        assert(items_view(index_kept@) == spec_index_kept(*node, *q));
        assert(items_view(worktree_kept@) == spec_worktree_kept(*node, *q));
    }
    let selected = q.all || index_kept.len() > 0 || worktree_kept.len() > 0 || !node.state_clean
        || node.head_id != node.pinned_id;
    proof {
        assert(selected == spec_selected(*node, *q));
    }
    let ghost base = out@;
    if selected {
        let report = RepoReport {
            name: node.name.clone(),
            head_id: node.head_id,
            pinned_id: node.pinned_id,
            drifted: node.head_id != node.pinned_id,
            state_clean: node.state_clean,
            state_label: node.state_label.clone(),
            index_kept,
            worktree_kept,
        };
        out.push(report);
        proof {
            assert(reports_view(out@) =~= reports_view(base) + seq![spec_block(*node, *q)]);
        }
    }
    let ghost after_own = out@;
    let n = node.children.len();
    let mut i: usize = 0;
    proof {
        assert(reports_view(out@) + spec_children_reports(*node, *q, 0int) =~= reports_view(
            after_own,
        ) + spec_children_reports(*node, *q, 0int));
    }
    while i < n
        invariant
            n == node.children@.len(),
            i <= n,
            reports_view(out@) + spec_children_reports(*node, *q, i as int) == reports_view(
                after_own,
            ) + spec_children_reports(*node, *q, 0int),
        decreases n - i,
    {
        let ghost before = out@;
        aggregate_status(&node.children[i], q, out);
        proof {
            assert(spec_children_reports(*node, *q, i as int) =~= spec_subtree_reports(
                node.children@[i as int],
                *q,
            ) + spec_children_reports(*node, *q, i + 1int));
            assert(reports_view(out@) =~= reports_view(before) + spec_subtree_reports(
                node.children@[i as int],
                *q,
            ));
            assert(reports_view(out@) + spec_children_reports(*node, *q, i + 1int)
                =~= reports_view(before) + spec_children_reports(*node, *q, i as int));
        }
        i = i + 1;
    }
    proof {
        assert(spec_children_reports(*node, *q, n as int) =~= Seq::<RepoReportV>::empty());
        assert(reports_view(out@) =~= reports_view(after_own) + spec_children_reports(
            *node,
            *q,
            0int,
        ));
        assert(reports_view(out@) =~= reports_view(base) + spec_subtree_reports(*node, *q));
    }
}

} // verus!
