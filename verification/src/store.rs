//! In-memory store for runs, splits, snapshots and records.
//!
//! The persistence layer proper — a relational database on disk — is a
//! collaborator outside this crate. The store here holds the same tables as
//! plain vectors and carries the query and update rules: which rows a
//! filter selects, how listings are ordered, how statistics are computed,
//! and when a personal best or gold split is superseded. Row identifiers
//! are assigned by the store and are unique per table.
//!
//! Elapsed times handed to the store are non-negative; identifiers grow by
//! one per insert.

use vstd::prelude::*;
use vstd::multiset::Multiset;
use crate::text::{collect_chars, str_eq};

verus! {

broadcast use vstd::seq_lib::group_to_multiset_ensures;

/// A recorded play-through.
#[derive(Debug, Clone, PartialEq)]
pub struct Run {
    pub id: i64,
    pub character_name: String,
    pub account_name: String,
    pub class: String,
    pub ascendancy: Option<String>,
    pub league: String,
    pub category: String,
    pub started_at: String,
    pub ended_at: Option<String>,
    pub total_time_ms: Option<i64>,
    pub is_completed: bool,
    pub is_personal_best: bool,
    pub breakpoint_preset: Option<String>,
    pub enabled_breakpoints: Option<String>,
    pub is_reference: bool,
    pub source_name: Option<String>,
}

/// Fields of a run to be created.
#[derive(Debug, Clone)]
pub struct NewRun {
    pub character_name: String,
    pub account_name: String,
    pub class: String,
    pub ascendancy: Option<String>,
    pub league: String,
    pub category: String,
    pub started_at: String,
    pub breakpoint_preset: Option<String>,
    pub enabled_breakpoints: Option<String>,
}

/// Criteria for selecting runs; a field of `None` does not constrain.
/// Reference runs are excluded unless `include_reference` is `Some(true)`.
#[derive(Debug, Clone)]
pub struct RunFilters {
    pub class: Option<String>,
    pub ascendancy: Option<String>,
    pub category: Option<String>,
    pub league: Option<String>,
    pub breakpoint_preset: Option<String>,
    pub is_completed: Option<bool>,
    pub include_reference: Option<bool>,
}

impl Default for RunFilters {
    /// The empty filter: selects every non-reference run.
    fn default() -> (r: RunFilters)
        ensures
            r.class is None,
            r.ascendancy is None,
            r.category is None,
            r.league is None,
            r.breakpoint_preset is None,
            r.is_completed is None,
            r.include_reference is None,
    {
        RunFilters {
            class: None,
            ascendancy: None,
            category: None,
            league: None,
            breakpoint_preset: None,
            is_completed: None,
            include_reference: None,
        }
    }
}

/// Aggregate statistics over a set of runs.
#[derive(Debug, Clone)]
pub struct RunStats {
    pub total_runs: i64,
    pub completed_runs: i64,
    pub average_time_ms: Option<i64>,
    pub best_time_ms: Option<i64>,
}

/// A split recorded at a breakpoint within a run.
#[derive(Debug, Clone)]
pub struct Split {
    pub id: i64,
    pub run_id: i64,
    pub breakpoint_type: String,
    pub breakpoint_name: String,
    pub split_time_ms: i64,
    pub delta_ms: Option<i64>,
    pub segment_time_ms: i64,
    pub town_time_ms: i64,
    pub hideout_time_ms: i64,
}

/// Fields of a split to be created.
#[derive(Debug, Clone)]
pub struct NewSplit {
    pub run_id: i64,
    pub breakpoint_type: String,
    pub breakpoint_name: String,
    pub split_time_ms: i64,
    pub delta_ms: Option<i64>,
    pub segment_time_ms: i64,
    pub town_time_ms: i64,
    pub hideout_time_ms: i64,
}

/// Per-breakpoint statistics across runs.
#[derive(Debug, Clone)]
pub struct SplitStat {
    pub breakpoint_name: String,
    pub average_time_ms: i64,
    pub best_time_ms: i64,
    pub average_town_time_ms: i64,
    pub run_count: i64,
}

/// A character snapshot captured at a split.
#[derive(Debug, Clone)]
pub struct Snapshot {
    pub id: i64,
    pub run_id: i64,
    pub split_id: i64,
    pub timestamp: String,
    pub elapsed_time_ms: i64,
    pub character_level: i32,
    pub items_json: String,
    pub skills_json: String,
    pub passive_tree_json: String,
    pub stats_json: String,
    pub pob_code: Option<String>,
}

/// Fields of a snapshot to be created.
#[derive(Debug, Clone)]
pub struct NewSnapshot {
    pub run_id: i64,
    pub split_id: i64,
    pub timestamp: String,
    pub elapsed_time_ms: i64,
    pub character_level: i32,
    pub items_json: String,
    pub skills_json: String,
    pub passive_tree_json: String,
    pub stats_json: String,
    pub pob_code: Option<String>,
}

/// The best completed time for a category and class.
#[derive(Debug, Clone)]
pub struct PersonalBest {
    pub id: i64,
    pub category: String,
    pub class: String,
    pub run_id: i64,
    pub total_time_ms: i64,
}

/// The best segment time ever recorded at a breakpoint of a category.
#[derive(Debug, Clone)]
pub struct GoldSplit {
    pub id: i64,
    pub category: String,
    pub breakpoint_name: String,
    pub best_segment_ms: i64,
}

/// An external reference run with its split times, to be imported whole.
#[derive(Debug, Clone)]
pub struct ReferenceRunData {
    pub source_name: String,
    pub character_name: Option<String>,
    pub class: String,
    pub ascendancy: Option<String>,
    pub category: String,
    pub league: Option<String>,
    pub breakpoint_preset: Option<String>,
    pub enabled_breakpoints: Option<String>,
    pub total_time_ms: i64,
    pub splits: Vec<ReferenceSplitData>,
}

/// One split of a reference run.
#[derive(Debug, Clone)]
pub struct ReferenceSplitData {
    pub breakpoint_name: String,
    pub breakpoint_type: String,
    pub split_time_ms: i64,
}

/// The store: one vector per table, and the next identifier of each.
pub struct Store {
    pub runs: Vec<Run>,
    pub splits: Vec<Split>,
    pub snapshots: Vec<Snapshot>,
    pub personal_bests: Vec<PersonalBest>,
    pub gold_splits: Vec<GoldSplit>,
    pub next_run_id: i64,
    pub next_split_id: i64,
    pub next_snapshot_id: i64,
    pub next_pb_id: i64,
    pub next_gold_id: i64,
}

// ---------------------------------------------------------------------------
// Ordering of timestamps (lexicographic on characters)
// ---------------------------------------------------------------------------

/// Lexicographic order on character sequences; total and reflexive.
pub open spec fn lex_le(a: Seq<char>, b: Seq<char>) -> bool
    decreases a.len(),
{
    if a.len() == 0 {
        true
    } else if b.len() == 0 {
        false
    } else if a[0] != b[0] {
        a[0] < b[0]
    } else {
        lex_le(a.drop_first(), b.drop_first())
    }
}

/// Totality: any two sequences compare one way or the other.
pub proof fn lemma_lex_total(a: Seq<char>, b: Seq<char>)
    ensures
        lex_le(a, b) || lex_le(b, a),
    decreases a.len(),
{
    if a.len() > 0 && b.len() > 0 && a[0] == b[0] {
        lemma_lex_total(a.drop_first(), b.drop_first());
    }
}

/// Reflexivity: every sequence compares at or below itself.
pub proof fn lemma_lex_refl(a: Seq<char>)
    ensures
        lex_le(a, a),
    decreases a.len(),
{
    if a.len() > 0 {
        lemma_lex_refl(a.drop_first());
    }
}

/// Lexicographic comparison of two strings.
pub fn str_le(a: &str, b: &str) -> (r: bool)
    ensures
        r == lex_le(a@, b@),
{
    let av = collect_chars(a);
    let bv = collect_chars(b);
    let an = av.len();
    let bn = bv.len();
    let mut i: usize = 0;
    proof {
        assert(a@.skip(0) =~= a@);
        assert(b@.skip(0) =~= b@);
    }
    loop
        invariant
            an == a@.len(),
            bn == b@.len(),
            i <= an,
            i <= bn,
            av@ == a@,
            bv@ == b@,
            lex_le(a@, b@) == lex_le(a@.skip(i as int), b@.skip(i as int)),
        decreases an - i,
    {
        proof {
            if i < an && i < bn {
                assert(a@.skip(i as int)[0] == a@[i as int]);
                assert(b@.skip(i as int)[0] == b@[i as int]);
                assert(a@.skip(i as int).drop_first() =~= a@.skip(i + 1));
                assert(b@.skip(i as int).drop_first() =~= b@.skip(i + 1));
            }
        }
        if i >= an {
            return true;
        }
        if i >= bn {
            return false;
        }
        let ca = av[i];
        let cb = bv[i];
        if ca != cb {
            return ca < cb;
        }
        i = i + 1;
    }
}

// ---------------------------------------------------------------------------
// Well-formedness
// ---------------------------------------------------------------------------

impl Store {
    pub open spec fn runs_wf(self) -> bool {
        &&& forall|i: int, j: int|
            0 <= i < j < self.runs@.len() ==> self.runs@[i].id != self.runs@[j].id
        &&& forall|i: int|
            0 <= i < self.runs@.len() ==> 1 <= #[trigger] self.runs@[i].id < self.next_run_id
        &&& forall|i: int|
            0 <= i < self.runs@.len() ==> (match #[trigger] self.runs@[i].total_time_ms {
                Some(t) => t >= 0,
                None => true,
            })
        &&& self.next_run_id >= 1
    }

    pub open spec fn splits_wf(self) -> bool {
        &&& forall|i: int, j: int|
            0 <= i < j < self.splits@.len() ==> self.splits@[i].id != self.splits@[j].id
        &&& forall|i: int|
            0 <= i < self.splits@.len() ==> 1 <= #[trigger] self.splits@[i].id
                < self.next_split_id
        &&& forall|i: int|
            0 <= i < self.splits@.len() ==> (#[trigger] self.splits@[i].split_time_ms >= 0
                && self.splits@[i].town_time_ms >= 0)
        &&& self.next_split_id >= 1
    }

    pub open spec fn snapshots_wf(self) -> bool {
        &&& forall|i: int, j: int|
            0 <= i < j < self.snapshots@.len() ==> self.snapshots@[i].id != self.snapshots@[j].id
        &&& forall|i: int|
            0 <= i < self.snapshots@.len() ==> 1 <= #[trigger] self.snapshots@[i].id
                < self.next_snapshot_id
        &&& self.next_snapshot_id >= 1
    }

    pub open spec fn personal_bests_wf(self) -> bool {
        &&& forall|i: int, j: int|
            0 <= i < j < self.personal_bests@.len() ==> !(self.personal_bests@[i].category@
                == self.personal_bests@[j].category@ && self.personal_bests@[i].class@
                == self.personal_bests@[j].class@)
        &&& forall|i: int|
            0 <= i < self.personal_bests@.len() ==> 1 <= #[trigger] self.personal_bests@[i].id
                < self.next_pb_id
        &&& self.next_pb_id >= 1
    }

    pub open spec fn gold_splits_wf(self) -> bool {
        &&& forall|i: int, j: int|
            0 <= i < j < self.gold_splits@.len() ==> !(self.gold_splits@[i].category@
                == self.gold_splits@[j].category@ && self.gold_splits@[i].breakpoint_name@
                == self.gold_splits@[j].breakpoint_name@)
        &&& forall|i: int|
            0 <= i < self.gold_splits@.len() ==> 1 <= #[trigger] self.gold_splits@[i].id
                < self.next_gold_id
        &&& self.next_gold_id >= 1
    }

    /// Well-formedness: unique identifiers below the next free one, unique
    /// record keys, and non-negative recorded times.
    pub open spec fn wf(self) -> bool {
        &&& self.runs_wf()
        &&& self.splits_wf()
        &&& self.snapshots_wf()
        &&& self.personal_bests_wf()
        &&& self.gold_splits_wf()
    }

    /// An empty store.
    pub fn new() -> (r: Store)
        ensures
            r.wf(),
            r.runs@.len() == 0,
            r.splits@.len() == 0,
            r.snapshots@.len() == 0,
            r.personal_bests@.len() == 0,
            r.gold_splits@.len() == 0,
            r.next_run_id == 1,
            r.next_split_id == 1,
            r.next_snapshot_id == 1,
            r.next_pb_id == 1,
            r.next_gold_id == 1,
    {
        Store {
            runs: Vec::new(),
            splits: Vec::new(),
            snapshots: Vec::new(),
            personal_bests: Vec::new(),
            gold_splits: Vec::new(),
            next_run_id: 1,
            next_split_id: 1,
            next_snapshot_id: 1,
            next_pb_id: 1,
            next_gold_id: 1,
        }
    }
}

// ---------------------------------------------------------------------------
// Exact clones (field by field, so the copies equal the originals)
// ---------------------------------------------------------------------------

fn clone_opt_string(s: &Option<String>) -> (r: Option<String>)
    ensures
        r == *s,
{
    match s {
        Some(x) => Some(x.clone()),
        None => None,
    }
}

fn clone_run(r: &Run) -> (c: Run)
    ensures
        c == *r,
{
    Run {
        id: r.id,
        character_name: r.character_name.clone(),
        account_name: r.account_name.clone(),
        class: r.class.clone(),
        ascendancy: clone_opt_string(&r.ascendancy),
        league: r.league.clone(),
        category: r.category.clone(),
        started_at: r.started_at.clone(),
        ended_at: clone_opt_string(&r.ended_at),
        total_time_ms: r.total_time_ms,
        is_completed: r.is_completed,
        is_personal_best: r.is_personal_best,
        breakpoint_preset: clone_opt_string(&r.breakpoint_preset),
        enabled_breakpoints: clone_opt_string(&r.enabled_breakpoints),
        is_reference: r.is_reference,
        source_name: clone_opt_string(&r.source_name),
    }
}

fn clone_split(s: &Split) -> (c: Split)
    ensures
        c == *s,
{
    Split {
        id: s.id,
        run_id: s.run_id,
        breakpoint_type: s.breakpoint_type.clone(),
        breakpoint_name: s.breakpoint_name.clone(),
        split_time_ms: s.split_time_ms,
        delta_ms: s.delta_ms,
        segment_time_ms: s.segment_time_ms,
        town_time_ms: s.town_time_ms,
        hideout_time_ms: s.hideout_time_ms,
    }
}

fn clone_snapshot(s: &Snapshot) -> (c: Snapshot)
    ensures
        c == *s,
{
    Snapshot {
        id: s.id,
        run_id: s.run_id,
        split_id: s.split_id,
        timestamp: s.timestamp.clone(),
        elapsed_time_ms: s.elapsed_time_ms,
        character_level: s.character_level,
        items_json: s.items_json.clone(),
        skills_json: s.skills_json.clone(),
        passive_tree_json: s.passive_tree_json.clone(),
        stats_json: s.stats_json.clone(),
        pob_code: clone_opt_string(&s.pob_code),
    }
}

fn clone_personal_best(p: &PersonalBest) -> (c: PersonalBest)
    ensures
        c == *p,
{
    PersonalBest {
        id: p.id,
        category: p.category.clone(),
        class: p.class.clone(),
        run_id: p.run_id,
        total_time_ms: p.total_time_ms,
    }
}

fn clone_gold_split(g: &GoldSplit) -> (c: GoldSplit)
    ensures
        c == *g,
{
    GoldSplit {
        id: g.id,
        category: g.category.clone(),
        breakpoint_name: g.breakpoint_name.clone(),
        best_segment_ms: g.best_segment_ms,
    }
}

// ---------------------------------------------------------------------------
// Runs
// ---------------------------------------------------------------------------

/// Does a filter select this run?
pub open spec fn spec_matches_filter(r: Run, f: RunFilters) -> bool {
    &&& (match f.class {
        Some(c) => r.class@ == c@,
        None => true,
    })
    &&& (match f.ascendancy {
        Some(a) => (match r.ascendancy {
            Some(ra) => ra@ == a@,
            None => false,
        }),
        None => true,
    })
    &&& (match f.category {
        Some(c) => r.category@ == c@,
        None => true,
    })
    &&& (match f.league {
        Some(l) => r.league@ == l@,
        None => true,
    })
    &&& (match f.breakpoint_preset {
        Some(p) => (match r.breakpoint_preset {
            Some(rp) => rp@ == p@,
            None => false,
        }),
        None => true,
    })
    &&& (match f.is_completed {
        Some(c) => r.is_completed == c,
        None => true,
    })
    &&& (match f.include_reference {
        Some(true) => true,
        _ => !r.is_reference,
    })
}

/// The runs a filter selects, in table order.
pub open spec fn spec_filtered_runs(rs: Seq<Run>, f: RunFilters) -> Seq<Run>
    decreases rs.len(),
{
    if rs.len() == 0 {
        Seq::empty()
    } else if spec_matches_filter(rs.last(), f) {
        spec_filtered_runs(rs.drop_last(), f).push(rs.last())
    } else {
        spec_filtered_runs(rs.drop_last(), f)
    }
}

/// Runs listed newest first by their start timestamp.
pub open spec fn runs_sorted_desc(s: Seq<Run>) -> bool {
    forall|i: int, j: int|
        0 <= i < j < s.len() ==> lex_le(#[trigger] s[j].started_at@, #[trigger] s[i].started_at@)
}

pub open spec fn spec_has_run(rs: Seq<Run>, id: i64) -> bool {
    exists|i: int| 0 <= i < rs.len() && rs[i].id == id
}

pub open spec fn spec_run_index(rs: Seq<Run>, id: i64) -> int {
    choose|i: int| 0 <= i < rs.len() && rs[i].id == id
}

/// When ids are unique, the index of a present id is the one the model
/// picks.
proof fn lemma_run_index_is(rs: Seq<Run>, id: i64, i: int)
    requires
        forall|a: int, b: int| 0 <= a < b < rs.len() ==> rs[a].id != rs[b].id,
        0 <= i < rs.len(),
        rs[i].id == id,
    ensures
        spec_has_run(rs, id),
        spec_run_index(rs, id) == i,
{
    let j = spec_run_index(rs, id);
    if j != i {
        if j < i {
            assert(rs[j].id != rs[i].id);
        } else {
            assert(rs[i].id != rs[j].id);
        }
    }
}

/// Does the filter match, decided on the concrete values.
fn matches_filter(r: &Run, f: &RunFilters) -> (b: bool)
    ensures
        b == spec_matches_filter(*r, *f),
{
    let class_ok = match &f.class {
        Some(c) => str_eq(r.class.as_str(), c.as_str()),
        None => true,
    };
    let asc_ok = match &f.ascendancy {
        Some(a) => match &r.ascendancy {
            Some(ra) => str_eq(ra.as_str(), a.as_str()),
            None => false,
        },
        None => true,
    };
    let cat_ok = match &f.category {
        Some(c) => str_eq(r.category.as_str(), c.as_str()),
        None => true,
    };
    let league_ok = match &f.league {
        Some(l) => str_eq(r.league.as_str(), l.as_str()),
        None => true,
    };
    let preset_ok = match &f.breakpoint_preset {
        Some(p) => match &r.breakpoint_preset {
            Some(rp) => str_eq(rp.as_str(), p.as_str()),
            None => false,
        },
        None => true,
    };
    let completed_ok = match f.is_completed {
        Some(c) => r.is_completed == c,
        None => true,
    };
    let reference_ok = match f.include_reference {
        Some(true) => true,
        _ => !r.is_reference,
    };
    class_ok && asc_ok && cat_ok && league_ok && preset_ok && completed_ok && reference_ok
}

/// Exact copies of the runs the filter selects, in table order.
fn filtered_runs(rs: &Vec<Run>, f: &RunFilters) -> (out: Vec<Run>)
    ensures
        out@ == spec_filtered_runs(rs@, *f),
{
    let n = rs.len();
    let mut out: Vec<Run> = Vec::new();
    let mut i: usize = 0;
    while i < n
        invariant
            n == rs@.len(),
            0 <= i <= n,
            out@ == spec_filtered_runs(rs@.take(i as int), *f),
        decreases n - i,
    {
        proof {
            assert(rs@.take(i + 1).drop_last() =~= rs@.take(i as int));
            assert(rs@.take(i + 1).last() == rs@[i as int]);
        }
        if matches_filter(&rs[i], f) {
            out.push(clone_run(&rs[i]));
        }
        i = i + 1;
    }
    proof {
        assert(rs@.take(n as int) =~= rs@);
    }
    out
}

/// Sort runs newest first by start timestamp (selection of the latest
/// remaining run each round; ties keep no particular order).
fn sort_runs_desc(mut v: Vec<Run>) -> (out: Vec<Run>)
    ensures
        out@.to_multiset() == v@.to_multiset(),
        runs_sorted_desc(out@),
{
    let ghost orig = v@;
    let mut out: Vec<Run> = Vec::new();
    while v.len() > 0
        invariant
            out@.to_multiset().add(v@.to_multiset()) =~= orig.to_multiset(),
            runs_sorted_desc(out@),
            forall|a: int, b: int|
                0 <= a < out@.len() && 0 <= b < v@.len() ==> lex_le(
                    #[trigger] v@[b].started_at@,
                    #[trigger] out@[a].started_at@,
                ),
        decreases v@.len(),
    {
        let n = v.len();
        let mut best: usize = 0;
        let mut j: usize = 1;
        proof {
            lemma_lex_refl(v@[0].started_at@);
        }
        while j < n
            invariant
                n == v@.len(),
                0 < n,
                best < j <= n,
                forall|q: int|
                    0 <= q < j ==> lex_le(
                        #[trigger] v@[q].started_at@,
                        v@[best as int].started_at@,
                    ),
            decreases n - j,
        {
            if str_le(v[best].started_at.as_str(), v[j].started_at.as_str()) {
                proof {
                    assert forall|q: int|
                        0 <= q < j + 1 implies lex_le(
                        #[trigger] v@[q].started_at@,
                        v@[j as int].started_at@,
                    ) by {
                        if q == j {
                            lemma_lex_refl(v@[j as int].started_at@);
                        } else {
                            lemma_lex_trans(
                                v@[q].started_at@,
                                v@[best as int].started_at@,
                                v@[j as int].started_at@,
                            );
                        }
                    }
                }
                best = j;
            } else {
                proof {
                    lemma_lex_total(v@[best as int].started_at@, v@[j as int].started_at@);
                }
            }
            j = j + 1;
        }
        let x = v.remove(best);
        out.push(x);
    }
    proof {
        assert(v@.to_multiset() =~= Multiset::<Run>::empty());
        assert(out@.to_multiset() =~= orig.to_multiset());
        assert(v@ =~= Seq::<Run>::empty());
    }
    out
}

/// Transitivity of the lexicographic order.
pub proof fn lemma_lex_trans(a: Seq<char>, b: Seq<char>, c: Seq<char>)
    requires
        lex_le(a, b),
        lex_le(b, c),
    ensures
        lex_le(a, c),
    decreases a.len(),
{
    if a.len() > 0 && b.len() > 0 && c.len() > 0 && a[0] == b[0] && b[0] == c[0] {
        lemma_lex_trans(a.drop_first(), b.drop_first(), c.drop_first());
    }
}

impl Run {
    /// Create a run from the given fields; the new row gets the next free
    /// identifier, which is returned.
    pub fn insert(store: &mut Store, run: &NewRun) -> (id: i64)
        requires
            old(store).wf(),
            old(store).next_run_id < i64::MAX,
        ensures
            final(store).wf(),
            id == old(store).next_run_id,
            final(store).runs@ == old(store).runs@.push(
                (Run {
                    id: old(store).next_run_id,
                    character_name: run.character_name,
                    account_name: run.account_name,
                    class: run.class,
                    ascendancy: run.ascendancy,
                    league: run.league,
                    category: run.category,
                    started_at: run.started_at,
                    ended_at: None,
                    total_time_ms: None,
                    is_completed: false,
                    is_personal_best: false,
                    breakpoint_preset: run.breakpoint_preset,
                    enabled_breakpoints: run.enabled_breakpoints,
                    is_reference: false,
                    source_name: None,
                }),
            ),
            final(store).next_run_id == old(store).next_run_id + 1,
            final(store).splits == old(store).splits,
            final(store).snapshots == old(store).snapshots,
            final(store).personal_bests == old(store).personal_bests,
            final(store).gold_splits == old(store).gold_splits,
            final(store).next_split_id == old(store).next_split_id,
            final(store).next_snapshot_id == old(store).next_snapshot_id,
            final(store).next_pb_id == old(store).next_pb_id,
            final(store).next_gold_id == old(store).next_gold_id,
    {
        let id = store.next_run_id;
        let row = Run {
            id,
            character_name: run.character_name.clone(),
            account_name: run.account_name.clone(),
            class: run.class.clone(),
            ascendancy: clone_opt_string(&run.ascendancy),
            league: run.league.clone(),
            category: run.category.clone(),
            started_at: run.started_at.clone(),
            ended_at: None,
            total_time_ms: None,
            is_completed: false,
            is_personal_best: false,
            breakpoint_preset: clone_opt_string(&run.breakpoint_preset),
            enabled_breakpoints: clone_opt_string(&run.enabled_breakpoints),
            is_reference: false,
            source_name: None,
        };
        store.runs.push(row);
        store.next_run_id = id + 1;
        id
    }

    /// Mark a run completed with its total time; a missing id changes
    /// nothing.
    #[verifier::loop_isolation(false)]
    pub fn complete(store: &mut Store, id: i64, total_time_ms: i64, ended_at: String)
        requires
            old(store).wf(),
            total_time_ms >= 0,
        ensures
            final(store).wf(),
            spec_has_run(old(store).runs@, id) ==> final(store).runs@ == old(store).runs@.update(
                spec_run_index(old(store).runs@, id),
                (Run {
                    is_completed: true,
                    ended_at: Some(ended_at),
                    total_time_ms: Some(total_time_ms),
                    ..old(store).runs@[spec_run_index(old(store).runs@, id)]
                }),
            ),
            !spec_has_run(old(store).runs@, id) ==> final(store).runs@ == old(store).runs@,
            final(store).splits == old(store).splits,
            final(store).snapshots == old(store).snapshots,
            final(store).personal_bests == old(store).personal_bests,
            final(store).gold_splits == old(store).gold_splits,
            final(store).next_run_id == old(store).next_run_id,
            final(store).next_split_id == old(store).next_split_id,
            final(store).next_snapshot_id == old(store).next_snapshot_id,
            final(store).next_pb_id == old(store).next_pb_id,
            final(store).next_gold_id == old(store).next_gold_id,
    {
        let n = store.runs.len();
        let mut i: usize = 0;
        while i < n
            invariant
                *store == *old(store),
                n == store.runs@.len(),
                0 <= i <= n,
                forall|q: int| 0 <= q < i ==> store.runs@[q].id != id,
            decreases n - i,
        {
            if store.runs[i].id == id {
                proof {
                    lemma_run_index_is(store.runs@, id, i as int);
                }
                let mut row = store.runs.remove(i);
                row.is_completed = true;
                row.ended_at = Some(ended_at);
                row.total_time_ms = Some(total_time_ms);
                store.runs.insert(i, row);
                proof {
                    assert(store.runs@ =~= old(store).runs@.update(
                        i as int,
                        (Run {
                            is_completed: true,
                            ended_at: Some(ended_at),
                            total_time_ms: Some(total_time_ms),
                            ..old(store).runs@[i as int]
                        }),
                    ));
                }
                return ;
            }
            i = i + 1;
        }
        proof {
            assert(!spec_has_run(store.runs@, id));
        }
    }

    /// Overwrite a run's character name and class; a missing id changes
    /// nothing.
    #[verifier::loop_isolation(false)]
    pub fn update_character(store: &mut Store, id: i64, character_name: String, class: String)
        requires
            old(store).wf(),
        ensures
            final(store).wf(),
            spec_has_run(old(store).runs@, id) ==> final(store).runs@ == old(store).runs@.update(
                spec_run_index(old(store).runs@, id),
                (Run {
                    character_name: character_name,
                    class: class,
                    ..old(store).runs@[spec_run_index(old(store).runs@, id)]
                }),
            ),
            !spec_has_run(old(store).runs@, id) ==> final(store).runs@ == old(store).runs@,
            final(store).splits == old(store).splits,
            final(store).snapshots == old(store).snapshots,
            final(store).personal_bests == old(store).personal_bests,
            final(store).gold_splits == old(store).gold_splits,
            final(store).next_run_id == old(store).next_run_id,
            final(store).next_split_id == old(store).next_split_id,
            final(store).next_snapshot_id == old(store).next_snapshot_id,
            final(store).next_pb_id == old(store).next_pb_id,
            final(store).next_gold_id == old(store).next_gold_id,
    {
        let n = store.runs.len();
        let mut i: usize = 0;
        while i < n
            invariant
                *store == *old(store),
                n == store.runs@.len(),
                0 <= i <= n,
                forall|q: int| 0 <= q < i ==> store.runs@[q].id != id,
            decreases n - i,
        {
            if store.runs[i].id == id {
                proof {
                    lemma_run_index_is(store.runs@, id, i as int);
                }
                let mut row = store.runs.remove(i);
                row.character_name = character_name;
                row.class = class;
                store.runs.insert(i, row);
                proof {
                    assert(store.runs@ =~= old(store).runs@.update(
                        i as int,
                        (Run {
                            character_name: character_name,
                            class: class,
                            ..old(store).runs@[i as int]
                        }),
                    ));
                }
                return ;
            }
            i = i + 1;
        }
    }

    /// Every run, newest first by start timestamp.
    pub fn get_all(store: &Store) -> (out: Vec<Run>)
        requires
            store.wf(),
        ensures
            out@.to_multiset() == store.runs@.to_multiset(),
            runs_sorted_desc(out@),
    {
        let n = store.runs.len();
        let mut copy: Vec<Run> = Vec::new();
        let mut i: usize = 0;
        while i < n
            invariant
                n == store.runs@.len(),
                0 <= i <= n,
                copy@ =~= store.runs@.take(i as int),
            decreases n - i,
        {
            copy.push(clone_run(&store.runs[i]));
            proof {
                assert(copy@ =~= store.runs@.take(i + 1));
            }
            i = i + 1;
        }
        proof {
            assert(copy@ =~= store.runs@);
        }
        sort_runs_desc(copy)
    }

    /// The run with this id, if present.
    #[verifier::loop_isolation(false)]
    pub fn get_by_id(store: &Store, id: i64) -> (r: Option<Run>)
        requires
            store.wf(),
        ensures
            (match r {
                Some(run) => spec_has_run(store.runs@, id) && run == store.runs@[spec_run_index(
                    store.runs@,
                    id,
                )],
                None => !spec_has_run(store.runs@, id),
            }),
    {
        let n = store.runs.len();
        let mut i: usize = 0;
        while i < n
            invariant
                n == store.runs@.len(),
                0 <= i <= n,
                forall|q: int| 0 <= q < i ==> store.runs@[q].id != id,
            decreases n - i,
        {
            if store.runs[i].id == id {
                proof {
                    lemma_run_index_is(store.runs@, id, i as int);
                }
                return Some(clone_run(&store.runs[i]));
            }
            i = i + 1;
        }
        None
    }

    /// Remove a run and everything recorded under it: its splits and its
    /// snapshots.
    #[verifier::loop_isolation(false)]
    pub fn delete(store: &mut Store, id: i64)
        requires
            old(store).wf(),
        ensures
            final(store).wf(),
            final(store).runs@ == spec_runs_without(old(store).runs@, id),
            final(store).splits@ == spec_splits_without_run(old(store).splits@, id),
            final(store).snapshots@ == spec_snapshots_without_run(old(store).snapshots@, id),
            final(store).personal_bests == old(store).personal_bests,
            final(store).gold_splits == old(store).gold_splits,
            final(store).next_run_id == old(store).next_run_id,
            final(store).next_split_id == old(store).next_split_id,
            final(store).next_snapshot_id == old(store).next_snapshot_id,
            final(store).next_pb_id == old(store).next_pb_id,
            final(store).next_gold_id == old(store).next_gold_id,
    {
        let rn = store.runs.len();
        let mut runs: Vec<Run> = Vec::new();
        let mut i: usize = 0;
        while i < rn
            invariant
                i <= rn,
                runs@ == spec_runs_without(store.runs@.take(i as int), id),
                forall|a: int, b: int|
                    #![trigger runs@[a], runs@[b]]
                    0 <= a < b < runs@.len() ==> exists|x: int, y: int|
                        0 <= x < y < i && store.runs@[x] == runs@[a] && store.runs@[y] == runs@[b],
                forall|a: int|
                    0 <= a < runs@.len() ==> exists|x: int|
                        0 <= x < i && store.runs@[x] == #[trigger] runs@[a],
            decreases rn - i,
        {
            proof {
                assert(store.runs@.take(i + 1).drop_last() =~= store.runs@.take(i as int));
                assert(store.runs@.take(i + 1).last() == store.runs@[i as int]);
            }
            if store.runs[i].id != id {
                runs.push(clone_run(&store.runs[i]));
            }
            i = i + 1;
        }
        let sn = store.splits.len();
        let mut splits: Vec<Split> = Vec::new();
        let mut j: usize = 0;
        while j < sn
            invariant
                j <= sn,
                splits@ == spec_splits_without_run(store.splits@.take(j as int), id),
                forall|a: int, b: int|
                    #![trigger splits@[a], splits@[b]]
                    0 <= a < b < splits@.len() ==> exists|x: int, y: int|
                        0 <= x < y < j && store.splits@[x] == splits@[a] && store.splits@[y]
                            == splits@[b],
                forall|a: int|
                    0 <= a < splits@.len() ==> exists|x: int|
                        0 <= x < j && store.splits@[x] == #[trigger] splits@[a],
            decreases sn - j,
        {
            proof {
                assert(store.splits@.take(j + 1).drop_last() =~= store.splits@.take(j as int));
                assert(store.splits@.take(j + 1).last() == store.splits@[j as int]);
            }
            if store.splits[j].run_id != id {
                splits.push(clone_split(&store.splits[j]));
            }
            j = j + 1;
        }
        let pn = store.snapshots.len();
        let mut snaps: Vec<Snapshot> = Vec::new();
        let mut k: usize = 0;
        while k < pn
            invariant
                k <= pn,
                snaps@ == spec_snapshots_without_run(store.snapshots@.take(k as int), id),
                forall|a: int, b: int|
                    #![trigger snaps@[a], snaps@[b]]
                    0 <= a < b < snaps@.len() ==> exists|x: int, y: int|
                        0 <= x < y < k && store.snapshots@[x] == snaps@[a] && store.snapshots@[y]
                            == snaps@[b],
                forall|a: int|
                    0 <= a < snaps@.len() ==> exists|x: int|
                        0 <= x < k && store.snapshots@[x] == #[trigger] snaps@[a],
            decreases pn - k,
        {
            proof {
                assert(store.snapshots@.take(k + 1).drop_last() =~= store.snapshots@.take(
                    k as int,
                ));
                assert(store.snapshots@.take(k + 1).last() == store.snapshots@[k as int]);
            }
            if store.snapshots[k].run_id != id {
                snaps.push(clone_snapshot(&store.snapshots[k]));
            }
            k = k + 1;
        }
        proof {
            assert(store.runs@.take(rn as int) =~= store.runs@);
            assert(store.splits@.take(sn as int) =~= store.splits@);
            assert(store.snapshots@.take(pn as int) =~= store.snapshots@);
        }
        store.runs = runs;
        store.splits = splits;
        store.snapshots = snaps;
    }
}

/// Runs other than the one with this id, in table order.
pub open spec fn spec_runs_without(rs: Seq<Run>, id: i64) -> Seq<Run>
    decreases rs.len(),
{
    if rs.len() == 0 {
        Seq::empty()
    } else if rs.last().id != id {
        spec_runs_without(rs.drop_last(), id).push(rs.last())
    } else {
        spec_runs_without(rs.drop_last(), id)
    }
}

/// Splits of runs other than the one with this id, in table order.
pub open spec fn spec_splits_without_run(ss: Seq<Split>, id: i64) -> Seq<Split>
    decreases ss.len(),
{
    if ss.len() == 0 {
        Seq::empty()
    } else if ss.last().run_id != id {
        spec_splits_without_run(ss.drop_last(), id).push(ss.last())
    } else {
        spec_splits_without_run(ss.drop_last(), id)
    }
}

/// Snapshots of runs other than the one with this id, in table order.
pub open spec fn spec_snapshots_without_run(ss: Seq<Snapshot>, id: i64) -> Seq<Snapshot>
    decreases ss.len(),
{
    if ss.len() == 0 {
        Seq::empty()
    } else if ss.last().run_id != id {
        spec_snapshots_without_run(ss.drop_last(), id).push(ss.last())
    } else {
        spec_snapshots_without_run(ss.drop_last(), id)
    }
}

// ---------------------------------------------------------------------------
// Filtered listings and statistics over runs
// ---------------------------------------------------------------------------

/// How many of these runs are completed.
pub open spec fn spec_count_completed(rs: Seq<Run>) -> int
    decreases rs.len(),
{
    if rs.len() == 0 {
        0
    } else {
        spec_count_completed(rs.drop_last()) + if rs.last().is_completed {
            1int
        } else {
            0int
        }
    }
}

/// Is a completed total time recorded on this run?
pub open spec fn spec_timed(r: Run) -> bool {
    r.is_completed && r.total_time_ms is Some
}

/// How many of these runs carry a completed total time.
pub open spec fn spec_count_timed(rs: Seq<Run>) -> int
    decreases rs.len(),
{
    if rs.len() == 0 {
        0
    } else {
        spec_count_timed(rs.drop_last()) + if spec_timed(rs.last()) {
            1int
        } else {
            0int
        }
    }
}

/// Sum of the completed total times.
pub open spec fn spec_sum_timed(rs: Seq<Run>) -> int
    decreases rs.len(),
{
    if rs.len() == 0 {
        0
    } else {
        spec_sum_timed(rs.drop_last()) + if spec_timed(rs.last()) {
            rs.last().total_time_ms->0 as int
        } else {
            0int
        }
    }
}

/// Least completed total time, if any.
pub open spec fn spec_min_timed(rs: Seq<Run>) -> Option<int>
    decreases rs.len(),
{
    if rs.len() == 0 {
        None
    } else {
        let rest = spec_min_timed(rs.drop_last());
        if spec_timed(rs.last()) {
            let t = rs.last().total_time_ms->0 as int;
            match rest {
                Some(m) => if t < m {
                    Some(t)
                } else {
                    Some(m)
                },
                None => Some(t),
            }
        } else {
            rest
        }
    }
}

/// Runs selected by a filter carry the store's time bounds with them.
proof fn lemma_filtered_runs_times(rs: Seq<Run>, f: RunFilters)
    requires
        forall|i: int|
            0 <= i < rs.len() ==> (match #[trigger] rs[i].total_time_ms {
                Some(t) => t >= 0,
                None => true,
            }),
    ensures
        forall|i: int|
            0 <= i < spec_filtered_runs(rs, f).len() ==> (match #[trigger] spec_filtered_runs(
                rs,
                f,
            )[i].total_time_ms {
                Some(t) => t >= 0,
                None => true,
            }),
    decreases rs.len(),
{
    if rs.len() > 0 {
        assert forall|i: int|
            0 <= i < rs.drop_last().len() implies (match #[trigger] rs.drop_last()[
            i].total_time_ms {
            Some(t) => t >= 0,
            None => true,
        }) by {
            assert(rs.drop_last()[i] == rs[i]);
        }
        lemma_filtered_runs_times(rs.drop_last(), f);
    }
}

/// Bounded numerators keep quotients bounded.
proof fn lemma_div_bound(sum: int, cnt: int, cap: int)
    requires
        0 <= sum,
        1 <= cnt,
        0 <= cap,
        sum <= cnt * cap,
    ensures
        0 <= sum / cnt <= cap,
{
    assert(sum / cnt >= 0) by (nonlinear_arith)
        requires
            sum >= 0,
            cnt >= 1,
    ;
    assert(sum / cnt <= cap) by (nonlinear_arith)
        requires
            0 <= sum,
            1 <= cnt,
            0 <= cap,
            sum <= cnt * cap,
    ;
}

impl Run {
    /// The runs a filter selects, newest first by start timestamp.
    pub fn get_filtered(store: &Store, filters: &RunFilters) -> (out: Vec<Run>)
        requires
            store.wf(),
        ensures
            out@.to_multiset() == spec_filtered_runs(store.runs@, *filters).to_multiset(),
            runs_sorted_desc(out@),
    {
        let selected = filtered_runs(&store.runs, filters);
        sort_runs_desc(selected)
    }

    /// Statistics over the runs a filter selects: how many there are, how
    /// many are completed, and the mean and least completed total times.
    pub fn get_stats(store: &Store, filters: &RunFilters) -> (r: RunStats)
        requires
            store.wf(),
            store.runs@.len() <= i64::MAX,
        ensures
            r.total_runs == spec_filtered_runs(store.runs@, *filters).len(),
            r.completed_runs == spec_count_completed(spec_filtered_runs(store.runs@, *filters)),
            spec_count_timed(spec_filtered_runs(store.runs@, *filters)) == 0
                ==> r.average_time_ms is None,
            spec_count_timed(spec_filtered_runs(store.runs@, *filters)) > 0 ==> r.average_time_ms
                == Some(
                (spec_sum_timed(spec_filtered_runs(store.runs@, *filters)) / spec_count_timed(
                    spec_filtered_runs(store.runs@, *filters),
                )) as i64,
            ),
            (match spec_min_timed(spec_filtered_runs(store.runs@, *filters)) {
                Some(m) => r.best_time_ms == Some(m as i64),
                None => r.best_time_ms is None,
            }),
    {
        let filtered = filtered_runs(&store.runs, filters);
        let ghost fs = spec_filtered_runs(store.runs@, *filters);
        proof {
            lemma_filtered_runs_times(store.runs@, *filters);
            lemma_filtered_len(store.runs@, *filters);
            assert(fs.take(0) =~= Seq::<Run>::empty());
        }
        let n = filtered.len();
        let mut completed: i64 = 0;
        let mut timed: i64 = 0;
        let mut sum: u128 = 0;
        let mut best: Option<i64> = None;
        let mut i: usize = 0;
        while i < n
            invariant
                n == fs.len(),
                n <= i64::MAX,
                filtered@ == fs,
                0 <= i <= n,
                completed == spec_count_completed(fs.take(i as int)),
                0 <= completed <= i,
                timed == spec_count_timed(fs.take(i as int)),
                0 <= timed <= i,
                sum == spec_sum_timed(fs.take(i as int)),
                sum <= timed as int * (i64::MAX as int),
                (match spec_min_timed(fs.take(i as int)) {
                    Some(m) => best == Some(m as i64) && 0 <= m <= i64::MAX,
                    None => best is None,
                }),
                forall|q: int|
                    0 <= q < fs.len() ==> (match #[trigger] fs[q].total_time_ms {
                        Some(t) => t >= 0,
                        None => true,
                    }),
            decreases n - i,
        {
            proof {
                assert(fs.take(i + 1).drop_last() =~= fs.take(i as int));
                assert(fs.take(i + 1).last() == fs[i as int]);
            }
            let run = &filtered[i];
            if run.is_completed {
                completed = completed + 1;
                match run.total_time_ms {
                    Some(t) => {
                        timed = timed + 1;
                        proof {
                            assert(timed as int * (i64::MAX as int) == (timed - 1) as int * (
                            i64::MAX as int) + i64::MAX) by (nonlinear_arith);
                        }
                        sum = sum + (t as u128);
                        best = match best {
                            Some(m) => if t < m {
                                Some(t)
                            } else {
                                Some(m)
                            },
                            None => Some(t),
                        };
                    },
                    None => {
                    },
                }
            }
            i = i + 1;
        }
        proof {
            assert(fs.take(n as int) =~= fs);
        }
        let average_time_ms: Option<i64> = if timed > 0 {
            proof {
                lemma_div_bound(sum as int, timed as int, i64::MAX as int);
            }
            let avg: u128 = sum / (timed as u128);
            Some(avg as i64)
        } else {
            None
        };
        RunStats {
            total_runs: n as i64,
            completed_runs: completed,
            average_time_ms,
            best_time_ms: best,
        }
    }

    /// Fill in class, ascendancy and league from fetched data, each only
    /// where the run does not already carry one: the class when it is
    /// still "Unknown", the ascendancy when none is set, the league when
    /// it is empty. A missing id changes nothing.
    #[verifier::loop_isolation(false)]
    pub fn update_class_info(
        store: &mut Store,
        id: i64,
        class: String,
        ascendancy: Option<String>,
        league: Option<String>,
    )
        requires
            old(store).wf(),
        ensures
            final(store).wf(),
            spec_has_run(old(store).runs@, id) ==> final(store).runs@ == old(store).runs@.update(
                spec_run_index(old(store).runs@, id),
                spec_class_info_applied(
                    old(store).runs@[spec_run_index(old(store).runs@, id)],
                    class,
                    ascendancy,
                    league,
                ),
            ),
            !spec_has_run(old(store).runs@, id) ==> final(store).runs@ == old(store).runs@,
            final(store).splits == old(store).splits,
            final(store).snapshots == old(store).snapshots,
            final(store).personal_bests == old(store).personal_bests,
            final(store).gold_splits == old(store).gold_splits,
            final(store).next_run_id == old(store).next_run_id,
            final(store).next_split_id == old(store).next_split_id,
            final(store).next_snapshot_id == old(store).next_snapshot_id,
            final(store).next_pb_id == old(store).next_pb_id,
            final(store).next_gold_id == old(store).next_gold_id,
    {
        let n = store.runs.len();
        let mut i: usize = 0;
        while i < n
            invariant
                *store == *old(store),
                n == store.runs@.len(),
                0 <= i <= n,
                forall|q: int| 0 <= q < i ==> store.runs@[q].id != id,
            decreases n - i,
        {
            if store.runs[i].id == id {
                proof {
                    lemma_run_index_is(store.runs@, id, i as int);
                }
                let mut row = store.runs.remove(i);
                if str_eq(row.class.as_str(), "Unknown") {
                    row.class = class;
                }
                match ascendancy {
                    Some(a) => {
                        if row.ascendancy.is_none() {
                            row.ascendancy = Some(a);
                        }
                    },
                    None => {
                    },
                }
                match league {
                    Some(l) => {
                        if row.league.as_str().is_empty() {
                            row.league = l;
                        }
                    },
                    None => {
                    },
                }
                store.runs.insert(i, row);
                proof {
                    assert(store.runs@ =~= old(store).runs@.update(
                        i as int,
                        spec_class_info_applied(
                            old(store).runs@[i as int],
                            class,
                            ascendancy,
                            league,
                        ),
                    ));
                }
                return ;
            }
            i = i + 1;
        }
    }

    /// Import a reference run: a completed run under the source's name,
    /// with the caller's clock reading as its start timestamp.
    pub fn insert_reference(store: &mut Store, data: &ReferenceRunData, started_at: String) -> (id:
        i64)
        requires
            old(store).wf(),
            old(store).next_run_id < i64::MAX,
            data.total_time_ms >= 0,
        ensures
            final(store).wf(),
            id == old(store).next_run_id,
            final(store).runs@.len() == old(store).runs@.len() + 1,
            final(store).runs@.take(old(store).runs@.len() as int) == old(store).runs@,
            final(store).runs@.last().id == id,
            final(store).runs@.last().character_name@ == (match data.character_name {
                Some(c) => c@,
                None => Seq::<char>::empty(),
            }),
            final(store).runs@.last().account_name@ == Seq::<char>::empty(),
            final(store).runs@.last().class == data.class,
            final(store).runs@.last().ascendancy == data.ascendancy,
            final(store).runs@.last().league@ == (match data.league {
                Some(l) => l@,
                None => "Standard"@,
            }),
            final(store).runs@.last().category == data.category,
            final(store).runs@.last().started_at == started_at,
            final(store).runs@.last().ended_at is None,
            final(store).runs@.last().total_time_ms == Some(data.total_time_ms),
            final(store).runs@.last().is_completed,
            !final(store).runs@.last().is_personal_best,
            final(store).runs@.last().breakpoint_preset == data.breakpoint_preset,
            final(store).runs@.last().enabled_breakpoints == data.enabled_breakpoints,
            final(store).runs@.last().is_reference,
            final(store).runs@.last().source_name == Some(data.source_name),
            final(store).next_run_id == old(store).next_run_id + 1,
            final(store).splits == old(store).splits,
            final(store).snapshots == old(store).snapshots,
            final(store).personal_bests == old(store).personal_bests,
            final(store).gold_splits == old(store).gold_splits,
            final(store).next_split_id == old(store).next_split_id,
            final(store).next_snapshot_id == old(store).next_snapshot_id,
            final(store).next_pb_id == old(store).next_pb_id,
            final(store).next_gold_id == old(store).next_gold_id,
    {
        let id = store.next_run_id;
        let character_name = match &data.character_name {
            Some(c) => c.clone(),
            None => String::new(),
        };
        let league = match &data.league {
            Some(l) => l.clone(),
            None => "Standard".to_owned(),
        };
        let row = Run {
            id,
            character_name,
            account_name: String::new(),
            class: data.class.clone(),
            ascendancy: clone_opt_string(&data.ascendancy),
            league,
            category: data.category.clone(),
            started_at,
            ended_at: None,
            total_time_ms: Some(data.total_time_ms),
            is_completed: true,
            is_personal_best: false,
            breakpoint_preset: clone_opt_string(&data.breakpoint_preset),
            enabled_breakpoints: clone_opt_string(&data.enabled_breakpoints),
            is_reference: true,
            source_name: Some(data.source_name.clone()),
        };
        store.runs.push(row);
        store.next_run_id = id + 1;
        proof {
            assert(store.runs@.take(old(store).runs@.len() as int) =~= old(store).runs@);
        }
        id
    }
}

/// A run's class, ascendancy and league after fetched data is applied.
pub open spec fn spec_class_info_applied(
    row: Run,
    class: String,
    ascendancy: Option<String>,
    league: Option<String>,
) -> Run {
    Run {
        class: if row.class@ == "Unknown"@ {
            class
        } else {
            row.class
        },
        ascendancy: (match (row.ascendancy, ascendancy) {
            (None, Some(a)) => Some(a),
            _ => row.ascendancy,
        }),
        league: (match league {
            Some(l) => if row.league@.len() == 0 {
                l
            } else {
                row.league
            },
            None => row.league,
        }),
        ..row
    }
}

/// The filtered selection never holds more runs than the table.
proof fn lemma_filtered_len(rs: Seq<Run>, f: RunFilters)
    ensures
        spec_filtered_runs(rs, f).len() <= rs.len(),
    decreases rs.len(),
{
    if rs.len() > 0 {
        lemma_filtered_len(rs.drop_last(), f);
    }
}

// ---------------------------------------------------------------------------
// Splits
// ---------------------------------------------------------------------------

/// The splits recorded under a run, in table order.
pub open spec fn spec_splits_of_run(ss: Seq<Split>, run_id: i64) -> Seq<Split>
    decreases ss.len(),
{
    if ss.len() == 0 {
        Seq::empty()
    } else if ss.last().run_id == run_id {
        spec_splits_of_run(ss.drop_last(), run_id).push(ss.last())
    } else {
        spec_splits_of_run(ss.drop_last(), run_id)
    }
}

/// Splits listed from earliest to latest split time.
pub open spec fn splits_sorted_asc(s: Seq<Split>) -> bool {
    forall|i: int, j: int|
        0 <= i < j < s.len() ==> #[trigger] s[i].split_time_ms <= #[trigger] s[j].split_time_ms
}

/// Sort splits by ascending split time (ties keep no particular order).
fn sort_splits_asc(mut v: Vec<Split>) -> (out: Vec<Split>)
    ensures
        out@.to_multiset() == v@.to_multiset(),
        splits_sorted_asc(out@),
{
    let ghost orig = v@;
    let mut out: Vec<Split> = Vec::new();
    while v.len() > 0
        invariant
            out@.to_multiset().add(v@.to_multiset()) =~= orig.to_multiset(),
            splits_sorted_asc(out@),
            forall|a: int, b: int|
                0 <= a < out@.len() && 0 <= b < v@.len() ==> #[trigger] out@[a].split_time_ms
                    <= #[trigger] v@[b].split_time_ms,
        decreases v@.len(),
    {
        let n = v.len();
        let mut best: usize = 0;
        let mut j: usize = 1;
        while j < n
            invariant
                n == v@.len(),
                0 < n,
                best < j <= n,
                forall|q: int|
                    0 <= q < j ==> v@[best as int].split_time_ms <= #[trigger] v@[q].split_time_ms,
            decreases n - j,
        {
            if v[j].split_time_ms < v[best].split_time_ms {
                best = j;
            }
            j = j + 1;
        }
        let x = v.remove(best);
        out.push(x);
    }
    proof {
        assert(v@.to_multiset() =~= Multiset::<Split>::empty());
        assert(out@.to_multiset() =~= orig.to_multiset());
    }
    out
}

impl Split {
    /// Record a split; the new row gets the next free identifier, which is
    /// returned.
    pub fn insert(store: &mut Store, split: &NewSplit) -> (id: i64)
        requires
            old(store).wf(),
            old(store).next_split_id < i64::MAX,
            split.split_time_ms >= 0,
            split.town_time_ms >= 0,
        ensures
            final(store).wf(),
            id == old(store).next_split_id,
            final(store).splits@ == old(store).splits@.push(
                (Split {
                    id: old(store).next_split_id,
                    run_id: split.run_id,
                    breakpoint_type: split.breakpoint_type,
                    breakpoint_name: split.breakpoint_name,
                    split_time_ms: split.split_time_ms,
                    delta_ms: split.delta_ms,
                    segment_time_ms: split.segment_time_ms,
                    town_time_ms: split.town_time_ms,
                    hideout_time_ms: split.hideout_time_ms,
                }),
            ),
            final(store).next_split_id == old(store).next_split_id + 1,
            final(store).runs == old(store).runs,
            final(store).snapshots == old(store).snapshots,
            final(store).personal_bests == old(store).personal_bests,
            final(store).gold_splits == old(store).gold_splits,
            final(store).next_run_id == old(store).next_run_id,
            final(store).next_snapshot_id == old(store).next_snapshot_id,
            final(store).next_pb_id == old(store).next_pb_id,
            final(store).next_gold_id == old(store).next_gold_id,
    {
        let id = store.next_split_id;
        let row = Split {
            id,
            run_id: split.run_id,
            breakpoint_type: split.breakpoint_type.clone(),
            breakpoint_name: split.breakpoint_name.clone(),
            split_time_ms: split.split_time_ms,
            delta_ms: split.delta_ms,
            segment_time_ms: split.segment_time_ms,
            town_time_ms: split.town_time_ms,
            hideout_time_ms: split.hideout_time_ms,
        };
        store.splits.push(row);
        store.next_split_id = id + 1;
        id
    }

    /// The splits of a run, earliest split time first.
    pub fn get_by_run(store: &Store, run_id: i64) -> (out: Vec<Split>)
        requires
            store.wf(),
        ensures
            out@.to_multiset() == spec_splits_of_run(store.splits@, run_id).to_multiset(),
            splits_sorted_asc(out@),
    {
        let n = store.splits.len();
        let mut sel: Vec<Split> = Vec::new();
        let mut i: usize = 0;
        while i < n
            invariant
                n == store.splits@.len(),
                0 <= i <= n,
                sel@ == spec_splits_of_run(store.splits@.take(i as int), run_id),
            decreases n - i,
        {
            proof {
                assert(store.splits@.take(i + 1).drop_last() =~= store.splits@.take(i as int));
                assert(store.splits@.take(i + 1).last() == store.splits@[i as int]);
            }
            if store.splits[i].run_id == run_id {
                sel.push(clone_split(&store.splits[i]));
            }
            i = i + 1;
        }
        proof {
            assert(store.splits@.take(n as int) =~= store.splits@);
        }
        sort_splits_asc(sel)
    }
}

/// Import a reference run together with its splits: each split's segment
/// time is the difference to the previous split's time, and town and
/// hideout times are zero. Returns the new run's identifier.
pub fn create_reference_run(store: &mut Store, data: &ReferenceRunData, started_at: String) -> (id:
    i64)
    requires
        old(store).wf(),
        old(store).next_run_id < i64::MAX,
        old(store).next_split_id + data.splits@.len() < i64::MAX,
        data.total_time_ms >= 0,
        forall|i: int| 0 <= i < data.splits@.len() ==> #[trigger] data.splits@[i].split_time_ms >= 0,
    ensures
        final(store).wf(),
        id == old(store).next_run_id,
        final(store).runs@.len() == old(store).runs@.len() + 1,
        final(store).runs@.take(old(store).runs@.len() as int) == old(store).runs@,
        spec_reference_row_ok(final(store).runs@.last(), *data, id, started_at),
        final(store).next_run_id == old(store).next_run_id + 1,
        final(store).splits@.len() == old(store).splits@.len() + data.splits@.len(),
        final(store).splits@.take(old(store).splits@.len() as int) == old(store).splits@,
        forall|i: int|
            0 <= i < data.splits@.len() ==> spec_ref_split_ok(
                #[trigger] final(store).splits@[old(store).splits@.len() + i],
                *data,
                id,
                old(store).next_split_id,
                i,
            ),
        final(store).next_split_id == old(store).next_split_id + data.splits@.len(),
        final(store).snapshots == old(store).snapshots,
        final(store).personal_bests == old(store).personal_bests,
        final(store).gold_splits == old(store).gold_splits,
        final(store).next_snapshot_id == old(store).next_snapshot_id,
        final(store).next_pb_id == old(store).next_pb_id,
        final(store).next_gold_id == old(store).next_gold_id,
{
    let run_id = Run::insert_reference(store, data, started_at);
    let ghost mid = *store;
    let ghost base = old(store).splits@.len() as int;
    let n = data.splits.len();
    let mut prev_time: i64 = 0;
    let mut i: usize = 0;
    while i < n
        invariant
            n == data.splits@.len(),
            0 <= i <= n,
            store.wf(),
            store.runs == mid.runs,
            store.next_run_id == mid.next_run_id,
            store.snapshots == mid.snapshots,
            store.personal_bests == mid.personal_bests,
            store.gold_splits == mid.gold_splits,
            store.next_snapshot_id == mid.next_snapshot_id,
            store.next_pb_id == mid.next_pb_id,
            store.next_gold_id == mid.next_gold_id,
            mid.splits@.len() == base,
            store.splits@.len() == base + i,
            store.splits@.take(base) == mid.splits@,
            store.next_split_id == mid.next_split_id + i,
            mid.next_split_id + n < i64::MAX,
            run_id == mid.next_run_id - 1,
            forall|q: int| 0 <= q < n ==> #[trigger] data.splits@[q].split_time_ms >= 0,
            forall|q: int|
                0 <= q < i ==> spec_ref_split_ok(
                    #[trigger] store.splits@[base + q],
                    *data,
                    run_id,
                    mid.next_split_id,
                    q,
                ),
            prev_time == (if i == 0 {
                0int
            } else {
                data.splits@[i - 1].split_time_ms as int
            }),
            prev_time >= 0,
        decreases n - i,
    {
        let d = &data.splits[i];
        let segment = d.split_time_ms - prev_time;
        let ns = NewSplit {
            run_id,
            breakpoint_type: d.breakpoint_type.clone(),
            breakpoint_name: d.breakpoint_name.clone(),
            split_time_ms: d.split_time_ms,
            delta_ms: None,
            segment_time_ms: segment,
            town_time_ms: 0,
            hideout_time_ms: 0,
        };
        let ghost before = store.splits@;
        Split::insert(store, &ns);
        proof {
            assert(store.splits@.take(base) =~= before.take(base));
            assert forall|q: int|
                0 <= q < i + 1 implies spec_ref_split_ok(
                #[trigger] store.splits@[base + q],
                *data,
                run_id,
                mid.next_split_id,
                q,
            ) by {
                if q < i {
                    assert(store.splits@[base + q] == before[base + q]);
                }
            }
        }
        prev_time = d.split_time_ms;
        i = i + 1;
    }
    proof {
        assert(store.splits@.take(base) =~= mid.splits@);
    }
    run_id
}

/// The fields of an imported reference run's row: defaulted strings are
/// pinned by their text (an absent character name becomes empty, an absent
/// league becomes "Standard").
pub open spec fn spec_reference_row_ok(
    row: Run,
    data: ReferenceRunData,
    id: i64,
    started_at: String,
) -> bool {
    &&& row.id == id
    &&& row.character_name@ == (match data.character_name {
        Some(c) => c@,
        None => Seq::<char>::empty(),
    })
    &&& row.account_name@ == Seq::<char>::empty()
    &&& row.class == data.class
    &&& row.ascendancy == data.ascendancy
    &&& row.league@ == (match data.league {
        Some(l) => l@,
        None => "Standard"@,
    })
    &&& row.category == data.category
    &&& row.started_at == started_at
    &&& row.ended_at is None
    &&& row.total_time_ms == Some(data.total_time_ms)
    &&& row.is_completed
    &&& !row.is_personal_best
    &&& row.breakpoint_preset == data.breakpoint_preset
    &&& row.enabled_breakpoints == data.enabled_breakpoints
    &&& row.is_reference
    &&& row.source_name == Some(data.source_name)
}

/// The fields of the `i`-th split imported with a reference run: its
/// segment time is the difference to the previous split's time.
pub open spec fn spec_ref_split_ok(
    sp: Split,
    data: ReferenceRunData,
    run_id: i64,
    first_id: i64,
    i: int,
) -> bool {
    &&& sp.id == first_id + i
    &&& sp.run_id == run_id
    &&& sp.breakpoint_type == data.splits@[i].breakpoint_type
    &&& sp.breakpoint_name == data.splits@[i].breakpoint_name
    &&& sp.split_time_ms == data.splits@[i].split_time_ms
    &&& sp.delta_ms is None
    &&& sp.segment_time_ms == data.splits@[i].split_time_ms - (if i == 0 {
        0int
    } else {
        data.splits@[i - 1].split_time_ms as int
    })
    &&& sp.town_time_ms == 0
    &&& sp.hideout_time_ms == 0
}

// ---------------------------------------------------------------------------
// Snapshots
// ---------------------------------------------------------------------------

/// The snapshots recorded under a run, in table order.
pub open spec fn spec_snapshots_of_run(ss: Seq<Snapshot>, run_id: i64) -> Seq<Snapshot>
    decreases ss.len(),
{
    if ss.len() == 0 {
        Seq::empty()
    } else if ss.last().run_id == run_id {
        spec_snapshots_of_run(ss.drop_last(), run_id).push(ss.last())
    } else {
        spec_snapshots_of_run(ss.drop_last(), run_id)
    }
}

/// Snapshots listed from earliest to latest elapsed time.
pub open spec fn snapshots_sorted_asc(s: Seq<Snapshot>) -> bool {
    forall|i: int, j: int|
        0 <= i < j < s.len() ==> #[trigger] s[i].elapsed_time_ms <= #[trigger] s[j].elapsed_time_ms
}

/// The first snapshot, in table order, recorded at a split.
pub open spec fn spec_first_snapshot_of_split(ss: Seq<Snapshot>, split_id: i64) -> Option<Snapshot>
    decreases ss.len(),
{
    if ss.len() == 0 {
        None
    } else if ss[0].split_id == split_id {
        Some(ss[0])
    } else {
        spec_first_snapshot_of_split(ss.drop_first(), split_id)
    }
}

pub open spec fn spec_has_snapshot(ss: Seq<Snapshot>, id: i64) -> bool {
    exists|i: int| 0 <= i < ss.len() && ss[i].id == id
}

pub open spec fn spec_snapshot_index(ss: Seq<Snapshot>, id: i64) -> int {
    choose|i: int| 0 <= i < ss.len() && ss[i].id == id
}

proof fn lemma_snapshot_index_is(ss: Seq<Snapshot>, id: i64, i: int)
    requires
        forall|a: int, b: int| 0 <= a < b < ss.len() ==> ss[a].id != ss[b].id,
        0 <= i < ss.len(),
        ss[i].id == id,
    ensures
        spec_has_snapshot(ss, id),
        spec_snapshot_index(ss, id) == i,
{
    let j = spec_snapshot_index(ss, id);
    if j != i {
        if j < i {
            assert(ss[j].id != ss[i].id);
        } else {
            assert(ss[i].id != ss[j].id);
        }
    }
}

/// Sort snapshots by ascending elapsed time (ties keep no particular
/// order).
fn sort_snapshots_asc(mut v: Vec<Snapshot>) -> (out: Vec<Snapshot>)
    ensures
        out@.to_multiset() == v@.to_multiset(),
        snapshots_sorted_asc(out@),
{
    let ghost orig = v@;
    let mut out: Vec<Snapshot> = Vec::new();
    while v.len() > 0
        invariant
            out@.to_multiset().add(v@.to_multiset()) =~= orig.to_multiset(),
            snapshots_sorted_asc(out@),
            forall|a: int, b: int|
                0 <= a < out@.len() && 0 <= b < v@.len() ==> #[trigger] out@[a].elapsed_time_ms
                    <= #[trigger] v@[b].elapsed_time_ms,
        decreases v@.len(),
    {
        let n = v.len();
        let mut best: usize = 0;
        let mut j: usize = 1;
        while j < n
            invariant
                n == v@.len(),
                0 < n,
                best < j <= n,
                forall|q: int|
                    0 <= q < j ==> v@[best as int].elapsed_time_ms <= #[trigger] v@[
                    q].elapsed_time_ms,
            decreases n - j,
        {
            if v[j].elapsed_time_ms < v[best].elapsed_time_ms {
                best = j;
            }
            j = j + 1;
        }
        let x = v.remove(best);
        out.push(x);
    }
    proof {
        assert(v@.to_multiset() =~= Multiset::<Snapshot>::empty());
        assert(out@.to_multiset() =~= orig.to_multiset());
    }
    out
}

impl Snapshot {
    /// Record a snapshot; the new row gets the next free identifier, which
    /// is returned.
    pub fn insert(store: &mut Store, snapshot: &NewSnapshot) -> (id: i64)
        requires
            old(store).wf(),
            old(store).next_snapshot_id < i64::MAX,
        ensures
            final(store).wf(),
            id == old(store).next_snapshot_id,
            final(store).snapshots@ == old(store).snapshots@.push(
                (Snapshot {
                    id: old(store).next_snapshot_id,
                    run_id: snapshot.run_id,
                    split_id: snapshot.split_id,
                    timestamp: snapshot.timestamp,
                    elapsed_time_ms: snapshot.elapsed_time_ms,
                    character_level: snapshot.character_level,
                    items_json: snapshot.items_json,
                    skills_json: snapshot.skills_json,
                    passive_tree_json: snapshot.passive_tree_json,
                    stats_json: snapshot.stats_json,
                    pob_code: snapshot.pob_code,
                }),
            ),
            final(store).next_snapshot_id == old(store).next_snapshot_id + 1,
            final(store).runs == old(store).runs,
            final(store).splits == old(store).splits,
            final(store).personal_bests == old(store).personal_bests,
            final(store).gold_splits == old(store).gold_splits,
            final(store).next_run_id == old(store).next_run_id,
            final(store).next_split_id == old(store).next_split_id,
            final(store).next_pb_id == old(store).next_pb_id,
            final(store).next_gold_id == old(store).next_gold_id,
    {
        let id = store.next_snapshot_id;
        let row = Snapshot {
            id,
            run_id: snapshot.run_id,
            split_id: snapshot.split_id,
            timestamp: snapshot.timestamp.clone(),
            elapsed_time_ms: snapshot.elapsed_time_ms,
            character_level: snapshot.character_level,
            items_json: snapshot.items_json.clone(),
            skills_json: snapshot.skills_json.clone(),
            passive_tree_json: snapshot.passive_tree_json.clone(),
            stats_json: snapshot.stats_json.clone(),
            pob_code: clone_opt_string(&snapshot.pob_code),
        };
        store.snapshots.push(row);
        store.next_snapshot_id = id + 1;
        id
    }

    /// The snapshots of a run, earliest elapsed time first.
    pub fn get_by_run(store: &Store, run_id: i64) -> (out: Vec<Snapshot>)
        requires
            store.wf(),
        ensures
            out@.to_multiset() == spec_snapshots_of_run(store.snapshots@, run_id).to_multiset(),
            snapshots_sorted_asc(out@),
    {
        let n = store.snapshots.len();
        let mut sel: Vec<Snapshot> = Vec::new();
        let mut i: usize = 0;
        while i < n
            invariant
                n == store.snapshots@.len(),
                0 <= i <= n,
                sel@ == spec_snapshots_of_run(store.snapshots@.take(i as int), run_id),
            decreases n - i,
        {
            proof {
                assert(store.snapshots@.take(i + 1).drop_last() =~= store.snapshots@.take(
                    i as int,
                ));
                assert(store.snapshots@.take(i + 1).last() == store.snapshots@[i as int]);
            }
            if store.snapshots[i].run_id == run_id {
                sel.push(clone_snapshot(&store.snapshots[i]));
            }
            i = i + 1;
        }
        proof {
            assert(store.snapshots@.take(n as int) =~= store.snapshots@);
        }
        sort_snapshots_asc(sel)
    }

    /// The snapshot with this id, if present.
    #[verifier::loop_isolation(false)]
    pub fn get_by_id(store: &Store, id: i64) -> (r: Option<Snapshot>)
        requires
            store.wf(),
        ensures
            (match r {
                Some(s) => spec_has_snapshot(store.snapshots@, id) && s == store.snapshots@[
                    spec_snapshot_index(store.snapshots@, id)],
                None => !spec_has_snapshot(store.snapshots@, id),
            }),
    {
        let n = store.snapshots.len();
        let mut i: usize = 0;
        while i < n
            invariant
                n == store.snapshots@.len(),
                0 <= i <= n,
                forall|q: int| 0 <= q < i ==> store.snapshots@[q].id != id,
            decreases n - i,
        {
            if store.snapshots[i].id == id {
                proof {
                    lemma_snapshot_index_is(store.snapshots@, id, i as int);
                }
                return Some(clone_snapshot(&store.snapshots[i]));
            }
            i = i + 1;
        }
        None
    }

    /// The first snapshot recorded at a split, in table order, if any.
    #[verifier::loop_isolation(false)]
    pub fn get_by_split(store: &Store, split_id: i64) -> (r: Option<Snapshot>)
        requires
            store.wf(),
        ensures
            (match r {
                Some(s) => spec_first_snapshot_of_split(store.snapshots@, split_id) == Some(s),
                None => spec_first_snapshot_of_split(store.snapshots@, split_id) is None,
            }),
    {
        let n = store.snapshots.len();
        let mut i: usize = 0;
        proof {
            assert(store.snapshots@.skip(0) =~= store.snapshots@);
        }
        while i < n
            invariant
                n == store.snapshots@.len(),
                0 <= i <= n,
                spec_first_snapshot_of_split(store.snapshots@, split_id)
                    == spec_first_snapshot_of_split(store.snapshots@.skip(i as int), split_id),
            decreases n - i,
        {
            proof {
                assert(store.snapshots@.skip(i as int)[0] == store.snapshots@[i as int]);
                assert(store.snapshots@.skip(i as int).drop_first() =~= store.snapshots@.skip(
                    i + 1,
                ));
            }
            if store.snapshots[i].split_id == split_id {
                return Some(clone_snapshot(&store.snapshots[i]));
            }
            i = i + 1;
        }
        proof {
            assert(store.snapshots@.skip(n as int) =~= Seq::<Snapshot>::empty());
        }
        None
    }
}

// ---------------------------------------------------------------------------
// Personal bests and gold splits
// ---------------------------------------------------------------------------

pub open spec fn spec_has_pb(ps: Seq<PersonalBest>, category: Seq<char>, class: Seq<char>) -> bool {
    exists|i: int| 0 <= i < ps.len() && ps[i].category@ == category && ps[i].class@ == class
}

pub open spec fn spec_pb_index(ps: Seq<PersonalBest>, category: Seq<char>, class: Seq<char>) -> int {
    choose|i: int| 0 <= i < ps.len() && ps[i].category@ == category && ps[i].class@ == class
}

proof fn lemma_pb_index_is(ps: Seq<PersonalBest>, category: Seq<char>, class: Seq<char>, i: int)
    requires
        forall|a: int, b: int|
            0 <= a < b < ps.len() ==> !(ps[a].category@ == ps[b].category@ && ps[a].class@
                == ps[b].class@),
        0 <= i < ps.len(),
        ps[i].category@ == category,
        ps[i].class@ == class,
    ensures
        spec_has_pb(ps, category, class),
        spec_pb_index(ps, category, class) == i,
{
    let j = spec_pb_index(ps, category, class);
    if j != i {
        if j < i {
            assert(!(ps[j].category@ == ps[i].category@ && ps[j].class@ == ps[i].class@));
        } else {
            assert(!(ps[i].category@ == ps[j].category@ && ps[i].class@ == ps[j].class@));
        }
    }
}

impl PersonalBest {
    /// Record a completed time: the first time for a category and class
    /// creates the record, a strictly better time supersedes it, anything
    /// else leaves it standing. Returns whether the time became the
    /// record.
    #[verifier::loop_isolation(false)]
    pub fn get_or_create(
        store: &mut Store,
        category: String,
        class: String,
        run_id: i64,
        total_time_ms: i64,
    ) -> (is_best: bool)
        requires
            old(store).wf(),
            old(store).next_pb_id < i64::MAX,
        ensures
            final(store).wf(),
            !spec_has_pb(old(store).personal_bests@, category@, class@) ==> is_best && final(store).personal_bests@ == old(store).personal_bests@.push(
                (PersonalBest {
                    id: old(store).next_pb_id,
                    category: category,
                    class: class,
                    run_id: run_id,
                    total_time_ms: total_time_ms,
                }),
            ) && final(store).next_pb_id == old(store).next_pb_id + 1,
            spec_has_pb(old(store).personal_bests@, category@, class@) && total_time_ms < old(
                store,
            ).personal_bests@[spec_pb_index(old(store).personal_bests@, category@, class@)].total_time_ms
                ==> is_best && final(store).personal_bests@ == old(store).personal_bests@.update(
                spec_pb_index(old(store).personal_bests@, category@, class@),
                (PersonalBest {
                    run_id: run_id,
                    total_time_ms: total_time_ms,
                    ..old(store).personal_bests@[spec_pb_index(
                        old(store).personal_bests@,
                        category@,
                        class@,
                    )]
                }),
            ) && final(store).next_pb_id == old(store).next_pb_id,
            spec_has_pb(old(store).personal_bests@, category@, class@) && total_time_ms >= old(
                store,
            ).personal_bests@[spec_pb_index(old(store).personal_bests@, category@, class@)].total_time_ms
                ==> !is_best && final(store).personal_bests@ == old(store).personal_bests@ && final(store).next_pb_id == old(store).next_pb_id,
            final(store).runs == old(store).runs,
            final(store).splits == old(store).splits,
            final(store).snapshots == old(store).snapshots,
            final(store).gold_splits == old(store).gold_splits,
            final(store).next_run_id == old(store).next_run_id,
            final(store).next_split_id == old(store).next_split_id,
            final(store).next_snapshot_id == old(store).next_snapshot_id,
            final(store).next_gold_id == old(store).next_gold_id,
    {
        let n = store.personal_bests.len();
        let mut i: usize = 0;
        while i < n
            invariant
                *store == *old(store),
                n == store.personal_bests@.len(),
                0 <= i <= n,
                forall|q: int|
                    0 <= q < i ==> !(store.personal_bests@[q].category@ == category@
                        && store.personal_bests@[q].class@ == class@),
            decreases n - i,
        {
            if str_eq(store.personal_bests[i].category.as_str(), category.as_str()) && str_eq(
                store.personal_bests[i].class.as_str(),
                class.as_str(),
            ) {
                proof {
                    lemma_pb_index_is(store.personal_bests@, category@, class@, i as int);
                }
                if total_time_ms < store.personal_bests[i].total_time_ms {
                    let mut row = store.personal_bests.remove(i);
                    row.run_id = run_id;
                    row.total_time_ms = total_time_ms;
                    store.personal_bests.insert(i, row);
                    proof {
                        assert(store.personal_bests@ =~= old(store).personal_bests@.update(
                            i as int,
                            (PersonalBest {
                                run_id: run_id,
                                total_time_ms: total_time_ms,
                                ..old(store).personal_bests@[i as int]
                            }),
                        ));
                    }
                    return true;
                } else {
                    return false;
                }
            }
            i = i + 1;
        }
        let id = store.next_pb_id;
        store.personal_bests.push(
            PersonalBest { id, category, class, run_id, total_time_ms },
        );
        store.next_pb_id = id + 1;
        true
    }

    /// Every personal best, in table order.
    pub fn get_all(store: &Store) -> (out: Vec<PersonalBest>)
        requires
            store.wf(),
        ensures
            out@ == store.personal_bests@,
    {
        let n = store.personal_bests.len();
        let mut out: Vec<PersonalBest> = Vec::new();
        let mut i: usize = 0;
        while i < n
            invariant
                n == store.personal_bests@.len(),
                0 <= i <= n,
                out@ =~= store.personal_bests@.take(i as int),
            decreases n - i,
        {
            out.push(clone_personal_best(&store.personal_bests[i]));
            proof {
                assert(out@ =~= store.personal_bests@.take(i + 1));
            }
            i = i + 1;
        }
        proof {
            assert(out@ =~= store.personal_bests@);
        }
        out
    }
}

pub open spec fn spec_has_gold(gs: Seq<GoldSplit>, category: Seq<char>, name: Seq<char>) -> bool {
    exists|i: int| 0 <= i < gs.len() && gs[i].category@ == category && gs[i].breakpoint_name@ == name
}

pub open spec fn spec_gold_index(gs: Seq<GoldSplit>, category: Seq<char>, name: Seq<char>) -> int {
    choose|i: int| 0 <= i < gs.len() && gs[i].category@ == category && gs[i].breakpoint_name@ == name
}

proof fn lemma_gold_index_is(gs: Seq<GoldSplit>, category: Seq<char>, name: Seq<char>, i: int)
    requires
        forall|a: int, b: int|
            0 <= a < b < gs.len() ==> !(gs[a].category@ == gs[b].category@ && gs[a].breakpoint_name@
                == gs[b].breakpoint_name@),
        0 <= i < gs.len(),
        gs[i].category@ == category,
        gs[i].breakpoint_name@ == name,
    ensures
        spec_has_gold(gs, category, name),
        spec_gold_index(gs, category, name) == i,
{
    let j = spec_gold_index(gs, category, name);
    if j != i {
        if j < i {
            assert(!(gs[j].category@ == gs[i].category@ && gs[j].breakpoint_name@
                == gs[i].breakpoint_name@));
        } else {
            assert(!(gs[i].category@ == gs[j].category@ && gs[i].breakpoint_name@
                == gs[j].breakpoint_name@));
        }
    }
}

impl GoldSplit {
    /// Record a segment time at a breakpoint: the first time for a
    /// category and breakpoint creates the record, a strictly better
    /// segment supersedes it, anything else leaves it standing. Returns
    /// whether the segment became the record.
    #[verifier::loop_isolation(false)]
    pub fn update_if_better(
        store: &mut Store,
        category: String,
        breakpoint_name: String,
        segment_ms: i64,
    ) -> (is_gold: bool)
        requires
            old(store).wf(),
            old(store).next_gold_id < i64::MAX,
        ensures
            final(store).wf(),
            !spec_has_gold(old(store).gold_splits@, category@, breakpoint_name@) ==> is_gold
                && final(store).gold_splits@ == old(store).gold_splits@.push(
                (GoldSplit {
                    id: old(store).next_gold_id,
                    category: category,
                    breakpoint_name: breakpoint_name,
                    best_segment_ms: segment_ms,
                }),
            ) && final(store).next_gold_id == old(store).next_gold_id + 1,
            spec_has_gold(old(store).gold_splits@, category@, breakpoint_name@) && segment_ms < old(
                store,
            ).gold_splits@[spec_gold_index(
                old(store).gold_splits@,
                category@,
                breakpoint_name@,
            )].best_segment_ms ==> is_gold && final(store).gold_splits@ == old(
                store,
            ).gold_splits@.update(
                spec_gold_index(old(store).gold_splits@, category@, breakpoint_name@),
                (GoldSplit {
                    best_segment_ms: segment_ms,
                    ..old(store).gold_splits@[spec_gold_index(
                        old(store).gold_splits@,
                        category@,
                        breakpoint_name@,
                    )]
                }),
            ) && final(store).next_gold_id == old(store).next_gold_id,
            spec_has_gold(old(store).gold_splits@, category@, breakpoint_name@) && segment_ms
                >= old(store).gold_splits@[spec_gold_index(
                old(store).gold_splits@,
                category@,
                breakpoint_name@,
            )].best_segment_ms ==> !is_gold && final(store).gold_splits@ == old(store).gold_splits@
                && final(store).next_gold_id == old(store).next_gold_id,
            final(store).runs == old(store).runs,
            final(store).splits == old(store).splits,
            final(store).snapshots == old(store).snapshots,
            final(store).personal_bests == old(store).personal_bests,
            final(store).next_run_id == old(store).next_run_id,
            final(store).next_split_id == old(store).next_split_id,
            final(store).next_snapshot_id == old(store).next_snapshot_id,
            final(store).next_pb_id == old(store).next_pb_id,
    {
        let n = store.gold_splits.len();
        let mut i: usize = 0;
        while i < n
            invariant
                *store == *old(store),
                n == store.gold_splits@.len(),
                0 <= i <= n,
                forall|q: int|
                    0 <= q < i ==> !(store.gold_splits@[q].category@ == category@
                        && store.gold_splits@[q].breakpoint_name@ == breakpoint_name@),
            decreases n - i,
        {
            if str_eq(store.gold_splits[i].category.as_str(), category.as_str()) && str_eq(
                store.gold_splits[i].breakpoint_name.as_str(),
                breakpoint_name.as_str(),
            ) {
                proof {
                    lemma_gold_index_is(
                        store.gold_splits@,
                        category@,
                        breakpoint_name@,
                        i as int,
                    );
                }
                if segment_ms < store.gold_splits[i].best_segment_ms {
                    let mut row = store.gold_splits.remove(i);
                    row.best_segment_ms = segment_ms;
                    store.gold_splits.insert(i, row);
                    proof {
                        assert(store.gold_splits@ =~= old(store).gold_splits@.update(
                            i as int,
                            (GoldSplit {
                                best_segment_ms: segment_ms,
                                ..old(store).gold_splits@[i as int]
                            }),
                        ));
                    }
                    return true;
                } else {
                    return false;
                }
            }
            i = i + 1;
        }
        let id = store.next_gold_id;
        store.gold_splits.push(
            GoldSplit { id, category, breakpoint_name, best_segment_ms: segment_ms },
        );
        store.next_gold_id = id + 1;
        true
    }

    /// Every gold split, in table order.
    pub fn get_all(store: &Store) -> (out: Vec<GoldSplit>)
        requires
            store.wf(),
        ensures
            out@ == store.gold_splits@,
    {
        let n = store.gold_splits.len();
        let mut out: Vec<GoldSplit> = Vec::new();
        let mut i: usize = 0;
        while i < n
            invariant
                n == store.gold_splits@.len(),
                0 <= i <= n,
                out@ =~= store.gold_splits@.take(i as int),
            decreases n - i,
        {
            out.push(clone_gold_split(&store.gold_splits[i]));
            proof {
                assert(out@ =~= store.gold_splits@.take(i + 1));
            }
            i = i + 1;
        }
        proof {
            assert(out@ =~= store.gold_splits@);
        }
        out
    }
}

// ---------------------------------------------------------------------------
// Per-breakpoint statistics
// ---------------------------------------------------------------------------

/// Does some run selected by the filter carry this id?
pub open spec fn spec_run_in_scope(runs: Seq<Run>, f: RunFilters, run_id: i64) -> bool {
    exists|i: int| 0 <= i < runs.len() && spec_matches_filter(runs[i], f) && runs[i].id == run_id
}

/// The splits of the runs a filter selects, in table order.
pub open spec fn spec_scope_splits(ss: Seq<Split>, runs: Seq<Run>, f: RunFilters) -> Seq<Split>
    decreases ss.len(),
{
    if ss.len() == 0 {
        Seq::empty()
    } else if spec_run_in_scope(runs, f, ss.last().run_id) {
        spec_scope_splits(ss.drop_last(), runs, f).push(ss.last())
    } else {
        spec_scope_splits(ss.drop_last(), runs, f)
    }
}

/// The members of a breakpoint's group among the in-scope splits.
pub open spec fn spec_group(ss: Seq<Split>, name: Seq<char>) -> Seq<Split>
    decreases ss.len(),
{
    if ss.len() == 0 {
        Seq::empty()
    } else if ss.last().breakpoint_name@ == name {
        spec_group(ss.drop_last(), name).push(ss.last())
    } else {
        spec_group(ss.drop_last(), name)
    }
}

pub open spec fn spec_sum_split_time(g: Seq<Split>) -> int
    decreases g.len(),
{
    if g.len() == 0 {
        0
    } else {
        spec_sum_split_time(g.drop_last()) + g.last().split_time_ms as int
    }
}

pub open spec fn spec_sum_town_time(g: Seq<Split>) -> int
    decreases g.len(),
{
    if g.len() == 0 {
        0
    } else {
        spec_sum_town_time(g.drop_last()) + g.last().town_time_ms as int
    }
}

pub open spec fn spec_min_split_time(g: Seq<Split>) -> Option<int>
    decreases g.len(),
{
    if g.len() == 0 {
        None
    } else {
        let t = g.last().split_time_ms as int;
        match spec_min_split_time(g.drop_last()) {
            Some(m) => if t < m {
                Some(t)
            } else {
                Some(m)
            },
            None => Some(t),
        }
    }
}

/// One entry of the statistics listing: the counted, averaged and least
/// times of its breakpoint's group.
pub open spec fn spec_stat_ok(st: SplitStat, scope: Seq<Split>) -> bool {
    let g = spec_group(scope, st.breakpoint_name@);
    &&& g.len() > 0
    &&& st.run_count == g.len()
    &&& st.average_time_ms == spec_sum_split_time(g) / g.len() as int
    &&& st.average_town_time_ms == spec_sum_town_time(g) / g.len() as int
    &&& spec_min_split_time(g) == Some(st.best_time_ms as int)
}

/// A split whose breakpoint occurs among the in-scope splits makes its
/// group nonempty.
proof fn lemma_group_nonempty(scope: Seq<Split>, name: Seq<char>, q: int)
    requires
        0 <= q < scope.len(),
        scope[q].breakpoint_name@ == name,
    ensures
        spec_group(scope, name).len() > 0,
    decreases scope.len(),
{
    if q + 1 < scope.len() {
        assert(scope.drop_last()[q] == scope[q]);
        lemma_group_nonempty(scope.drop_last(), name, q);
    }
}

/// Group members carry the group's breakpoint name and come from the
/// in-scope splits.
proof fn lemma_group_members(scope: Seq<Split>, name: Seq<char>)
    ensures
        forall|i: int|
            0 <= i < spec_group(scope, name).len() ==> (#[trigger] spec_group(scope, name)[
            i]).breakpoint_name@ == name && exists|j: int|
                0 <= j < scope.len() && scope[j] == spec_group(scope, name)[i],
    decreases scope.len(),
{
    if scope.len() > 0 {
        lemma_group_members(scope.drop_last(), name);
        let f = spec_group(scope, name);
        let g = spec_group(scope.drop_last(), name);
        assert forall|i: int| 0 <= i < f.len() implies (#[trigger] f[i]).breakpoint_name@ == name
            && exists|j: int| 0 <= j < scope.len() && scope[j] == f[i] by {
            if i < g.len() {
                assert(f[i] == g[i]);
                let j = choose|j: int| 0 <= j < scope.drop_last().len() && scope.drop_last()[j]
                    == g[i];
                assert(scope[j] == f[i]);
            } else {
                assert(scope[scope.len() - 1] == f[i]);
            }
        }
    }
}

/// In-scope splits carry the store's time bounds with them.
proof fn lemma_scope_times(ss: Seq<Split>, runs: Seq<Run>, f: RunFilters)
    requires
        forall|i: int|
            0 <= i < ss.len() ==> (#[trigger] ss[i].split_time_ms >= 0 && ss[i].town_time_ms >= 0),
    ensures
        forall|i: int|
            0 <= i < spec_scope_splits(ss, runs, f).len() ==> (#[trigger] spec_scope_splits(
                ss,
                runs,
                f,
            )[i].split_time_ms >= 0 && spec_scope_splits(ss, runs, f)[i].town_time_ms >= 0),
    decreases ss.len(),
{
    if ss.len() > 0 {
        assert forall|i: int|
            0 <= i < ss.drop_last().len() implies (#[trigger] ss.drop_last()[i].split_time_ms >= 0
            && ss.drop_last()[i].town_time_ms >= 0) by {
            assert(ss.drop_last()[i] == ss[i]);
        }
        lemma_scope_times(ss.drop_last(), runs, f);
    }
}

/// Is the run with this id selected by the filter?
fn run_in_scope(runs: &Vec<Run>, f: &RunFilters, run_id: i64) -> (b: bool)
    ensures
        b == spec_run_in_scope(runs@, *f, run_id),
{
    let n = runs.len();
    let mut i: usize = 0;
    while i < n
        invariant
            n == runs@.len(),
            0 <= i <= n,
            forall|q: int|
                0 <= q < i ==> !(spec_matches_filter(#[trigger] runs@[q], *f) && runs@[q].id
                    == run_id),
        decreases n - i,
    {
        if runs[i].id == run_id && matches_filter(&runs[i], f) {
            return true;
        }
        i = i + 1;
    }
    false
}

/// Is this breakpoint name already listed?
fn name_listed(names: &Vec<String>, name: &str) -> (b: bool)
    ensures
        b == spec_name_listed(names@, name@),
{
    let n = names.len();
    let mut i: usize = 0;
    while i < n
        invariant
            n == names@.len(),
            0 <= i <= n,
            forall|q: int| 0 <= q < i ==> names@[q]@ != name@,
        decreases n - i,
    {
        if str_eq(names[i].as_str(), name) {
            return true;
        }
        i = i + 1;
    }
    false
}

/// The statistics entry of one breakpoint among the in-scope splits.
#[verifier::loop_isolation(false)]
fn group_stats(scope: &Vec<Split>, name: &str) -> (entry: SplitStat)
    requires
        scope@.len() <= i64::MAX,
        forall|q: int|
            0 <= q < scope@.len() ==> (#[trigger] scope@[q].split_time_ms >= 0
                && scope@[q].town_time_ms >= 0),
        spec_name_occurs(scope@, name@),
    ensures
        spec_stat_ok(entry, scope@),
        entry.breakpoint_name@ == name@,
{
    let ghost sc = scope@;
    let cn = scope.len();
    let mut cnt: i64 = 0;
    let mut sum_time: u128 = 0;
    let mut sum_town: u128 = 0;
    let mut min_time: i64 = 0;
    let mut m: usize = 0;
    proof {
        assert(sc.take(0) =~= Seq::<Split>::empty());
    }
    while m < cn
        invariant
            0 <= m <= cn,
            cnt == spec_group(sc.take(m as int), name@).len(),
            0 <= cnt <= m,
            sum_time == spec_sum_split_time(spec_group(sc.take(m as int), name@)),
            sum_town == spec_sum_town_time(spec_group(sc.take(m as int), name@)),
            sum_time <= cnt as int * (i64::MAX as int),
            sum_town <= cnt as int * (i64::MAX as int),
            (match spec_min_split_time(spec_group(sc.take(m as int), name@)) {
                Some(v) => cnt > 0 && min_time as int == v && 0 <= v <= i64::MAX,
                None => cnt == 0,
            }),
        decreases cn - m,
    {
        proof {
            assert(sc.take(m + 1).drop_last() =~= sc.take(m as int));
            assert(sc.take(m + 1).last() == sc[m as int]);
        }
        if str_eq(scope[m].breakpoint_name.as_str(), name) {
            let t = scope[m].split_time_ms;
            let w = scope[m].town_time_ms;
            proof {
                let gprev = spec_group(sc.take(m as int), name@);
                let gnext = spec_group(sc.take(m + 1), name@);
                assert(gnext == gprev.push(sc[m as int]));
                assert(gnext.drop_last() =~= gprev);
                assert(gnext.last() == sc[m as int]);
                assert(spec_sum_split_time(gnext) == spec_sum_split_time(gprev) + t);
                assert(spec_sum_town_time(gnext) == spec_sum_town_time(gprev) + w);
                assert((cnt + 1) as int * (i64::MAX as int) == cnt as int * (i64::MAX as int)
                    + i64::MAX) by (nonlinear_arith);
                assert(sum_time + t <= (cnt + 1) as int * (i64::MAX as int));
            }
            if cnt == 0 || t < min_time {
                min_time = t;
            }
            cnt = cnt + 1;
            sum_time = sum_time + (t as u128);
            sum_town = sum_town + (w as u128);
        }
        m = m + 1;
    }
    proof {
        assert(sc.take(cn as int) =~= sc);
        let q0 = choose|q: int| 0 <= q < sc.len() && sc[q].breakpoint_name@ == name@;
        lemma_group_nonempty(sc, name@, q0);
        lemma_div_bound(sum_time as int, cnt as int, i64::MAX as int);
        lemma_div_bound(sum_town as int, cnt as int, i64::MAX as int);
    }
    let avg_time: u128 = sum_time / (cnt as u128);
    let avg_town: u128 = sum_town / (cnt as u128);
    SplitStat {
        breakpoint_name: name.to_owned(),
        average_time_ms: avg_time as i64,
        best_time_ms: min_time,
        average_town_time_ms: avg_town as i64,
        run_count: cnt,
    }
}

/// The splits of the runs a filter selects, copied in table order.
fn collect_scope(store: &Store, filters: &RunFilters) -> (scope: Vec<Split>)
    requires
        store.wf(),
    ensures
        scope@ == spec_scope_splits(store.splits@, store.runs@, *filters),
        forall|q: int|
            0 <= q < scope@.len() ==> (#[trigger] scope@[q].split_time_ms >= 0
                && scope@[q].town_time_ms >= 0),
{
    let sn = store.splits.len();
    let mut scope: Vec<Split> = Vec::new();
    let mut i: usize = 0;
    while i < sn
        invariant
            sn == store.splits@.len(),
            0 <= i <= sn,
            scope@ == spec_scope_splits(store.splits@.take(i as int), store.runs@, *filters),
        decreases sn - i,
    {
        proof {
            assert(store.splits@.take(i + 1).drop_last() =~= store.splits@.take(i as int));
            assert(store.splits@.take(i + 1).last() == store.splits@[i as int]);
        }
        if run_in_scope(&store.runs, filters, store.splits[i].run_id) {
            scope.push(clone_split(&store.splits[i]));
        }
        i = i + 1;
    }
    proof {
        assert(store.splits@.take(sn as int) =~= store.splits@);
        lemma_scope_times(store.splits@, store.runs@, *filters);
    }
    scope
}

/// Does this breakpoint name occur among the splits?
pub open spec fn spec_name_occurs(scope: Seq<Split>, name: Seq<char>) -> bool {
    exists|q: int| 0 <= q < scope.len() && scope[q].breakpoint_name@ == name
}

/// Is this breakpoint name in the listing?
pub open spec fn spec_name_listed(names: Seq<String>, name: Seq<char>) -> bool {
    exists|a: int| 0 <= a < names.len() && names[a]@ == name
}

/// The distinct breakpoint names among the in-scope splits, first
/// appearance first.
fn collect_names(scope: &Vec<Split>) -> (names: Vec<String>)
    ensures
        forall|a: int, b: int|
            #![trigger names@[a], names@[b]]
            0 <= a < b < names@.len() ==> names@[a]@ != names@[b]@,
        forall|a: int|
            0 <= a < names@.len() ==> spec_name_occurs(scope@, (#[trigger] names@[a])@),
        forall|q: int|
            0 <= q < scope@.len() ==> spec_name_listed(
                names@,
                (#[trigger] scope@[q]).breakpoint_name@,
            ),
{
    let cn = scope.len();
    let mut names: Vec<String> = Vec::new();
    let mut k: usize = 0;
    while k < cn
        invariant
            cn == scope@.len(),
            0 <= k <= cn,
            forall|a: int, b: int|
                #![trigger names@[a], names@[b]]
                0 <= a < b < names@.len() ==> names@[a]@ != names@[b]@,
            forall|a: int|
                0 <= a < names@.len() ==> spec_name_occurs(scope@, (#[trigger] names@[a])@),
            forall|q: int|
                0 <= q < k ==> spec_name_listed(
                    names@,
                    (#[trigger] scope@[q]).breakpoint_name@,
                ),
        decreases cn - k,
    {
        let ghost prev_names = names@;
        if !name_listed(&names, scope[k].breakpoint_name.as_str()) {
            names.push(scope[k].breakpoint_name.clone());
            proof {
                assert(names@[names@.len() - 1]@ == scope@[k as int].breakpoint_name@);
                assert(forall|a: int|
                    0 <= a < prev_names.len() ==> names@[a] == #[trigger] prev_names[a]);
                assert(spec_name_occurs(scope@, names@[names@.len() - 1]@));
                assert forall|q: int| 0 <= q < k + 1 implies spec_name_listed(
                    names@,
                    (#[trigger] scope@[q]).breakpoint_name@,
                ) by {
                    if q < k {
                        let a = choose|a: int|
                            0 <= a < prev_names.len() && prev_names[a]@ == scope@[
                                q].breakpoint_name@;
                        assert(names@[a]@ == scope@[q].breakpoint_name@);
                    } else {
                        assert(names@[names@.len() - 1]@ == scope@[q].breakpoint_name@);
                    }
                }
            }
        }
        k = k + 1;
    }
    names
}

/// One statistics entry per listed name, in the listing's order.
fn build_stats(scope: &Vec<Split>, names: &Vec<String>) -> (stats: Vec<SplitStat>)
    requires
        scope@.len() <= i64::MAX,
        forall|q: int|
            0 <= q < scope@.len() ==> (#[trigger] scope@[q].split_time_ms >= 0
                && scope@[q].town_time_ms >= 0),
        forall|a: int|
            0 <= a < names@.len() ==> spec_name_occurs(scope@, (#[trigger] names@[a])@),
    ensures
        stats@.len() == names@.len(),
        forall|x: int| 0 <= x < stats@.len() ==> spec_stat_ok(#[trigger] stats@[x], scope@),
        forall|x: int|
            0 <= x < stats@.len() ==> (#[trigger] stats@[x]).breakpoint_name@ == names@[x]@,
{
    let nn = names.len();
    let mut stats: Vec<SplitStat> = Vec::new();
    let mut a: usize = 0;
    while a < nn
        invariant
            nn == names@.len(),
            scope@.len() <= i64::MAX,
            forall|q: int|
                0 <= q < scope@.len() ==> (#[trigger] scope@[q].split_time_ms >= 0
                    && scope@[q].town_time_ms >= 0),
            forall|x: int|
                0 <= x < nn ==> spec_name_occurs(scope@, (#[trigger] names@[x])@),
            0 <= a <= nn,
            stats@.len() == a,
            forall|x: int| 0 <= x < a ==> spec_stat_ok(#[trigger] stats@[x], scope@),
            forall|x: int| 0 <= x < a ==> (#[trigger] stats@[x]).breakpoint_name@ == names@[x]@,
        decreases nn - a,
    {
        let entry = group_stats(scope, names[a].as_str());
        stats.push(entry);
        a = a + 1;
    }
    stats
}

/// Sort statistics entries by ascending mean split time, keeping each
/// entry's facts and the set of listed breakpoints (ties keep no
/// particular order).
fn sort_stats_asc(mut v: Vec<SplitStat>, Ghost(sc): Ghost<Seq<Split>>) -> (out: Vec<SplitStat>)
    requires
        forall|x: int| 0 <= x < v@.len() ==> spec_stat_ok(#[trigger] v@[x], sc),
        forall|x: int, y: int|
            #![trigger v@[x], v@[y]]
            0 <= x < y < v@.len() ==> v@[x].breakpoint_name@ != v@[y].breakpoint_name@,
    ensures
        forall|x: int| 0 <= x < out@.len() ==> spec_stat_ok(#[trigger] out@[x], sc),
        forall|x: int, y: int|
            #![trigger out@[x], out@[y]]
            0 <= x < y < out@.len() ==> out@[x].breakpoint_name@ != out@[y].breakpoint_name@,
        forall|x: int, y: int|
            #![trigger out@[x].average_time_ms, out@[y].average_time_ms]
            0 <= x < y < out@.len() ==> out@[x].average_time_ms <= out@[y].average_time_ms,
        out@.to_multiset() == v@.to_multiset(),
{
    let ghost orig = v@;
    let mut out: Vec<SplitStat> = Vec::new();
    while v.len() > 0
        invariant
            forall|x: int| 0 <= x < out@.len() ==> spec_stat_ok(#[trigger] out@[x], sc),
            forall|x: int| 0 <= x < v@.len() ==> spec_stat_ok(#[trigger] v@[x], sc),
            forall|x: int, y: int|
                #![trigger out@[x], out@[y]]
                0 <= x < y < out@.len() ==> out@[x].breakpoint_name@ != out@[y].breakpoint_name@,
            forall|x: int, y: int|
                #![trigger v@[x], v@[y]]
                0 <= x < y < v@.len() ==> v@[x].breakpoint_name@ != v@[y].breakpoint_name@,
            forall|x: int, y: int|
                #![trigger out@[x], v@[y]]
                0 <= x < out@.len() && 0 <= y < v@.len() ==> out@[x].breakpoint_name@ != v@[
                    y].breakpoint_name@,
            forall|x: int, y: int|
                #![trigger out@[x].average_time_ms, out@[y].average_time_ms]
                0 <= x < y < out@.len() ==> out@[x].average_time_ms <= out@[y].average_time_ms,
            forall|x: int, y: int|
                #![trigger out@[x].average_time_ms, v@[y].average_time_ms]
                0 <= x < out@.len() && 0 <= y < v@.len() ==> out@[x].average_time_ms <= v@[
                    y].average_time_ms,
            out@.to_multiset().add(v@.to_multiset()) =~= orig.to_multiset(),
        decreases v@.len(),
    {
        let wn = v.len();
        let mut best: usize = 0;
        let mut j: usize = 1;
        while j < wn
            invariant
                wn == v@.len(),
                0 < wn,
                best < j <= wn,
                forall|q: int|
                    0 <= q < j ==> v@[best as int].average_time_ms <= #[trigger] v@[
                    q].average_time_ms,
            decreases wn - j,
        {
            if v[j].average_time_ms < v[best].average_time_ms {
                best = j;
            }
            j = j + 1;
        }
        let ghost pre = v@;
        let x = v.remove(best);
        proof {
            assert(v@ == pre.remove(best as int));
            assert forall|q: int| 0 <= q < v@.len() implies #[trigger] v@[q] == (if q < best {
                pre[q]
            } else {
                pre[q + 1]
            }) by {}
        }
        out.push(x);
    }
    proof {
        assert(v@.to_multiset() =~= Multiset::<SplitStat>::empty());
        assert(out@.to_multiset() =~= orig.to_multiset());
    }
    out
}

impl Split {
    /// Per-breakpoint statistics over the splits of the runs a filter
    /// selects: one entry per breakpoint that occurs, with its number of
    /// recorded splits, mean and least split times, and mean town time,
    /// listed from best to worst mean split time.
    pub fn get_stats(store: &Store, filters: &RunFilters) -> (out: Vec<SplitStat>)
        requires
            store.wf(),
            store.splits@.len() <= i64::MAX,
        ensures
            forall|i: int|
                0 <= i < out@.len() ==> spec_stat_ok(
                    #[trigger] out@[i],
                    spec_scope_splits(store.splits@, store.runs@, *filters),
                ),
            forall|i: int, j: int|
                #![trigger out@[i], out@[j]]
                0 <= i < j < out@.len() ==> out@[i].breakpoint_name@ != out@[j].breakpoint_name@,
            forall|name: Seq<char>|
                #[trigger] spec_group(
                    spec_scope_splits(store.splits@, store.runs@, *filters),
                    name,
                ).len() > 0 ==> exists|i: int|
                    0 <= i < out@.len() && out@[i].breakpoint_name@ == name,
            forall|i: int, j: int|
                #![trigger out@[i].average_time_ms, out@[j].average_time_ms]
                0 <= i < j < out@.len() ==> out@[i].average_time_ms <= out@[j].average_time_ms,
    {
        let scope = collect_scope(store, filters);
        let ghost sc = spec_scope_splits(store.splits@, store.runs@, *filters);
        proof {
            lemma_scope_len(store.splits@, store.runs@, *filters);
        }
        let names = collect_names(&scope);
        let stats = build_stats(&scope, &names);
        let out = sort_stats_asc(stats, Ghost(sc));
        proof {
            assert forall|name: Seq<char>|
                #[trigger] spec_group(sc, name).len() > 0 implies exists|i: int|
                0 <= i < out@.len() && out@[i].breakpoint_name@ == name by {
                lemma_group_members(sc, name);
                let member = spec_group(sc, name)[0];
                let j = choose|j: int| 0 <= j < sc.len() && sc[j] == member;
                assert(spec_name_listed(names@, sc[j].breakpoint_name@));
                let a = choose|a: int|
                    0 <= a < names@.len() && names@[a]@ == sc[j].breakpoint_name@;
                assert(stats@[a].breakpoint_name@ == name);
                assert(stats@.contains(stats@[a]));
                assert(stats@.to_multiset().count(stats@[a]) > 0);
                assert(out@.to_multiset().count(stats@[a]) > 0);
                assert(out@.contains(stats@[a]));
                let y = choose|y: int| 0 <= y < out@.len() && out@[y] == stats@[a];
                assert(out@[y].breakpoint_name@ == name);
            }
        }
        out
    }
}

/// The in-scope selection never holds more splits than the table.
proof fn lemma_scope_len(ss: Seq<Split>, runs: Seq<Run>, f: RunFilters)
    ensures
        spec_scope_splits(ss, runs, f).len() <= ss.len(),
    decreases ss.len(),
{
    if ss.len() > 0 {
        lemma_scope_len(ss.drop_last(), runs, f);
    }
}

} // verus!
