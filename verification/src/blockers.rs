use vstd::prelude::*;

use crate::indirect::{lemma_add_all_extends, lemma_prefix_trans, spec_add_all};
use crate::report::{Report, ReportV};
use crate::strops::{push_dv, push_unique, spec_push_unique, str_eq};

verus! {

/// One row of the blocker table: a unit and the units whose operations it
/// blocks.
pub struct BlockEntry {
    pub class: String,
    pub blocked: Vec<String>,
}

#[verifier::ext_equal]
pub struct BlockEntryV {
    pub class: Seq<char>,
    pub blocked: Seq<Seq<char>>,
}

impl View for BlockEntry {
    type V = BlockEntryV;

    open spec fn view(&self) -> BlockEntryV {
        BlockEntryV { class: self.class@, blocked: self.blocked.deep_view() }
    }
}

impl DeepView for BlockEntry {
    type V = BlockEntryV;

    open spec fn deep_view(&self) -> BlockEntryV {
        self.view()
    }
}

/// Index of the first row for `name`, or -1.
pub open spec fn block_idx(entries: Seq<BlockEntryV>, name: Seq<char>) -> int
    decreases entries.len(),
{
    if entries.len() == 0 {
        -1
    } else if entries[0].class == name {
        0
    } else {
        let rest = block_idx(entries.drop_first(), name);
        if rest == -1 {
            -1
        } else {
            rest + 1
        }
    }
}

pub proof fn lemma_block_idx(entries: Seq<BlockEntryV>, name: Seq<char>)
    ensures
        block_idx(entries, name) == -1 ==> forall|j: int|
            0 <= j < entries.len() ==> entries[j].class != name,
        block_idx(entries, name) != -1 ==> {
            let i = block_idx(entries, name);
            &&& 0 <= i < entries.len()
            &&& entries[i].class == name
            &&& forall|j: int| 0 <= j < i ==> entries[j].class != name
        },
    decreases entries.len(),
{
    if entries.len() != 0 && entries[0].class != name {
        lemma_block_idx(entries.drop_first(), name);
        assert forall|j: int| 1 <= j < entries.len() implies entries[j] == entries.drop_first()[j
            - 1] by {}
    }
}

fn find_block<'a>(entries: &'a Vec<BlockEntry>, name: &String) -> (r: Option<usize>)
    ensures
        match r {
            Some(i) => i < entries@.len() && block_idx(entries.deep_view(), name@) == i,
            None => block_idx(entries.deep_view(), name@) == -1,
        },
{
    proof {
        lemma_block_idx(entries.deep_view(), name@);
    }
    let ghost ent = entries.deep_view();
    let mut i: usize = 0;
    while i < entries.len()
        invariant
            0 <= i <= entries@.len(),
            ent == entries.deep_view(),
            ent.len() == entries@.len(),
            forall|j: int| 0 <= j < i ==> ent[j].class != name@,
        decreases entries@.len() - i,
    {
        assert(ent[i as int] == entries@[i as int]@);
        if str_eq(&entries[i].class, name) {
            proof {
                lemma_block_idx_at(ent, name@, i as int);
            }
            return Some(i);
        }
        i += 1;
    }
    proof {
        if block_idx(ent, name@) != -1 {
            assert(ent[block_idx(ent, name@)].class != name@);
        }
    }
    None
}

proof fn lemma_block_idx_at(entries: Seq<BlockEntryV>, name: Seq<char>, i: int)
    requires
        0 <= i < entries.len(),
        entries[i].class == name,
        forall|j: int| 0 <= j < i ==> entries[j].class != name,
    ensures
        block_idx(entries, name) == i,
    decreases entries.len(),
{
    if i > 0 {
        assert forall|j: int| 0 <= j < i - 1 implies entries.drop_first()[j].class != name by {}
        lemma_block_idx_at(entries.drop_first(), name, i - 1);
    }
}

/// Record in the table that `blocker` blocks the operation filed against
/// `blocked`.
pub open spec fn spec_block_insert(
    entries: Seq<BlockEntryV>,
    blocker: Seq<char>,
    blocked: Seq<char>,
) -> Seq<BlockEntryV> {
    let i = block_idx(entries, blocker);
    if i == -1 {
        entries.push(BlockEntryV { class: blocker, blocked: seq![blocked] })
    } else {
        entries.update(
            i,
            BlockEntryV { class: blocker, blocked: spec_push_unique(entries[i].blocked, blocked) },
        )
    }
}

fn block_insert(entries: &mut Vec<BlockEntry>, blocker: &String, blocked: &String)
    ensures
        final(entries).deep_view() == spec_block_insert(
            old(entries).deep_view(),
            blocker@,
            blocked@,
        ),
{
    let ghost pre = entries.deep_view();
    match find_block(entries, blocker) {
        None => {
            let mut b: Vec<String> = Vec::new();
            push_dv(&mut b, blocked.clone());
            let e = BlockEntry { class: blocker.clone(), blocked: b };
            assert(e@ =~= (BlockEntryV { class: blocker@, blocked: seq![blocked@] }));
            push_dv(entries, e);
        },
        Some(i) => {
            let mut row = BlockEntry { class: String::new(), blocked: Vec::new() };
            core::mem::swap(&mut row, &mut entries[i]);
            assert(row@ == pre[i as int]);
            push_unique(&mut row.blocked, blocked.clone());
            let ghost rowv = row@;
            core::mem::swap(&mut row, &mut entries[i]);
            proof {
                lemma_block_idx(pre, blocker@);
                assert(pre[i as int].class == blocker@);
                assert(rowv.class == blocker@);
                assert(rowv.blocked == spec_push_unique(pre[i as int].blocked, blocked@));
                assert(entries@[i as int]@ == rowv);
                assert(entries.deep_view().len() == pre.len());
                assert forall|j: int|
                    0 <= j < pre.len() && j != i implies #[trigger] entries.deep_view()[j]
                    == pre[j] by {
                    assert(entries@[j] == old(entries)@[j]);
                }
                assert(entries.deep_view()[i as int] =~= spec_block_insert(
                    pre,
                    blocker@,
                    blocked@,
                )[i as int]);
                assert(entries.deep_view() =~= spec_block_insert(pre, blocker@, blocked@));
            }
        },
    }
}

/// The blocker table contributed by the first `k` indirect classes of one
/// report.
pub open spec fn spec_build_report(acc: Seq<BlockEntryV>, rep: ReportV, k: int) -> Seq<BlockEntryV>
    decreases k,
{
    if k <= 0 {
        acc
    } else {
        spec_block_insert(
            spec_build_report(acc, rep, k - 1),
            rep.indirect_classes[k - 1],
            rep.for_class,
        )
    }
}

/// The blocker table over the first `j` reports.
pub open spec fn spec_build_pref(reports: Seq<ReportV>, j: int) -> Seq<BlockEntryV>
    decreases j,
{
    if j <= 0 {
        Seq::empty()
    } else {
        spec_build_report(
            spec_build_pref(reports, j - 1),
            reports[j - 1],
            reports[j - 1].indirect_classes.len() as int,
        )
    }
}

/// The blocker table of a report list: a report against unit A listing
/// indirect unit B means B blocks A.
pub open spec fn spec_build_blockers(reports: Seq<ReportV>) -> Seq<BlockEntryV> {
    spec_build_pref(reports, reports.len() as int)
}

pub fn build_blockers(reports: &Vec<Report>) -> (r: Vec<BlockEntry>)
    ensures
        r.deep_view() == spec_build_blockers(reports.deep_view()),
{
    let ghost reps = reports.deep_view();
    let mut acc: Vec<BlockEntry> = Vec::new();
    assert(acc.deep_view() =~= Seq::<BlockEntryV>::empty());
    let mut j: usize = 0;
    while j < reports.len()
        invariant
            0 <= j <= reports@.len(),
            reps == reports.deep_view(),
            reps.len() == reports@.len(),
            acc.deep_view() == spec_build_pref(reps, j as int),
        decreases reports@.len() - j,
    {
        assert(reps[j as int] == reports@[j as int]@);
        let rep = &reports[j];
        let ghost rv = rep@;
        let mut k: usize = 0;
        while k < rep.indirect_classes.len()
            invariant
                0 <= k <= rep.indirect_classes@.len(),
                rv == rep@,
                rv.indirect_classes.len() == rep.indirect_classes@.len(),
                acc.deep_view() == spec_build_report(spec_build_pref(reps, j as int), rv, k as int),
            decreases rep.indirect_classes@.len() - k,
        {
            assert(rv.indirect_classes[k as int] == rep.indirect_classes@[k as int]@);
            block_insert(&mut acc, &rep.indirect_classes[k], &rep.for_class);
            k += 1;
        }
        j += 1;
    }
    acc
}

/// One row extended by one hop: the union of the row's blocked set with
/// the blocked sets of every blocker appearing in it, read from the
/// previous round's table.
pub open spec fn spec_extend_row(
    entries: Seq<BlockEntryV>,
    acc: Seq<Seq<char>>,
    blocked: Seq<Seq<char>>,
    k: int,
) -> Seq<Seq<char>>
    decreases k,
{
    if k <= 0 {
        acc
    } else {
        let prev = spec_extend_row(entries, acc, blocked, k - 1);
        let i = block_idx(entries, blocked[k - 1]);
        if i >= 0 {
            spec_add_all(prev, entries[i].blocked, entries[i].blocked.len() as int)
        } else {
            prev
        }
    }
}

/// One round of the blocker propagation: each row is extended by one hop,
/// reading only the previous round's table.
pub open spec fn spec_blocker_step(entries: Seq<BlockEntryV>) -> Seq<BlockEntryV> {
    Seq::new(
        entries.len(),
        |i: int|
            BlockEntryV {
                class: entries[i].class,
                blocked: spec_extend_row(
                    entries,
                    entries[i].blocked,
                    entries[i].blocked,
                    entries[i].blocked.len() as int,
                ),
            },
    )
}

/// Rounds of blocker propagation with an early stop at the fixed point.
pub open spec fn spec_blocker_iter(entries: Seq<BlockEntryV>, n: int) -> Seq<BlockEntryV>
    decreases n,
{
    if n <= 0 {
        entries
    } else {
        let nx = spec_blocker_step(entries);
        if nx == entries {
            entries
        } else {
            spec_blocker_iter(nx, n - 1)
        }
    }
}

/// The round cap of the propagation: far more rounds than any table can
/// use, since a non-converged round must grow some row; the early stop at
/// the fixed point ends the loop in practice.
pub open spec fn spec_blocker_rounds() -> int {
    0xffff_ffff_ffff_ffff
}

/// The blocker table after propagation has run to its fixed point.
pub open spec fn spec_blocker_fixed(entries: Seq<BlockEntryV>) -> Seq<BlockEntryV> {
    spec_blocker_iter(entries, spec_blocker_rounds())
}

/// The blocker closure is a fixed point: applying one more round of the
/// propagation after convergence does not change any unit's blocked set,
/// however many further rounds run.
pub proof fn lemma_blocker_fixed_point(entries: Seq<BlockEntryV>, n: int)
    requires
        spec_blocker_step(entries) == entries,
    ensures
        spec_blocker_iter(entries, n) == entries,
        spec_blocker_step(spec_blocker_iter(entries, n)) == spec_blocker_iter(entries, n),
    decreases n,
{
    if n > 0 {
        lemma_blocker_fixed_point(entries, n - 1);
    }
}

/// Each row's blocked list only grows during a round.
pub proof fn lemma_extend_row_extends(
    entries: Seq<BlockEntryV>,
    acc: Seq<Seq<char>>,
    blocked: Seq<Seq<char>>,
    k: int,
)
    requires
        0 <= k <= blocked.len(),
    ensures
        acc.is_prefix_of(spec_extend_row(entries, acc, blocked, k)),
    decreases k,
{
    if k <= 0 {
        assert(acc =~= acc.take(acc.len() as int));
    } else {
        lemma_extend_row_extends(entries, acc, blocked, k - 1);
        let prev = spec_extend_row(entries, acc, blocked, k - 1);
        let i = block_idx(entries, blocked[k - 1]);
        if i >= 0 {
            lemma_add_all_extends(prev, entries[i].blocked, entries[i].blocked.len() as int);
            lemma_prefix_trans(acc, prev, spec_extend_row(entries, acc, blocked, k));
        }
    }
}

/// Splitting the propagation rounds.
pub proof fn lemma_blocker_iter_compose(entries: Seq<BlockEntryV>, k: int, m: int)
    requires
        0 <= k,
        0 <= m,
    ensures
        spec_blocker_iter(entries, k + m) == spec_blocker_iter(spec_blocker_iter(entries, k), m),
    decreases k,
{
    if k > 0 {
        let nx = spec_blocker_step(entries);
        if nx == entries {
            lemma_blocker_fixed_point(entries, k + m);
            lemma_blocker_fixed_point(entries, k);
            lemma_blocker_fixed_point(entries, m);
        } else {
            lemma_blocker_iter_compose(nx, k - 1, m);
        }
    }
}

/// One propagation round, at the executable level.
fn blocker_step(entries: &Vec<BlockEntry>) -> (r: Vec<BlockEntry>)
    ensures
        r.deep_view() == spec_blocker_step(entries.deep_view()),
{
    let ghost ent = entries.deep_view();
    let mut out: Vec<BlockEntry> = Vec::new();
    let mut i: usize = 0;
    while i < entries.len()
        invariant
            0 <= i <= entries@.len(),
            ent == entries.deep_view(),
            ent.len() == entries@.len(),
            out.deep_view() =~= spec_blocker_step(ent).take(i as int),
        decreases entries@.len() - i,
    {
        assert(ent[i as int] == entries@[i as int]@);
        let row = &entries[i];
        let ghost rowv = ent[i as int];
        let mut acc = crate::model::clone_string_vec(&row.blocked);
        assert(acc.deep_view() =~= rowv.blocked);
        let mut k: usize = 0;
        while k < row.blocked.len()
            invariant
                0 <= k <= row.blocked@.len(),
                ent == entries.deep_view(),
                ent.len() == entries@.len(),
                rowv == row@,
                rowv.blocked.len() == row.blocked@.len(),
                acc.deep_view() =~= spec_extend_row(ent, rowv.blocked, rowv.blocked, k as int),
            decreases row.blocked@.len() - k,
        {
            assert(rowv.blocked[k as int] == row.blocked@[k as int]@);
            match find_block(entries, &row.blocked[k]) {
                Some(bi) => {
                    let ghost pre = acc.deep_view();
                    let brow = &entries[bi];
                    assert(brow@ == ent[bi as int]);
                    let mut x: usize = 0;
                    while x < brow.blocked.len()
                        invariant
                            0 <= x <= brow.blocked@.len(),
                            brow@ == ent[bi as int],
                            0 <= bi < ent.len(),
                            ent[bi as int].blocked.len() == brow.blocked@.len(),
                            acc.deep_view() =~= spec_add_all(
                                pre,
                                ent[bi as int].blocked,
                                x as int,
                            ),
                        decreases brow.blocked@.len() - x,
                    {
                        assert(ent[bi as int].blocked[x as int] == brow.blocked@[x as int]@);
                        push_unique(&mut acc, brow.blocked[x].clone());
                        x += 1;
                    }
                },
                None => {},
            }
            k += 1;
            assert(acc.deep_view() =~= spec_extend_row(ent, rowv.blocked, rowv.blocked, k as int));
        }
        let e = BlockEntry { class: row.class.clone(), blocked: acc };
        assert(e@ =~= spec_blocker_step(ent)[i as int]);
        push_dv(&mut out, e);
        i += 1;
        assert(out.deep_view() =~= spec_blocker_step(ent).take(i as int));
    }
    assert(spec_blocker_step(ent).take(ent.len() as int) =~= spec_blocker_step(ent));
    out
}

/// Whether two tables agree row for row on the length of the blocked list;
/// since a round only appends, equal lengths mean an unchanged table.
fn rows_same_len(a: &Vec<BlockEntry>, b: &Vec<BlockEntry>) -> (r: bool)
    requires
        a.deep_view().len() == b.deep_view().len(),
    ensures
        r == forall|i: int|
            0 <= i < a.deep_view().len() ==> #[trigger] a.deep_view()[i].blocked.len()
                == b.deep_view()[i].blocked.len(),
{
    let ghost av = a.deep_view();
    let ghost bv = b.deep_view();
    let mut i: usize = 0;
    while i < a.len()
        invariant
            0 <= i <= a@.len(),
            av == a.deep_view(),
            bv == b.deep_view(),
            av.len() == a@.len(),
            bv.len() == av.len(),
            forall|j: int| 0 <= j < i ==> #[trigger] av[j].blocked.len() == bv[j].blocked.len(),
        decreases a@.len() - i,
    {
        assert(av[i as int] == a@[i as int]@);
        assert(bv[i as int] == b@[i as int]@);
        if a[i].blocked.len() != b[i].blocked.len() {
            assert(av[i as int].blocked.len() != bv[i as int].blocked.len());
            return false;
        }
        i += 1;
    }
    true
}

/// If a round leaves every row's length unchanged, the table is a fixed
/// point of the round.
proof fn lemma_same_len_stable(ent: Seq<BlockEntryV>)
    requires
        forall|i: int|
            0 <= i < ent.len() ==> #[trigger] spec_blocker_step(ent)[i].blocked.len()
                == ent[i].blocked.len(),
    ensures
        spec_blocker_step(ent) == ent,
{
    assert forall|i: int| 0 <= i < ent.len() implies #[trigger] spec_blocker_step(ent)[i]
        == ent[i] by {
        lemma_extend_row_extends(ent, ent[i].blocked, ent[i].blocked, ent[i].blocked.len() as int);
        let nb = spec_blocker_step(ent)[i].blocked;
        assert(ent[i].blocked =~= nb.take(ent[i].blocked.len() as int));
        assert(nb =~= ent[i].blocked);
        assert(spec_blocker_step(ent)[i] =~= ent[i]);
    }
    assert(spec_blocker_step(ent) =~= ent);
}

/// Propagate blocked sets to the fixed point: one hop of transitive
/// closure per round, each round reading only the previous round's table,
/// until no row grows.
pub fn blocker_closure(init: Vec<BlockEntry>) -> (r: Vec<BlockEntry>)
    ensures
        r.deep_view() == spec_blocker_fixed(init.deep_view()),
{
    let ghost e0 = init.deep_view();
    let rounds: u64 = 0xffff_ffff_ffff_ffff;
    let mut cur = init;
    let mut k: u64 = 0;
    let mut done = false;
    while k < rounds && !done
        invariant
            0 <= k <= rounds,
            rounds == spec_blocker_rounds(),
            cur.deep_view() == spec_blocker_iter(e0, k as int),
            done ==> cur.deep_view() == spec_blocker_fixed(e0),
        decreases rounds - k + (if done {
            0int
        } else {
            1int
        }),
    {
        let ghost before = cur.deep_view();
        let nx = blocker_step(&cur);
        assert(nx.deep_view().len() == before.len());
        let same = rows_same_len(&cur, &nx);
        if same {
            proof {
                lemma_same_len_stable(before);
                lemma_blocker_iter_compose(e0, k as int, rounds - k as int);
                lemma_blocker_fixed_point(before, rounds - k as int);
                assert(cur.deep_view() == spec_blocker_fixed(e0));
                lemma_blocker_iter_compose(e0, k as int, 1);
                lemma_blocker_fixed_point(before, 1);
            }
            done = true;
        } else {
            proof {
                assert(spec_blocker_step(before) != before) by {
                    if spec_blocker_step(before) == before {
                        assert(forall|i: int|
                            0 <= i < before.len() ==> #[trigger] spec_blocker_step(
                                before,
                            )[i].blocked.len() == before[i].blocked.len());
                    }
                }
                lemma_blocker_iter_compose(e0, k as int, 1);
                assert(spec_blocker_iter(before, 1) == spec_blocker_step(before)) by {
                    reveal_with_fuel(spec_blocker_iter, 2);
                }
                assert(nx.deep_view() == spec_blocker_iter(e0, k + 1));
            }
            cur = nx;
        }
        k += 1;
    }
    proof {
        if !done {
            assert(k == rounds);
            assert(cur.deep_view() == spec_blocker_iter(e0, spec_blocker_rounds()));
        }
    }
    cur
}

/// A ranked blocker: a unit and how many operations it transitively
/// blocks.
pub struct Blocker {
    pub class: String,
    pub operations: usize,
}

#[verifier::ext_equal]
pub struct BlockerV {
    pub class: Seq<char>,
    pub operations: int,
}

impl View for Blocker {
    type V = BlockerV;

    open spec fn view(&self) -> BlockerV {
        BlockerV { class: self.class@, operations: self.operations as int }
    }
}

impl DeepView for Blocker {
    type V = BlockerV;

    open spec fn deep_view(&self) -> BlockerV {
        self.view()
    }
}

/// The ranking view of a blocker table: each row scored by the size of
/// its transitively blocked set.
pub open spec fn spec_blockers_of(entries: Seq<BlockEntryV>) -> Seq<BlockerV> {
    Seq::new(
        entries.len(),
        |i: int| BlockerV { class: entries[i].class, operations: entries[i].blocked.len() as int },
    )
}

/// Descending order by blocked-operation count.
pub open spec fn blocker_ge(a: BlockerV, b: BlockerV) -> bool {
    a.operations >= b.operations
}

pub open spec fn blockers_sorted(s: Seq<BlockerV>) -> bool {
    forall|i: int, j: int| 0 <= i < j < s.len() ==> blocker_ge(s[i], s[j])
}

fn insert_blocker_sorted(out: &mut Vec<Blocker>, x: Blocker)
    requires
        blockers_sorted(old(out).deep_view()),
    ensures
        blockers_sorted(final(out).deep_view()),
        final(out).deep_view().to_multiset() == old(out).deep_view().to_multiset().insert(x@),
{
    let ghost pre = out.deep_view();
    let ghost prevv = out@;
    let ghost xv = x@;
    let mut idx: usize = out.len();
    let mut done = false;
    while !done && idx > 0
        invariant
            0 <= idx <= out@.len(),
            out@ == prevv,
            pre == out.deep_view(),
            pre.len() == out@.len(),
            xv == x@,
            forall|j: int| idx <= j < pre.len() ==> !blocker_ge(#[trigger] pre[j], xv),
            done ==> idx > 0 && blocker_ge(pre[idx - 1], xv),
        decreases idx + (if done {
            0int
        } else {
            1int
        }),
    {
        assert(pre[idx - 1] == out@[idx - 1]@);
        if out[idx - 1].operations >= x.operations {
            done = true;
        } else {
            idx -= 1;
        }
    }
    assert(idx > 0 ==> blocker_ge(pre[idx - 1], xv));
    out.insert(idx, x);
    proof {
        assert(out@ == prevv.insert(idx as int, x));
        let now = out.deep_view();
        assert(now.len() == pre.len() + 1);
        assert forall|j: int| 0 <= j < now.len() implies #[trigger] now[j] == pre.insert(
            idx as int,
            xv,
        )[j] by {
            if j < idx {
                assert(out@[j] == prevv[j]);
            } else if j == idx {
                assert(out@[j] == x);
            } else {
                assert(out@[j] == prevv[j - 1]);
            }
        }
        assert(now =~= pre.insert(idx as int, xv));
        lemma_blocker_insert_multiset(pre, idx as int, xv);
        assert forall|i: int, j: int| 0 <= i < j < now.len() implies blocker_ge(now[i], now[j])
            by {
            if j < idx {
                assert(blocker_ge(pre[i], pre[j]));
            } else if i > idx {
                assert(blocker_ge(pre[i - 1], pre[j - 1]));
            } else if i == idx && j > idx {
                assert(!blocker_ge(pre[j - 1], xv));
            } else if j == idx && i < idx {
                assert(blocker_ge(pre[idx - 1], xv));
                if i < idx - 1 {
                    assert(blocker_ge(pre[i], pre[idx - 1]));
                }
            } else {
                assert(i < idx && j > idx);
                assert(!blocker_ge(pre[j - 1], xv));
                if i < idx - 1 {
                    assert(blocker_ge(pre[i], pre[idx - 1]));
                } else {
                    assert(blocker_ge(pre[i], xv));
                }
            }
        }
    }
}

proof fn lemma_blocker_insert_multiset(s: Seq<BlockerV>, i: int, x: BlockerV)
    requires
        0 <= i <= s.len(),
    ensures
        s.insert(i, x).to_multiset() == s.to_multiset().insert(x),
{
    broadcast use vstd::seq_lib::group_to_multiset_ensures;

    assert(s.insert(i, x) =~= s.take(i).push(x) + s.skip(i));
    vstd::seq_lib::lemma_multiset_commutative(s.take(i).push(x), s.skip(i));
    assert(s =~= s.take(i) + s.skip(i));
    vstd::seq_lib::lemma_multiset_commutative(s.take(i), s.skip(i));
    assert(s.take(i).push(x).to_multiset() =~= s.take(i).to_multiset().insert(x));
    assert(s.insert(i, x).to_multiset() =~= s.to_multiset().insert(x));
}

/// Rank the blockers of the filtered reports: build the blocker table,
/// propagate blocked sets to the fixed point, and list every blocker by
/// the number of operations it blocks, largest first.
pub fn report_blockers(results: &Vec<Report>) -> (r: Vec<Blocker>)
    ensures
        blockers_sorted(r.deep_view()),
        r.deep_view().to_multiset() == spec_blockers_of(
            spec_blocker_fixed(spec_build_blockers(results.deep_view())),
        ).to_multiset(),
{
    broadcast use vstd::seq_lib::group_to_multiset_ensures;

    let table = build_blockers(results);
    let table = blocker_closure(table);
    let ghost tv = table.deep_view();
    let mut out: Vec<Blocker> = Vec::new();
    proof {
        assert(out.deep_view() =~= Seq::<BlockerV>::empty());
        assert(spec_blockers_of(tv).take(0) =~= Seq::<BlockerV>::empty());
        assert(out.deep_view().to_multiset() =~= spec_blockers_of(tv).take(0).to_multiset());
    }
    let mut i: usize = 0;
    while i < table.len()
        invariant
            0 <= i <= table@.len(),
            tv == table.deep_view(),
            tv.len() == table@.len(),
            blockers_sorted(out.deep_view()),
            out.deep_view().to_multiset() == spec_blockers_of(tv).take(i as int).to_multiset(),
        decreases table@.len() - i,
    {
        assert(tv[i as int] == table@[i as int]@);
        let b = Blocker { class: table[i].class.clone(), operations: table[i].blocked.len() };
        assert(b@ == spec_blockers_of(tv)[i as int]);
        insert_blocker_sorted(&mut out, b);
        i += 1;
        proof {
            broadcast use vstd::seq_lib::group_to_multiset_ensures;

            assert(spec_blockers_of(tv).take(i as int) =~= spec_blockers_of(tv).take(i - 1).push(
                spec_blockers_of(tv)[i - 1],
            ));
        }
    }
    assert(spec_blockers_of(tv).take(tv.len() as int) =~= spec_blockers_of(tv));
    out
}

} // verus!
