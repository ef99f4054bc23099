use vstd::prelude::*;

use crate::filters::{filter_report, spec_filter_report, AnalyzeOptions, OptionsV};
use crate::model::clone_string_vec;
use crate::ownership::{OwnedClass, OwnedV};
use crate::report::{Report, ReportV};
use crate::strops::{push_unique, seq_contains_str, spec_push_unique, vec_contains_str};

verus! {

/// All of `cls`'s first `k` names added to `acc`, without duplicates.
pub open spec fn spec_add_all(acc: Seq<Seq<char>>, cls: Seq<Seq<char>>, k: int) -> Seq<Seq<char>>
    decreases k,
{
    if k <= 0 {
        acc
    } else {
        spec_push_unique(spec_add_all(acc, cls, k - 1), cls[k - 1])
    }
}

/// Whether a report contributes its indirect classes to the closure, given
/// the snapshot of the set at the start of the round.
pub open spec fn spec_contributes(
    report: ReportV,
    opts: OptionsV,
    entries: Seq<OwnedV>,
    base: Seq<Seq<char>>,
) -> bool {
    spec_filter_report(opts, report, entries) || seq_contains_str(base, report.for_class)
}

pub open spec fn spec_round_pref(
    reports: Seq<ReportV>,
    opts: OptionsV,
    entries: Seq<OwnedV>,
    base: Seq<Seq<char>>,
    j: int,
) -> Seq<Seq<char>>
    decreases j,
{
    if j <= 0 {
        base
    } else {
        let prev = spec_round_pref(reports, opts, entries, base, j - 1);
        if spec_contributes(reports[j - 1], opts, entries, base) {
            spec_add_all(prev, reports[j - 1].indirect_classes, reports[j - 1].indirect_classes.len() as int)
        } else {
            prev
        }
    }
}

/// One round of the indirect-involvement closure: union in the indirect
/// classes of every report that matches the filters or whose subject is
/// already in the set.
pub open spec fn spec_indirect_round(
    reports: Seq<ReportV>,
    opts: OptionsV,
    entries: Seq<OwnedV>,
    base: Seq<Seq<char>>,
) -> Seq<Seq<char>> {
    spec_round_pref(reports, opts, entries, base, reports.len() as int)
}

/// Up to `n` rounds of the closure, stopping early once a round adds
/// nothing.
pub open spec fn spec_indirect_closure(
    reports: Seq<ReportV>,
    opts: OptionsV,
    entries: Seq<OwnedV>,
    base: Seq<Seq<char>>,
    n: int,
) -> Seq<Seq<char>>
    decreases n,
{
    if n <= 0 {
        base
    } else {
        let nx = spec_indirect_round(reports, opts, entries, base);
        if nx.len() == base.len() {
            nx
        } else {
            spec_indirect_closure(reports, opts, entries, nx, n - 1)
        }
    }
}

pub proof fn lemma_push_unique_extends(acc: Seq<Seq<char>>, x: Seq<char>)
    ensures
        acc.is_prefix_of(spec_push_unique(acc, x)),
{
    if !seq_contains_str(acc, x) {
        assert(acc =~= acc.push(x).take(acc.len() as int));
    }
}

pub proof fn lemma_add_all_extends(acc: Seq<Seq<char>>, cls: Seq<Seq<char>>, k: int)
    requires
        k <= cls.len(),
    ensures
        acc.is_prefix_of(spec_add_all(acc, cls, k)),
    decreases k,
{
    if k > 0 {
        lemma_add_all_extends(acc, cls, k - 1);
        lemma_push_unique_extends(spec_add_all(acc, cls, k - 1), cls[k - 1]);
        lemma_prefix_trans(acc, spec_add_all(acc, cls, k - 1), spec_add_all(acc, cls, k));
    }
}

pub proof fn lemma_prefix_trans(a: Seq<Seq<char>>, b: Seq<Seq<char>>, c: Seq<Seq<char>>)
    requires
        a.is_prefix_of(b),
        b.is_prefix_of(c),
    ensures
        a.is_prefix_of(c),
{
    assert(a =~= c.take(a.len() as int));
}

/// The accumulated set never shrinks within a round: the snapshot at the
/// start of the round is a prefix of the round's result.
pub proof fn lemma_round_monotonic(
    reports: Seq<ReportV>,
    opts: OptionsV,
    entries: Seq<OwnedV>,
    base: Seq<Seq<char>>,
    j: int,
)
    requires
        0 <= j <= reports.len(),
    ensures
        base.is_prefix_of(spec_round_pref(reports, opts, entries, base, j)),
    decreases j,
{
    if j <= 0 {
        assert(base =~= base.take(base.len() as int));
    } else {
        lemma_round_monotonic(reports, opts, entries, base, j - 1);
        let prev = spec_round_pref(reports, opts, entries, base, j - 1);
        if spec_contributes(reports[j - 1], opts, entries, base) {
            lemma_add_all_extends(
                prev,
                reports[j - 1].indirect_classes,
                reports[j - 1].indirect_classes.len() as int,
            );
            lemma_prefix_trans(base, prev, spec_round_pref(reports, opts, entries, base, j));
        }
    }
}

/// The indirect-involvement closure is monotonic over rounds: the starting
/// set is a prefix of the result, however many rounds run.
pub proof fn lemma_closure_monotonic(
    reports: Seq<ReportV>,
    opts: OptionsV,
    entries: Seq<OwnedV>,
    base: Seq<Seq<char>>,
    n: int,
)
    ensures
        base.is_prefix_of(spec_indirect_closure(reports, opts, entries, base, n)),
    decreases n,
{
    if n <= 0 {
        assert(base =~= base.take(base.len() as int));
    } else {
        lemma_round_monotonic(reports, opts, entries, base, reports.len() as int);
        let nx = spec_indirect_round(reports, opts, entries, base);
        if nx.len() == base.len() {
            assert(base =~= nx);
        } else {
            lemma_closure_monotonic(reports, opts, entries, nx, n - 1);
            lemma_prefix_trans(
                base,
                nx,
                spec_indirect_closure(reports, opts, entries, nx, n - 1),
            );
        }
    }
}

/// A round that adds nothing returns the set unchanged, so every later
/// round returns it too: the closure is a fixed point from then on.
pub proof fn lemma_closure_stable(
    reports: Seq<ReportV>,
    opts: OptionsV,
    entries: Seq<OwnedV>,
    base: Seq<Seq<char>>,
    n: int,
)
    requires
        spec_indirect_round(reports, opts, entries, base).len() == base.len(),
    ensures
        spec_indirect_closure(reports, opts, entries, base, n) == base,
        spec_indirect_round(reports, opts, entries, base) == base,
    decreases n,
{
    lemma_round_monotonic(reports, opts, entries, base, reports.len() as int);
    assert(spec_indirect_round(reports, opts, entries, base) =~= base);
}

/// Splitting the rounds: running `k + m` rounds is running `k`, then `m`
/// on the result.
pub proof fn lemma_closure_compose(
    reports: Seq<ReportV>,
    opts: OptionsV,
    entries: Seq<OwnedV>,
    base: Seq<Seq<char>>,
    k: int,
    m: int,
)
    requires
        0 <= k,
        0 <= m,
    ensures
        spec_indirect_closure(reports, opts, entries, base, k + m) == spec_indirect_closure(
            reports,
            opts,
            entries,
            spec_indirect_closure(reports, opts, entries, base, k),
            m,
        ),
    decreases k,
{
    if k == 0 {
    } else {
        let nx = spec_indirect_round(reports, opts, entries, base);
        if nx.len() == base.len() {
            lemma_closure_stable(reports, opts, entries, base, k + m);
            lemma_closure_stable(reports, opts, entries, base, m);
            lemma_closure_stable(reports, opts, entries, base, k);
        } else {
            lemma_closure_compose(reports, opts, entries, nx, k - 1, m);
        }
    }
}

/// One closure round over the report list.
fn indirect_round(
    reports: &Vec<Report>,
    opts: &AnalyzeOptions,
    entries: &Vec<OwnedClass>,
    cur: Vec<String>,
) -> (r: Vec<String>)
    ensures
        r.deep_view() == spec_indirect_round(
            reports.deep_view(),
            opts@,
            entries.deep_view(),
            cur.deep_view(),
        ),
{
    let ghost reps = reports.deep_view();
    let ghost ent = entries.deep_view();
    let ghost base = cur.deep_view();
    let snapshot = clone_string_vec(&cur);
    assert(snapshot.deep_view() =~= base);
    let mut acc = cur;
    let mut j: usize = 0;
    while j < reports.len()
        invariant
            0 <= j <= reports@.len(),
            reps == reports.deep_view(),
            ent == entries.deep_view(),
            base == cur.deep_view(),
            snapshot.deep_view() == base,
            reps.len() == reports@.len(),
            acc.deep_view() =~= spec_round_pref(reps, opts@, ent, base, j as int),
        decreases reports@.len() - j,
    {
        assert(reps[j as int] == reports@[j as int]@);
        let rep = &reports[j];
        let matched = filter_report(opts, rep, entries) || vec_contains_str(
            &snapshot,
            &rep.for_class,
        );
        assert(matched == spec_contributes(reps[j as int], opts@, ent, base));
        if matched {
            let ghost pre = acc.deep_view();
            let ghost cls = reps[j as int].indirect_classes;
            let mut k: usize = 0;
            while k < rep.indirect_classes.len()
                invariant
                    0 <= k <= rep.indirect_classes@.len(),
                    cls == rep@.indirect_classes,
                    cls.len() == rep.indirect_classes@.len(),
                    acc.deep_view() =~= spec_add_all(pre, cls, k as int),
                decreases rep.indirect_classes@.len() - k,
            {
                assert(cls[k as int] == rep.indirect_classes@[k as int]@);
                push_unique(&mut acc, rep.indirect_classes[k].clone());
                k += 1;
            }
        }
        j += 1;
        assert(acc.deep_view() =~= spec_round_pref(reps, opts@, ent, base, j as int));
    }
    acc
}

/// Detect indirectly involved units: starting from nothing, repeatedly
/// union in the indirect classes of every report that matches the filters
/// or is already reached, for up to the configured number of rounds,
/// stopping early at a fixed point.
pub fn indirect_closure(
    reports: &Vec<Report>,
    opts: &AnalyzeOptions,
    entries: &Vec<OwnedClass>,
) -> (r: Vec<String>)
    ensures
        r.deep_view() == spec_indirect_closure(
            reports.deep_view(),
            opts@,
            entries.deep_view(),
            Seq::empty(),
            (match opts@.indirect {
                Some(n) => n,
                None => 0,
            }) as int,
        ),
{
    let ghost reps = reports.deep_view();
    let ghost ent = entries.deep_view();
    let rounds: u32 = match opts.indirect {
        Some(n) => n,
        None => 0,
    };
    let mut cur: Vec<String> = Vec::new();
    assert(cur.deep_view() =~= Seq::<Seq<char>>::empty());
    let mut k: u32 = 0;
    let mut done = false;
    while k < rounds && !done
        invariant
            0 <= k <= rounds,
            reps == reports.deep_view(),
            ent == entries.deep_view(),
            cur.deep_view() == spec_indirect_closure(reps, opts@, ent, Seq::empty(), k as int),
            done ==> cur.deep_view() == spec_indirect_closure(
                reps,
                opts@,
                ent,
                Seq::empty(),
                rounds as int,
            ),
        decreases rounds - k + (if done {
            0int
        } else {
            1int
        }),
    {
        let ghost before = cur.deep_view();
        let before_len = cur.len();
        let nx = indirect_round(reports, opts, entries, cur);
        let same = nx.len() == before_len;
        cur = nx;
        proof {
            assert(before.len() == before_len);
            assert(cur.deep_view().len() == cur@.len());
            if same {
                lemma_closure_stable(reps, opts@, ent, before, 1);
                assert(cur.deep_view() == before);
                let ghost e0: Seq<Seq<char>> = Seq::empty();
                let ghost m: int = rounds as int - k as int;
                lemma_closure_compose(reps, opts@, ent, e0, k as int, m);
                assert(spec_indirect_closure(reps, opts@, ent, e0, k as int + m)
                    == spec_indirect_closure(reps, opts@, ent, before, m));
                lemma_closure_stable(reps, opts@, ent, before, m);
                assert(spec_indirect_closure(reps, opts@, ent, before, m) == before);
                assert(k as int + m == rounds as int);
                assert(cur.deep_view() == spec_indirect_closure(
                    reps,
                    opts@,
                    ent,
                    e0,
                    rounds as int,
                ));
                lemma_closure_compose(reps, opts@, ent, e0, k as int, 1);
                lemma_closure_stable(reps, opts@, ent, before, 1);
                assert(cur.deep_view() == spec_indirect_closure(
                    reps,
                    opts@,
                    ent,
                    e0,
                    k as int + 1,
                ));
            } else {
                lemma_closure_compose(reps, opts@, ent, Seq::empty(), k as int, 1);
                assert(spec_indirect_closure(reps, opts@, ent, Seq::empty(), k + 1) ==
                    spec_indirect_closure(reps, opts@, ent, before, 1));
                assert(cur.deep_view() == spec_indirect_round(reps, opts@, ent, before));
                assert(spec_indirect_closure(reps, opts@, ent, before, 1)
                    == spec_indirect_round(reps, opts@, ent, before)) by {
                    reveal_with_fuel(spec_indirect_closure, 2);
                }
                assert(cur.deep_view() == spec_indirect_closure(
                    reps,
                    opts@,
                    ent,
                    Seq::empty(),
                    k + 1,
                ));
            }
        }
        if same {
            done = true;
        }
        k += 1;
    }
    cur
}

/// The reports currently feeding the closure: those matching the filters
/// or whose subject is already in the set.
pub open spec fn spec_contributors(
    reports: Seq<ReportV>,
    opts: OptionsV,
    entries: Seq<OwnedV>,
    base: Seq<Seq<char>>,
) -> Set<int> {
    Set::new(
        |i: int| 0 <= i < reports.len() && spec_contributes(reports[i], opts, entries, base),
    )
}

proof fn lemma_prefix_contains(b1: Seq<Seq<char>>, b2: Seq<Seq<char>>, x: Seq<char>)
    requires
        b1.is_prefix_of(b2),
        seq_contains_str(b1, x),
    ensures
        seq_contains_str(b2, x),
{
    let i = choose|i: int| 0 <= i < b1.len() && b1[i] == x;
    assert(b2[i] == b1[i]);
}

proof fn lemma_contributors_monotone(
    reports: Seq<ReportV>,
    opts: OptionsV,
    entries: Seq<OwnedV>,
    b1: Seq<Seq<char>>,
    b2: Seq<Seq<char>>,
)
    requires
        b1.is_prefix_of(b2),
    ensures
        spec_contributors(reports, opts, entries, b1).subset_of(
            spec_contributors(reports, opts, entries, b2),
        ),
{
    assert forall|i: int|
        spec_contributors(reports, opts, entries, b1).contains(i) implies spec_contributors(
        reports,
        opts,
        entries,
        b2,
    ).contains(i) by {
        if seq_contains_str(b1, reports[i].for_class) {
            lemma_prefix_contains(b1, b2, reports[i].for_class);
        }
    }
}

proof fn lemma_add_all_contains(acc: Seq<Seq<char>>, cls: Seq<Seq<char>>, k: int, x: Seq<char>)
    requires
        0 <= k <= cls.len(),
        seq_contains_str(acc, x) || exists|j: int| 0 <= j < k && cls[j] == x,
    ensures
        seq_contains_str(spec_add_all(acc, cls, k), x),
    decreases k,
{
    if k == 0 {
    } else {
        let prev = spec_add_all(acc, cls, k - 1);
        if x == cls[k - 1] {
            if !seq_contains_str(prev, x) {
                assert(spec_push_unique(prev, x)[prev.len() as int] == x);
            }
        } else {
            if seq_contains_str(acc, x) {
                lemma_add_all_contains(acc, cls, k - 1, x);
            } else {
                let j = choose|j: int| 0 <= j < k && cls[j] == x;
                assert(0 <= j < k - 1);
                lemma_add_all_contains(acc, cls, k - 1, x);
            }
            lemma_push_unique_extends(prev, cls[k - 1]);
            lemma_prefix_contains(prev, spec_add_all(acc, cls, k), x);
        }
    }
}

/// After a round, the set holds every indirect class of every report that
/// contributed to the round.
proof fn lemma_round_saturates(
    reports: Seq<ReportV>,
    opts: OptionsV,
    entries: Seq<OwnedV>,
    base: Seq<Seq<char>>,
    j: int,
    i: int,
    x: Seq<char>,
)
    requires
        0 <= i < j <= reports.len(),
        spec_contributes(reports[i], opts, entries, base),
        reports[i].indirect_classes.contains(x),
    ensures
        seq_contains_str(spec_round_pref(reports, opts, entries, base, j), x),
    decreases j,
{
    let prev = spec_round_pref(reports, opts, entries, base, j - 1);
    if i == j - 1 {
        let xi = choose|xi: int|
            0 <= xi < reports[i].indirect_classes.len() && reports[i].indirect_classes[xi] == x;
        lemma_add_all_contains(
            prev,
            reports[i].indirect_classes,
            reports[i].indirect_classes.len() as int,
            x,
        );
    } else {
        lemma_round_saturates(reports, opts, entries, base, j - 1, i, x);
        if spec_contributes(reports[j - 1], opts, entries, base) {
            lemma_add_all_extends(
                prev,
                reports[j - 1].indirect_classes,
                reports[j - 1].indirect_classes.len() as int,
            );
            lemma_prefix_contains(prev, spec_round_pref(reports, opts, entries, base, j), x);
        }
    }
}

proof fn lemma_add_all_noop(acc: Seq<Seq<char>>, cls: Seq<Seq<char>>, k: int)
    requires
        0 <= k <= cls.len(),
        forall|j: int| 0 <= j < k ==> seq_contains_str(acc, #[trigger] cls[j]),
    ensures
        spec_add_all(acc, cls, k) == acc,
    decreases k,
{
    if k > 0 {
        lemma_add_all_noop(acc, cls, k - 1);
    }
}

/// A set holding every indirect class of every contributing report is a
/// fixed point of the round.
proof fn lemma_saturated_stable(
    reports: Seq<ReportV>,
    opts: OptionsV,
    entries: Seq<OwnedV>,
    base: Seq<Seq<char>>,
    j: int,
)
    requires
        0 <= j <= reports.len(),
        forall|i: int, x: Seq<char>|
            0 <= i < reports.len() && spec_contributes(reports[i], opts, entries, base) && (
            #[trigger] reports[i].indirect_classes.contains(x)) ==> seq_contains_str(base, x),
    ensures
        spec_round_pref(reports, opts, entries, base, j) == base,
    decreases j,
{
    if j > 0 {
        lemma_saturated_stable(reports, opts, entries, base, j - 1);
        if spec_contributes(reports[j - 1], opts, entries, base) {
            assert forall|jj: int|
                0 <= jj < reports[j - 1].indirect_classes.len() implies seq_contains_str(
                base,
                #[trigger] reports[j - 1].indirect_classes[jj],
            ) by {
                assert(reports[j - 1].indirect_classes.contains(
                    reports[j - 1].indirect_classes[jj],
                ));
            }
            lemma_add_all_noop(
                base,
                reports[j - 1].indirect_classes,
                reports[j - 1].indirect_classes.len() as int,
            );
        }
    }
}

/// Once a round has run over a snapshot, if the contributors did not grow,
/// the next round changes nothing.
proof fn lemma_stabilizes(
    reports: Seq<ReportV>,
    opts: OptionsV,
    entries: Seq<OwnedV>,
    bsrc: Seq<Seq<char>>,
    n: int,
)
    requires
        0 <= n,
        reports.len() - spec_contributors(reports, opts, entries, bsrc).len() <= n,
    ensures
        ({
            let c = spec_indirect_closure(
                reports,
                opts,
                entries,
                spec_indirect_round(reports, opts, entries, bsrc),
                n,
            );
            spec_indirect_round(reports, opts, entries, c) == c
        }),
    decreases n,
{
    let b = spec_indirect_round(reports, opts, entries, bsrc);
    let csrc = spec_contributors(reports, opts, entries, bsrc);
    let cb = spec_contributors(reports, opts, entries, b);
    lemma_round_monotonic(reports, opts, entries, bsrc, reports.len() as int);
    lemma_contributors_monotone(reports, opts, entries, bsrc, b);
    vstd::set_lib::lemma_int_range(0, reports.len() as int);
    assert(cb.subset_of(vstd::set_lib::set_int_range(0, reports.len() as int)));
    vstd::set_lib::lemma_len_subset(cb, vstd::set_lib::set_int_range(0, reports.len() as int));
    if cb =~= csrc {
        // Every contributor of `b` already contributed to the round that
        // built `b`, so its classes are all in `b`: the round is stable.
        assert forall|i: int, x: Seq<char>|
            0 <= i < reports.len() && spec_contributes(reports[i], opts, entries, b) && (
            #[trigger] reports[i].indirect_classes.contains(x)) implies seq_contains_str(b, x) by {
            assert(cb.contains(i));
            assert(csrc.contains(i));
            lemma_round_saturates(reports, opts, entries, bsrc, reports.len() as int, i, x);
        }
        lemma_saturated_stable(reports, opts, entries, b, reports.len() as int);
        assert(spec_indirect_round(reports, opts, entries, b) == b);
        lemma_closure_stable(reports, opts, entries, b, n);
    } else {
        // The contributors grew strictly, which can happen at most once per
        // report; the budget shrinks with them.
        let w = choose|w: int| cb.contains(w) && !csrc.contains(w);
        csrc.lemma_subset_not_in_lt(cb, w);
        assert(csrc.len() < cb.len());
        let b2 = spec_indirect_round(reports, opts, entries, b);
        if b2.len() == b.len() {
            lemma_closure_stable(reports, opts, entries, b, n);
        } else {
            assert(n >= 1) by {
                if n == 0 {
                    assert(csrc.len() >= reports.len());
                    vstd::set_lib::lemma_len_subset(
                        csrc,
                        vstd::set_lib::set_int_range(0, reports.len() as int),
                    );
                    assert(csrc =~= vstd::set_lib::set_int_range(0, reports.len() as int));
                    assert(cb.subset_of(csrc));
                    assert(cb =~= csrc);
                }
            }
            lemma_stabilizes(reports, opts, entries, b, n - 1);
            assert(spec_indirect_closure(reports, opts, entries, b, n)
                == spec_indirect_closure(reports, opts, entries, b2, n - 1));
        }
    }
}

/// The indirect-involvement closure terminates: after at most as many
/// rounds as there are reports, one more round changes nothing.
pub proof fn lemma_closure_terminates(
    reports: Seq<ReportV>,
    opts: OptionsV,
    entries: Seq<OwnedV>,
)
    ensures
        ({
            let c = spec_indirect_closure(
                reports,
                opts,
                entries,
                Seq::empty(),
                reports.len() as int,
            );
            spec_indirect_round(reports, opts, entries, c) == c
        }),
{
    let e0: Seq<Seq<char>> = Seq::empty();
    let n = reports.len() as int;
    let b1 = spec_indirect_round(reports, opts, entries, e0);
    lemma_round_monotonic(reports, opts, entries, e0, reports.len() as int);
    if n == 0 {
        assert(spec_indirect_closure(reports, opts, entries, e0, 0) == e0);
        assert(spec_indirect_round(reports, opts, entries, e0) == e0);
    } else if b1.len() == e0.len() {
        lemma_closure_stable(reports, opts, entries, e0, n);
    } else {
        // The first round was productive, so some report contributed.
        let c0 = spec_contributors(reports, opts, entries, e0);
        assert(c0.len() >= 1) by {
            if c0.len() == 0 {
                vstd::set_lib::lemma_int_range(0, reports.len() as int);
                vstd::set_lib::lemma_len_subset(
                    c0,
                    vstd::set_lib::set_int_range(0, reports.len() as int),
                );
                assert(c0.finite());
                assert forall|i: int, x: Seq<char>|
                    0 <= i < reports.len() && spec_contributes(reports[i], opts, entries, e0)
                        && (#[trigger] reports[i].indirect_classes.contains(x))
                    implies seq_contains_str(e0, x) by {
                    assert(c0.contains(i));
                    if c0.len() == 0 {
                        assert(c0 =~= Set::empty()) by {
                            c0.lemma_len0_is_empty();
                        }
                    }
                }
                lemma_saturated_stable(reports, opts, entries, e0, reports.len() as int);
            }
        }
        lemma_stabilizes(reports, opts, entries, e0, n - 1);
        assert(spec_indirect_closure(reports, opts, entries, e0, n)
            == spec_indirect_closure(reports, opts, entries, b1, n - 1));
    }
}

} // verus!
