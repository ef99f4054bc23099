use vstd::prelude::*;

use crate::checks::{
    report_layering, spec_check_already_in_target, spec_check_for_reversed_dependency,
    spec_reversed_pref,
};
use crate::kind::Kind;
use crate::model::{ClassV, ModuleV};
use crate::moves::{spec_check_for_demotion, spec_check_for_promotion};
use crate::ownership::{
    lemma_lookup_module_props, module_named, spec_lookup_module, OwnedV,
};
use crate::report::{Explanation, ReportV};

verus! {

/// Number of occurrences of `x` among the first `j` reports.
pub open spec fn count_of(s: Seq<ReportV>, x: ReportV, j: int) -> int
    decreases j,
{
    if j <= 0 {
        0int
    } else {
        count_of(s, x, j - 1) + if s[j - 1] == x {
            1int
        } else {
            0int
        }
    }
}

proof fn lemma_count_concat(a: Seq<ReportV>, b: Seq<ReportV>, x: ReportV)
    ensures
        count_of(a + b, x, (a + b).len() as int) == count_of(a, x, a.len() as int) + count_of(
            b,
            x,
            b.len() as int,
        ),
    decreases b.len(),
{
    if b.len() == 0 {
        assert(a + b =~= a);
        assert(count_of(a + b, x, (a + b).len() as int) == count_of(a, x, a.len() as int));
    } else {
        lemma_count_concat(a, b.drop_last(), x);
        assert((a + b).drop_last() =~= a + b.drop_last());
        assert(count_of(a + b, x, (a + b).len() as int) == count_of(
            (a + b).drop_last(),
            x,
            (a + b.drop_last()).len() as int,
        ) + if (a + b).last() == x {
            1int
        } else {
            0int
        }) by {
            lemma_count_prefix_eq(a + b, (a + b).drop_last(), (a + b).len() - 1);
        }
        assert(count_of(b, x, b.len() as int) == count_of(b.drop_last(), x, b.len() - 1) + if b.last()
            == x {
            1int
        } else {
            0int
        }) by {
            lemma_count_prefix_eq(b, b.drop_last(), b.len() - 1);
        }
        assert((a + b).last() == b.last());
    }
}

proof fn lemma_count_prefix_eq(s: Seq<ReportV>, t: Seq<ReportV>, j: int)
    requires
        0 <= j <= s.len(),
        j <= t.len(),
        forall|i: int| 0 <= i < j ==> s[i] == t[i],
    ensures
        forall|x: ReportV| #![auto] count_of(s, x, j) == count_of(t, x, j),
    decreases j,
{
    if j > 0 {
        lemma_count_prefix_eq(s, t, j - 1);
        assert forall|x: ReportV| #![auto] count_of(s, x, j) == count_of(t, x, j) by {
            assert(s[j - 1] == t[j - 1]);
            assert(count_of(s, x, j - 1) == count_of(t, x, j - 1));
        }
    }
}

proof fn lemma_count_single(s: Seq<ReportV>, x: ReportV)
    requires
        s.len() == 1,
    ensures
        count_of(s, x, 1) == if s[0] == x {
            1int
        } else {
            0int
        },
{
    assert(count_of(s, x, 0) == 0);
}

/// Concatenation of sequences cancels on the right: equal results with the
/// same suffix have equal prefixes.
proof fn lemma_concat_right_cancel(x: Seq<char>, y: Seq<char>, s: Seq<char>)
    requires
        x + s == y + s,
    ensures
        x == y,
{
    assert((x + s).len() == x.len() + s.len());
    assert((y + s).len() == y.len() + s.len());
    assert(x.len() == y.len());
    assert forall|i: int| 0 <= i < x.len() implies x[i] == y[i] by {
        assert((x + s)[i] == x[i]);
        assert((y + s)[i] == y[i]);
    }
    assert(x =~= y);
}

/// Two layering reports for the same module and different dependency
/// modules differ.
proof fn lemma_layering_reports_distinct(m: ModuleV, d1: ModuleV, d2: ModuleV)
    requires
        d1.name != d2.name,
    ensures
        report_layering(m, d1) != report_layering(m, d2),
{
    if report_layering(m, d1) == report_layering(m, d2) {
        let pre = "Module "@ + m.name + " depends on module "@;
        let suf = " that is not lower"@;
        assert(report_layering(m, d1).message =~= pre + (d1.name + suf));
        assert(report_layering(m, d2).message =~= pre + (d2.name + suf));
        assert(pre + (d1.name + suf) == pre + (d2.name + suf));
        assert(d1.name + suf =~= (pre + (d1.name + suf)).skip(pre.len() as int));
        assert(d2.name + suf =~= (pre + (d2.name + suf)).skip(pre.len() as int));
        lemma_concat_right_cancel(d1.name, d2.name, suf);
    }
}

proof fn lemma_layering_count_pref(m: ModuleV, mods: Seq<ModuleV>, k: int, j: int)
    requires
        0 <= k < m.dependencies.len(),
        j <= m.dependencies.len(),
        module_named(mods, m.dependencies[k]),
        forall|i1: int, i2: int|
            0 <= i1 < i2 < m.dependencies.len() ==> m.dependencies[i1] != m.dependencies[i2],
    ensures
        ({
            let d = spec_lookup_module(mods, m.dependencies[k])->0;
            let reps = spec_reversed_pref(m, mods, j);
            count_of(reps, report_layering(m, d), reps.len() as int) == if k < j && d.index
                >= m.index {
                1int
            } else {
                0int
            }
        }),
    decreases j,
{
    lemma_lookup_module_props(mods, m.dependencies[k]);
    let d = spec_lookup_module(mods, m.dependencies[k])->0;
    let x = report_layering(m, d);
    if j <= 0 {
    } else {
        lemma_layering_count_pref(m, mods, k, j - 1);
        let prev = spec_reversed_pref(m, mods, j - 1);
        let dep = spec_lookup_module(mods, m.dependencies[j - 1]);
        let step: Seq<ReportV> = if dep is Some && dep->0.index >= m.index {
            seq![report_layering(m, dep->0)]
        } else {
            Seq::empty()
        };
        assert(spec_reversed_pref(m, mods, j) == prev + step);
        lemma_count_concat(prev, step, x);
        if j - 1 == k {
            assert(dep is Some);
            assert(dep->0 == d);
            if d.index >= m.index {
                lemma_count_single(step, x);
                assert(count_of(step, x, step.len() as int) == 1);
            } else {
                assert(count_of(step, x, step.len() as int) == 0);
            }
        } else {
            if dep is Some && dep->0.index >= m.index {
                lemma_lookup_module_props(mods, m.dependencies[j - 1]);
                assert(dep->0.name == m.dependencies[j - 1]);
                assert(d.name == m.dependencies[k]);
                assert(m.dependencies[j - 1] != m.dependencies[k]);
                lemma_layering_reports_distinct(m, dep->0, d);
                lemma_count_single(step, x);
                assert(count_of(step, x, step.len() as int) == 0);
            } else {
                assert(count_of(step, x, step.len() as int) == 0);
            }
        }
    }
}

/// The layering invariant: a declared dependency on a module with a
/// strictly lower layer index produces no layering report for the pair,
/// and any other declared dependency produces exactly one report for the
/// pair.
pub proof fn lemma_layering_invariant(m: ModuleV, mods: Seq<ModuleV>, k: int)
    requires
        0 <= k < m.dependencies.len(),
        module_named(mods, m.dependencies[k]),
        forall|i1: int, i2: int|
            0 <= i1 < i2 < m.dependencies.len() ==> m.dependencies[i1] != m.dependencies[i2],
    ensures
        ({
            let d = spec_lookup_module(mods, m.dependencies[k])->0;
            let reps = spec_check_for_reversed_dependency(m, mods);
            &&& (d.index < m.index ==> count_of(reps, report_layering(m, d), reps.len() as int)
                == 0)
            &&& (d.index >= m.index ==> count_of(reps, report_layering(m, d), reps.len() as int)
                == 1)
        }),
{
    lemma_layering_count_pref(m, mods, k, m.dependencies.len() as int);
}

/// Promotion idempotence: once a unit's owning module is its annotated
/// target, re-running the analysis reports the stale annotation as a
/// warning and emits no further promotion or demotion report for the
/// unit, in particular no move action.
pub proof fn lemma_promotion_idempotent(
    c: ClassV,
    m: ModuleV,
    mods: Seq<ModuleV>,
    entries: Seq<OwnedV>,
    dependees: Option<Seq<Seq<char>>>,
    tmt: Option<Seq<char>>,
)
    requires
        c.target_module == Some(m.name),
        module_named(mods, m.name),
    ensures
        spec_check_for_promotion(c, m, mods, entries) == Seq::<ReportV>::empty(),
        spec_check_for_demotion(c, dependees, m, mods, entries) == Seq::<ReportV>::empty(),
        spec_check_already_in_target(c, m, tmt).len() == 1,
        spec_check_already_in_target(c, m, tmt)[0].kind == Kind::Warning,
        spec_check_already_in_target(c, m, tmt)[0].explanation
            == Explanation::ClassAlreadyInTheTargetModule,
        spec_check_already_in_target(c, m, tmt)[0].for_class == c.name,
{
    lemma_lookup_module_props(mods, m.name);
    let t = spec_lookup_module(mods, m.name)->0;
    assert(t.name == m.name);
}

} // verus!
