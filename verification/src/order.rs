use vstd::prelude::*;
use vstd::multiset::Multiset;
use vstd::seq_lib::lemma_multiset_commutative;

use crate::kind::{kind_ord, spec_kind_ord};
use crate::report::{Report, ReportV};
use crate::strops::{lemma_lex_le_total, lemma_lex_le_trans, lex_le, str_lex_le};

verus! {

/// The listing order of reports: by kind ordinal, then by message.
pub open spec fn report_le(a: ReportV, b: ReportV) -> bool {
    spec_kind_ord(a.kind) < spec_kind_ord(b.kind) || (spec_kind_ord(a.kind) == spec_kind_ord(
        b.kind,
    ) && lex_le(a.message, b.message))
}

pub proof fn lemma_report_le_total(a: ReportV, b: ReportV)
    ensures
        report_le(a, b) || report_le(b, a),
{
    lemma_lex_le_total(a.message, b.message);
}

pub proof fn lemma_report_le_trans(a: ReportV, b: ReportV, c: ReportV)
    requires
        report_le(a, b),
        report_le(b, c),
    ensures
        report_le(a, c),
{
    if spec_kind_ord(a.kind) == spec_kind_ord(b.kind) && spec_kind_ord(b.kind) == spec_kind_ord(
        c.kind,
    ) {
        lemma_lex_le_trans(a.message, b.message, c.message);
    }
}

pub fn report_le_exec(a: &Report, b: &Report) -> (r: bool)
    ensures
        r == report_le(a@, b@),
{
    let ka = kind_ord(a.kind);
    let kb = kind_ord(b.kind);
    if ka < kb {
        true
    } else if ka > kb {
        false
    } else {
        str_lex_le(&a.message, &b.message)
    }
}

/// Pairwise sortedness under the report listing order.
pub open spec fn reports_sorted(s: Seq<ReportV>) -> bool {
    forall|i: int, j: int| 0 <= i < j < s.len() ==> report_le(s[i], s[j])
}

proof fn lemma_insert_multiset<A>(s: Seq<A>, i: int, x: A)
    requires
        0 <= i <= s.len(),
    ensures
        s.insert(i, x).to_multiset() == s.to_multiset().insert(x),
{
    broadcast use vstd::seq_lib::group_to_multiset_ensures;

    assert(s.insert(i, x) =~= s.take(i).push(x) + s.skip(i));
    lemma_multiset_commutative(s.take(i).push(x), s.skip(i));
    assert(s =~= s.take(i) + s.skip(i));
    lemma_multiset_commutative(s.take(i), s.skip(i));
    assert(s.take(i).push(x).to_multiset() =~= s.take(i).to_multiset().insert(x));
    assert(s.insert(i, x).to_multiset() =~= s.to_multiset().insert(x));
}

/// Insert one report into an already sorted vector, keeping it sorted.
fn insert_sorted(out: &mut Vec<Report>, x: Report)
    requires
        reports_sorted(old(out).deep_view()),
    ensures
        reports_sorted(final(out).deep_view()),
        final(out).deep_view().to_multiset() == old(out).deep_view().to_multiset().insert(x@),
{
    let ghost pre = out.deep_view();
    let ghost prevv = out@;
    let ghost xv = x@;
    let mut idx: usize = out.len();
    let mut done = false;
    while !done && idx > 0
        invariant
            0 <= idx <= out@.len(),
            out@ == prevv,
            pre == out.deep_view(),
            pre.len() == out@.len(),
            xv == x@,
            forall|j: int| idx <= j < pre.len() ==> !report_le(#[trigger] pre[j], xv),
            done ==> idx > 0 && report_le(pre[idx - 1], xv),
        decreases idx + (if done {
            0int
        } else {
            1int
        }),
    {
        assert(pre[idx - 1] == out@[idx - 1]@);
        if report_le_exec(&out[idx - 1], &x) {
            done = true;
        } else {
            idx -= 1;
        }
    }
    assert(idx > 0 ==> report_le(pre[idx - 1], xv));
    out.insert(idx, x);
    proof {
        assert(out@ == prevv.insert(idx as int, x));
        let now = out.deep_view();
        assert(now.len() == pre.len() + 1);
        assert forall|j: int| 0 <= j < now.len() implies #[trigger] now[j] == pre.insert(
            idx as int,
            xv,
        )[j] by {
            if j < idx {
                assert(out@[j] == prevv[j]);
            } else if j == idx {
                assert(out@[j] == x);
            } else {
                assert(out@[j] == prevv[j - 1]);
            }
        }
        assert(now =~= pre.insert(idx as int, xv));
        lemma_insert_multiset(pre, idx as int, xv);
        assert forall|i: int, j: int| 0 <= i < j < now.len() implies report_le(now[i], now[j]) by {
            let a = now[i];
            let b = now[j];
            if j < idx {
                assert(report_le(pre[i], pre[j]));
            } else if i > idx {
                assert(report_le(pre[i - 1], pre[j - 1]));
            } else if i == idx && j > idx {
                assert(!report_le(pre[j - 1], xv));
                lemma_report_le_total(xv, pre[j - 1]);
            } else if j == idx && i < idx {
                assert(report_le(pre[idx - 1], xv));
                if i < idx - 1 {
                    assert(report_le(pre[i], pre[idx - 1]));
                    lemma_report_le_trans(pre[i], pre[idx - 1], xv);
                }
            } else {
                assert(i < idx && j > idx);
                assert(!report_le(pre[j - 1], xv));
                lemma_report_le_total(xv, pre[j - 1]);
                if i < idx - 1 {
                    assert(report_le(pre[i], pre[idx - 1]));
                    lemma_report_le_trans(pre[i], pre[idx - 1], xv);
                    lemma_report_le_trans(pre[i], xv, pre[j - 1]);
                } else {
                    assert(report_le(pre[i], xv));
                    lemma_report_le_trans(pre[i], xv, pre[j - 1]);
                }
            }
        }
    }
}

/// Sort reports by kind severity, with the message as the tie-break, so
/// the listing is deterministic; the result is a permutation of the input.
pub fn sort_reports(v: Vec<Report>) -> (r: Vec<Report>)
    ensures
        reports_sorted(r.deep_view()),
        r.deep_view().to_multiset() == v.deep_view().to_multiset(),
        r.deep_view().len() == v.deep_view().len(),
{
    broadcast use vstd::seq_lib::group_to_multiset_ensures;

    let ghost vs = v.deep_view();
    let mut out: Vec<Report> = Vec::new();
    let mut v = v;
    proof {
        assert(out.deep_view() =~= Seq::<ReportV>::empty());
        assert(vs.take(0) =~= Seq::<ReportV>::empty());
        assert(Seq::<ReportV>::empty().to_multiset() =~= Multiset::empty());
        assert(vs.take(0).to_multiset() == out.deep_view().to_multiset());
    }
    let n = v.len();
    let mut i: usize = 0;
    while i < n
        invariant
            0 <= i <= n,
            n == v@.len(),
            vs == v.deep_view(),
            vs.len() == v@.len(),
            reports_sorted(out.deep_view()),
            out.deep_view().to_multiset() == vs.take(i as int).to_multiset(),
        decreases n - i,
    {
        assert(vs[i as int] == v@[i as int]@);
        let x = v[i].clone();
        assert(x@ == vs[i as int]);
        insert_sorted(&mut out, x);
        i += 1;
        proof {
            broadcast use vstd::seq_lib::group_to_multiset_ensures;

            assert(vs.take(i as int) =~= vs.take(i - 1).push(vs[i - 1]));
            assert(vs.take(i as int).to_multiset() =~= vs.take(i - 1).to_multiset().insert(
                vs[i - 1],
            ));
        }
    }
    proof {
        assert(vs.take(n as int) =~= vs);
        broadcast use vstd::seq_lib::group_to_multiset_ensures;

        assert(out.deep_view().to_multiset().len() == vs.to_multiset().len());
    }
    out
}

} // verus!
