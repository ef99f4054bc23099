use vstd::prelude::*;

use crate::checks::spec_target_module_team;
use crate::kind::{kind_ord, spec_kind_ord, spec_kind_weight, Kind};
use crate::model::{JavaClass, JavaModule, ModuleV};
use crate::ownership::{OwnedClass, OwnedV};
use crate::report::{Report, ReportV};
use crate::strops::{push_dv, push_unique, spec_push_unique, str_eq};

verus! {

/// Number of reports of the given kind among the first `j`.
pub open spec fn spec_count_kind(s: Seq<ReportV>, k: Kind, j: int) -> int
    decreases j,
{
    if j <= 0 {
        0int
    } else {
        spec_count_kind(s, k, j - 1) + if s[j - 1].kind == k {
            1int
        } else {
            0int
        }
    }
}

pub proof fn lemma_count_kind_bound(s: Seq<ReportV>, k: Kind, j: int)
    requires
        0 <= j <= s.len(),
    ensures
        0 <= spec_count_kind(s, k, j) <= j,
    decreases j,
{
    if j > 0 {
        lemma_count_kind_bound(s, k, j - 1);
    }
}

pub fn count_kind(reports: &Vec<Report>, k: Kind) -> (r: usize)
    ensures
        r == spec_count_kind(reports.deep_view(), k, reports.deep_view().len() as int),
{
    let ghost s = reports.deep_view();
    let mut count: usize = 0;
    let mut j: usize = 0;
    while j < reports.len()
        invariant
            0 <= j <= reports@.len(),
            s == reports.deep_view(),
            s.len() == reports@.len(),
            count == spec_count_kind(s, k, j as int),
            count <= j,
        decreases reports@.len() - j,
    {
        assert(s[j as int] == reports@[j as int]@);
        if reports[j].kind == k {
            count += 1;
        }
        j += 1;
    }
    count
}

/// Number of reports of the given kind filed for the given team.
pub open spec fn spec_count_team_kind(s: Seq<ReportV>, team: Seq<char>, k: Kind, j: int) -> int
    decreases j,
{
    if j <= 0 {
        0int
    } else {
        spec_count_team_kind(s, team, k, j - 1) + if s[j - 1].kind == k && s[j - 1].for_team
            == team {
            1int
        } else {
            0int
        }
    }
}

pub fn count_team_kind(reports: &Vec<Report>, team: &String, k: Kind) -> (r: usize)
    ensures
        r == spec_count_team_kind(reports.deep_view(), team@, k, reports.deep_view().len() as int),
{
    let ghost s = reports.deep_view();
    let mut count: usize = 0;
    let mut j: usize = 0;
    while j < reports.len()
        invariant
            0 <= j <= reports@.len(),
            s == reports.deep_view(),
            s.len() == reports@.len(),
            count == spec_count_team_kind(s, team@, k, j as int),
            count <= j,
        decreases reports@.len() - j,
    {
        assert(s[j as int] == reports@[j as int]@);
        if reports[j].kind == k && str_eq(&reports[j].for_team, team) {
            count += 1;
        }
        j += 1;
    }
    count
}

/// The weighted issue points of a report list: each report counts its
/// kind's weight.
pub open spec fn spec_issue_points(s: Seq<ReportV>, j: int) -> int
    decreases j,
{
    if j <= 0 {
        0int
    } else {
        spec_issue_points(s, j - 1) + spec_kind_weight(s[j - 1].kind)
    }
}

pub proof fn lemma_issue_points_bound(s: Seq<ReportV>, j: int)
    requires
        0 <= j <= s.len(),
    ensures
        0 <= spec_issue_points(s, j) <= 5 * j,
    decreases j,
{
    if j > 0 {
        lemma_issue_points_bound(s, j - 1);
    }
}

pub fn issue_points(reports: &Vec<Report>) -> (r: u128)
    ensures
        r == spec_issue_points(reports.deep_view(), reports.deep_view().len() as int),
{
    let ghost s = reports.deep_view();
    let mut total: u128 = 0;
    let mut j: usize = 0;
    while j < reports.len()
        invariant
            0 <= j <= reports@.len(),
            s == reports.deep_view(),
            s.len() == reports@.len(),
            total == spec_issue_points(s, j as int),
            total <= 5 * (j as int),
        decreases reports@.len() - j,
    {
        assert(s[j as int] == reports@[j as int]@);
        let w = crate::kind::kind_weight(reports[j].kind);
        total += w as u128;
        j += 1;
    }
    total
}

/// The weighted issue points of one team's reports.
pub open spec fn spec_team_issue_points(s: Seq<ReportV>, team: Seq<char>, j: int) -> int
    decreases j,
{
    if j <= 0 {
        0int
    } else {
        spec_team_issue_points(s, team, j - 1) + if s[j - 1].for_team == team {
            spec_kind_weight(s[j - 1].kind)
        } else {
            0int
        }
    }
}

pub fn team_issue_points(reports: &Vec<Report>, team: &String) -> (r: u128)
    ensures
        r == spec_team_issue_points(
            reports.deep_view(),
            team@,
            reports.deep_view().len() as int,
        ),
{
    let ghost s = reports.deep_view();
    let mut total: u128 = 0;
    let mut j: usize = 0;
    while j < reports.len()
        invariant
            0 <= j <= reports@.len(),
            s == reports.deep_view(),
            s.len() == reports@.len(),
            total == spec_team_issue_points(s, team@, j as int),
            total <= 5 * (j as int),
        decreases reports@.len() - j,
    {
        assert(s[j as int] == reports@[j as int]@);
        if str_eq(&reports[j].for_team, team) {
            let w = crate::kind::kind_weight(reports[j].kind);
            total += w as u128;
        } else {
            proof {
                assert(spec_team_issue_points(s, team@, j + 1) == spec_team_issue_points(
                    s,
                    team@,
                    j as int,
                ));
            }
        }
        j += 1;
    }
    total
}

/// The distinct teams of the first `j` reports, in order of first
/// appearance.
pub open spec fn spec_teams_of(s: Seq<ReportV>, j: int) -> Seq<Seq<char>>
    decreases j,
{
    if j <= 0 {
        Seq::empty()
    } else {
        spec_push_unique(spec_teams_of(s, j - 1), s[j - 1].for_team)
    }
}

pub fn teams_of(reports: &Vec<Report>) -> (r: Vec<String>)
    ensures
        r.deep_view() == spec_teams_of(reports.deep_view(), reports.deep_view().len() as int),
{
    let ghost s = reports.deep_view();
    let mut teams: Vec<String> = Vec::new();
    assert(teams.deep_view() =~= Seq::<Seq<char>>::empty());
    let mut j: usize = 0;
    while j < reports.len()
        invariant
            0 <= j <= reports@.len(),
            s == reports.deep_view(),
            s.len() == reports@.len(),
            teams.deep_view() == spec_teams_of(s, j as int),
        decreases reports@.len() - j,
    {
        assert(s[j as int] == reports@[j as int]@);
        push_unique(&mut teams, reports[j].for_team.clone());
        j += 1;
    }
    teams
}

/// The resolved team of an owned unit, as the scoring sees it.
pub open spec fn spec_entry_team(e: OwnedV, mods: Seq<ModuleV>) -> Seq<char> {
    JavaClass::spec_resolved_team(
        e.class,
        mods[e.module_index],
        spec_target_module_team(e.class, mods),
    )
}

/// Number of owned units among the first `j` whose resolved team is the
/// given one.
pub open spec fn spec_count_team_classes(
    entries: Seq<OwnedV>,
    mods: Seq<ModuleV>,
    team: Seq<char>,
    j: int,
) -> int
    decreases j,
{
    if j <= 0 {
        0int
    } else {
        spec_count_team_classes(entries, mods, team, j - 1) + if spec_entry_team(
            entries[j - 1],
            mods,
        ) == team {
            1int
        } else {
            0int
        }
    }
}

pub fn count_team_classes(
    entries: &Vec<OwnedClass>,
    modules: &Vec<JavaModule>,
    team: &String,
) -> (r: usize)
    requires
        forall|k: int|
            0 <= k < entries.deep_view().len() ==> 0 <= (
            #[trigger] entries.deep_view()[k]).module_index < modules.deep_view().len(),
    ensures
        r == spec_count_team_classes(
            entries.deep_view(),
            modules.deep_view(),
            team@,
            entries.deep_view().len() as int,
        ),
{
    let ghost ent = entries.deep_view();
    let ghost mods = modules.deep_view();
    let mut count: usize = 0;
    let mut j: usize = 0;
    while j < entries.len()
        invariant
            0 <= j <= entries@.len(),
            ent == entries.deep_view(),
            mods == modules.deep_view(),
            ent.len() == entries@.len(),
            mods.len() == modules@.len(),
            forall|k: int|
                0 <= k < ent.len() ==> 0 <= (#[trigger] ent[k]).module_index < mods.len(),
            count == spec_count_team_classes(ent, mods, team@, j as int),
            count <= j,
        decreases entries@.len() - j,
    {
        assert(ent[j as int] == entries@[j as int]@);
        let e = &entries[j];
        let m = &modules[e.module_index];
        assert(m@ == mods[ent[j as int].module_index]);
        let tmt = crate::checks::target_module_team(&e.class, modules);
        let t = e.class.team(m, &tmt);
        if str_eq(&t, team) {
            count += 1;
        }
        j += 1;
    }
    count
}

/// Per-team scoring: the count of the team's reports by kind, its
/// weighted issue points, and the number of units it owns.
pub struct TeamSummary {
    pub team: String,
    pub kind_counts: Vec<usize>,
    pub issue_points: u128,
    pub class_count: usize,
}

#[verifier::ext_equal]
pub struct TeamSummaryV {
    pub team: Seq<char>,
    pub kind_counts: Seq<usize>,
    pub issue_points: int,
    pub class_count: int,
}

impl View for TeamSummary {
    type V = TeamSummaryV;

    open spec fn view(&self) -> TeamSummaryV {
        TeamSummaryV {
            team: self.team@,
            kind_counts: self.kind_counts@,
            issue_points: self.issue_points as int,
            class_count: self.class_count as int,
        }
    }
}

impl DeepView for TeamSummary {
    type V = TeamSummaryV;

    open spec fn deep_view(&self) -> TeamSummaryV {
        self.view()
    }
}

/// What one team's summary must hold, relative to the filtered reports
/// and the ownership table.
pub open spec fn spec_team_summary_ok(
    t: TeamSummaryV,
    team: Seq<char>,
    s: Seq<ReportV>,
    entries: Seq<OwnedV>,
    mods: Seq<ModuleV>,
) -> bool {
    &&& t.team == team
    &&& t.kind_counts.len() == 7
    &&& forall|o: int|
        0 <= o < 7 ==> forall|k: Kind|
            spec_kind_ord(k) == o ==> #[trigger] t.kind_counts[o] == spec_count_team_kind(
                s,
                team,
                k,
                s.len() as int,
            )
    &&& t.issue_points == spec_team_issue_points(s, team, s.len() as int)
    &&& t.class_count == spec_count_team_classes(entries, mods, team, entries.len() as int)
}

/// The summary of one team over the filtered reports.
pub fn team_summary(
    reports: &Vec<Report>,
    entries: &Vec<OwnedClass>,
    modules: &Vec<JavaModule>,
    team: &String,
) -> (r: TeamSummary)
    requires
        forall|k: int|
            0 <= k < entries.deep_view().len() ==> 0 <= (
            #[trigger] entries.deep_view()[k]).module_index < modules.deep_view().len(),
    ensures
        spec_team_summary_ok(
            r@,
            team@,
            reports.deep_view(),
            entries.deep_view(),
            modules.deep_view(),
        ),
{
    let kinds = crate::kind::all_kinds();
    let mut counts: Vec<usize> = Vec::new();
    let ghost s = reports.deep_view();
    let mut o: usize = 0;
    while o < 7
        invariant
            0 <= o <= 7,
            s == reports.deep_view(),
            kinds@.len() == 7,
            forall|i: int| 0 <= i < 7 ==> spec_kind_ord(kinds@[i]) == i,
            counts@.len() == o,
            forall|i: int|
                0 <= i < o ==> #[trigger] counts@[i] == spec_count_team_kind(
                    s,
                    team@,
                    kinds@[i],
                    s.len() as int,
                ),
        decreases 7 - o,
    {
        let c = count_team_kind(reports, team, kinds[o]);
        counts.push(c);
        o += 1;
    }
    proof {
        assert forall|o2: int| 0 <= o2 < 7 implies forall|k: Kind|
            spec_kind_ord(k) == o2 ==> #[trigger] counts@[o2] == spec_count_team_kind(
                s,
                team@,
                k,
                s.len() as int,
            ) by {
            assert forall|k: Kind|
                spec_kind_ord(k) == o2 implies #[trigger] counts@[o2] == spec_count_team_kind(
                s,
                team@,
                k,
                s.len() as int,
            ) by {
                assert(spec_kind_ord(kinds@[o2]) == o2);
                assert(kinds@[o2] == k);
            }
        }
    }
    TeamSummary {
        team: team.clone(),
        kind_counts: counts,
        issue_points: team_issue_points(reports, team),
        class_count: count_team_classes(entries, modules, team),
    }
}

} // verus!
