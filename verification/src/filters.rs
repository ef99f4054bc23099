use vstd::prelude::*;

use crate::kind::Kind;
use crate::model::spec_unknown_team;
use crate::ownership::{spec_lookup_owned_by_location, lookup_owned_by_location, OwnedClass, OwnedV};
use crate::report::{Report, ReportV};
use crate::strops::{seq_contains_str, str_eq, str_starts_with, vec_contains_str};

verus! {

/// The filter and gating configuration of one analysis run. The
/// issue-point threshold is a presentation concern (it gates the exit
/// status against a fractional score) and stays outside the engine.
pub struct AnalyzeOptions {
    pub exit_code: bool,
    pub class_filter: Vec<String>,
    pub location_class_filter: Vec<String>,
    pub module_filter: Option<String>,
    pub root_filter: Option<String>,
    pub team_filter: Option<String>,
    pub only_team_filter: bool,
    pub kind_filter: Vec<Kind>,
    pub auto_actionable_filter: bool,
    pub auto_actionable_command: bool,
    pub indirect: Option<u32>,
    pub top_blockers: Option<u32>,
}

#[verifier::ext_equal]
pub struct OptionsV {
    pub exit_code: bool,
    pub class_filter: Seq<Seq<char>>,
    pub location_class_filter: Seq<Seq<char>>,
    pub module_filter: Option<Seq<char>>,
    pub root_filter: Option<Seq<char>>,
    pub team_filter: Option<Seq<char>>,
    pub only_team_filter: bool,
    pub kind_filter: Seq<Kind>,
    pub auto_actionable_filter: bool,
    pub auto_actionable_command: bool,
    pub indirect: Option<u32>,
    pub top_blockers: Option<u32>,
}

impl View for AnalyzeOptions {
    type V = OptionsV;

    open spec fn view(&self) -> OptionsV {
        OptionsV {
            exit_code: self.exit_code,
            class_filter: self.class_filter.deep_view(),
            location_class_filter: self.location_class_filter.deep_view(),
            module_filter: self.module_filter.deep_view(),
            root_filter: self.root_filter.deep_view(),
            team_filter: self.team_filter.deep_view(),
            only_team_filter: self.only_team_filter,
            kind_filter: self.kind_filter@,
            auto_actionable_filter: self.auto_actionable_filter,
            auto_actionable_command: self.auto_actionable_command,
            indirect: self.indirect,
            top_blockers: self.top_blockers,
        }
    }
}

/// Whether a module name falls under the root filter: the root is a
/// strict prefix, delimited by the target separator.
pub open spec fn spec_is_with_root(opts: OptionsV, module_name: Seq<char>) -> bool {
    match opts.root_filter {
        None => false,
        Some(root) => root.is_prefix_of(module_name) && module_name.len() > root.len()
            && module_name[root.len() as int] == ':',
    }
}

pub fn is_with_root(opts: &AnalyzeOptions, module_name: &String) -> (r: bool)
    ensures
        r == spec_is_with_root(opts@, module_name@),
{
    match &opts.root_filter {
        None => false,
        Some(root) => {
            if !str_starts_with(module_name, root) {
                return false;
            }
            let nn = module_name.as_str().unicode_len();
            let rn = root.as_str().unicode_len();
            if nn <= rn {
                return false;
            }
            module_name.as_str().get_char(rn) == ':'
        },
    }
}

pub open spec fn spec_filter_by_root(opts: OptionsV, report: ReportV) -> bool {
    opts.root_filter is None || exists|i: int|
        0 <= i < report.for_modules.len() && spec_is_with_root(
            opts,
            #[trigger] report.for_modules[i],
        )
}

pub fn filter_by_root(opts: &AnalyzeOptions, report: &Report) -> (r: bool)
    ensures
        r == spec_filter_by_root(opts@, report@),
{
    if opts.root_filter.is_none() {
        return true;
    }
    let ghost ms = report@.for_modules;
    let mut i: usize = 0;
    while i < report.for_modules.len()
        invariant
            0 <= i <= report.for_modules@.len(),
            ms == report@.for_modules,
            ms.len() == report.for_modules@.len(),
            forall|j: int| 0 <= j < i ==> !spec_is_with_root(opts@, #[trigger] ms[j]),
        decreases report.for_modules@.len() - i,
    {
        assert(ms[i as int] == report.for_modules@[i as int]@);
        if is_with_root(opts, &report.for_modules[i]) {
            return true;
        }
        i += 1;
    }
    false
}

/// Module names always excluded from the report listing.
pub open spec fn spec_excluded_module(name: Seq<char>) -> bool {
    ||| name == "//990-commons-test:abstract-module"@
    ||| name == "//990-commons-test:module"@
    ||| name == "//990-commons-test:tests"@
}

pub fn excluded_module(name: &String) -> (r: bool)
    ensures
        r == spec_excluded_module(name@),
{
    let a = "//990-commons-test:abstract-module".to_owned();
    let b = "//990-commons-test:module".to_owned();
    let c = "//990-commons-test:tests".to_owned();
    str_eq(name, &a) || str_eq(name, &b) || str_eq(name, &c)
}

pub open spec fn spec_filter_by_module(opts: OptionsV, report: ReportV) -> bool {
    (exists|i: int|
        0 <= i < report.for_modules.len() && !spec_excluded_module(
            #[trigger] report.for_modules[i],
        )) && (opts.module_filter is None || seq_contains_str(
        report.for_modules,
        opts.module_filter->0,
    ))
}

pub fn filter_by_module(opts: &AnalyzeOptions, report: &Report) -> (r: bool)
    ensures
        r == spec_filter_by_module(opts@, report@),
{
    let ghost ms = report@.for_modules;
    let mut any_kept = false;
    let mut i: usize = 0;
    while i < report.for_modules.len()
        invariant
            0 <= i <= report.for_modules@.len(),
            ms == report@.for_modules,
            ms.len() == report.for_modules@.len(),
            any_kept == exists|j: int| 0 <= j < i && !spec_excluded_module(#[trigger] ms[j]),
        decreases report.for_modules@.len() - i,
    {
        assert(ms[i as int] == report.for_modules@[i as int]@);
        if !excluded_module(&report.for_modules[i]) {
            any_kept = true;
        }
        i += 1;
    }
    if !any_kept {
        return false;
    }
    match &opts.module_filter {
        None => true,
        Some(f) => vec_contains_str(&report.for_modules, f),
    }
}

pub open spec fn spec_filter_by_kind(opts: OptionsV, report: ReportV) -> bool {
    opts.kind_filter.len() == 0 || opts.kind_filter.contains(report.kind)
}

pub fn filter_by_kind(opts: &AnalyzeOptions, report: &Report) -> (r: bool)
    ensures
        r == spec_filter_by_kind(opts@, report@),
{
    if opts.kind_filter.len() == 0 {
        return true;
    }
    let mut i: usize = 0;
    while i < opts.kind_filter.len()
        invariant
            0 <= i <= opts.kind_filter@.len(),
            forall|j: int| 0 <= j < i ==> opts.kind_filter@[j] != report.kind,
        decreases opts.kind_filter@.len() - i,
    {
        if opts.kind_filter[i] == report.kind {
            assert(opts@.kind_filter[i as int] == report@.kind);
            return true;
        }
        i += 1;
    }
    assert(!opts@.kind_filter.contains(report@.kind));
    false
}

pub open spec fn spec_filter_by_team(opts: OptionsV, report: ReportV) -> bool {
    match opts.team_filter {
        None => true,
        Some(team) => report.for_team == team || (!opts.only_team_filter && report.for_team
            == spec_unknown_team()),
    }
}

pub fn filter_by_team(opts: &AnalyzeOptions, report: &Report) -> (r: bool)
    ensures
        r == spec_filter_by_team(opts@, report@),
{
    match &opts.team_filter {
        None => true,
        Some(team) => {
            if str_eq(&report.for_team, team) {
                return true;
            }
            let unknown = crate::model::unknown_team();
            !opts.only_team_filter && str_eq(&report.for_team, &unknown)
        },
    }
}

pub open spec fn spec_filter_by_auto_actionable(opts: OptionsV, report: ReportV) -> bool {
    !opts.auto_actionable_filter || report.action.len() != 0
}

pub fn filter_by_auto_actionable(opts: &AnalyzeOptions, report: &Report) -> (r: bool)
    ensures
        r == spec_filter_by_auto_actionable(opts@, report@),
{
    !opts.auto_actionable_filter || !report.action.as_str().is_empty()
}

/// Whether the report matches the class or location filters: with no such
/// filters, every report matches; otherwise the report's unit must be
/// named directly or through its location.
pub open spec fn spec_filter_by_class(opts: OptionsV, report: ReportV, entries: Seq<OwnedV>) -> bool {
    (opts.class_filter.len() == 0 && opts.location_class_filter.len() == 0) || seq_contains_str(
        opts.class_filter,
        report.for_class,
    ) || exists|i: int|
        0 <= i < opts.location_class_filter.len() && {
            let l = spec_lookup_owned_by_location(entries, #[trigger] opts.location_class_filter[i]);
            l is Some && l->0.class.name == report.for_class
        }
}

pub fn filter_by_class(opts: &AnalyzeOptions, report: &Report, entries: &Vec<OwnedClass>) -> (r:
    bool)
    ensures
        r == spec_filter_by_class(opts@, report@, entries.deep_view()),
{
    if opts.class_filter.len() == 0 && opts.location_class_filter.len() == 0 {
        return true;
    }
    if vec_contains_str(&opts.class_filter, &report.for_class) {
        return true;
    }
    let ghost locs = opts@.location_class_filter;
    let ghost ent = entries.deep_view();
    let mut i: usize = 0;
    while i < opts.location_class_filter.len()
        invariant
            0 <= i <= opts.location_class_filter@.len(),
            locs == opts@.location_class_filter,
            ent == entries.deep_view(),
            locs.len() == opts.location_class_filter@.len(),
            forall|j: int|
                0 <= j < i ==> !{
                    let l = spec_lookup_owned_by_location(ent, #[trigger] locs[j]);
                    l is Some && l->0.class.name == report@.for_class
                },
        decreases opts.location_class_filter@.len() - i,
    {
        assert(locs[i as int] == opts.location_class_filter@[i as int]@);
        match lookup_owned_by_location(entries, &opts.location_class_filter[i]) {
            Some(e) => {
                if str_eq(&entries[e].class.name, &report.for_class) {
                    assert({
                        let l = spec_lookup_owned_by_location(ent, locs[i as int]);
                        l is Some && l->0.class.name == report@.for_class
                    });
                    return true;
                }
            },
            None => {},
        }
        i += 1;
    }
    false
}

/// The combined report filter: class or location, module, and root.
pub open spec fn spec_filter_report(opts: OptionsV, report: ReportV, entries: Seq<OwnedV>) -> bool {
    spec_filter_by_class(opts, report, entries) && spec_filter_by_module(opts, report)
        && spec_filter_by_root(opts, report)
}

pub fn filter_report(opts: &AnalyzeOptions, report: &Report, entries: &Vec<OwnedClass>) -> (r:
    bool)
    ensures
        r == spec_filter_report(opts@, report@, entries.deep_view()),
{
    filter_by_class(opts, report, entries) && filter_by_module(opts, report) && filter_by_root(
        opts,
        report,
    )
}

} // verus!
