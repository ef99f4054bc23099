use vstd::prelude::*;

use crate::kind::Kind;

verus! {

/// Tag for the long-form rationale text a report may refer to; the texts
/// themselves are a presentation concern and live outside the engine.
#[derive(PartialEq, Eq, Structural, Debug, Copy, Clone)]
pub enum Explanation {
    Empty,
    TeamIsMissing,
    ClassAlreadyInTheTargetModule,
    DeprecatedModule,
    UsedInDeprecatedClass,
    BreakDependencyOnModule,
}

/// The set of explanation tags seen while scanning reports, consulted once
/// at the end of a run; the `Empty` tag carries no rationale and is not
/// tracked.
#[derive(PartialEq, Eq, Structural, Debug, Copy, Clone)]
pub struct ExplanationSet {
    pub team_is_missing: bool,
    pub class_already_in_the_target_module: bool,
    pub deprecated_module: bool,
    pub used_in_deprecated_class: bool,
    pub break_dependency_on_module: bool,
}

impl ExplanationSet {
    pub open spec fn spec_empty() -> ExplanationSet {
        ExplanationSet {
            team_is_missing: false,
            class_already_in_the_target_module: false,
            deprecated_module: false,
            used_in_deprecated_class: false,
            break_dependency_on_module: false,
        }
    }

    pub fn empty() -> (r: ExplanationSet)
        ensures
            r == Self::spec_empty(),
    {
        ExplanationSet {
            team_is_missing: false,
            class_already_in_the_target_module: false,
            deprecated_module: false,
            used_in_deprecated_class: false,
            break_dependency_on_module: false,
        }
    }

    pub open spec fn spec_insert(self, e: Explanation) -> ExplanationSet {
        match e {
            Explanation::Empty => self,
            Explanation::TeamIsMissing => ExplanationSet { team_is_missing: true, ..self },
            Explanation::ClassAlreadyInTheTargetModule => ExplanationSet {
                class_already_in_the_target_module: true,
                ..self
            },
            Explanation::DeprecatedModule => ExplanationSet { deprecated_module: true, ..self },
            Explanation::UsedInDeprecatedClass => ExplanationSet {
                used_in_deprecated_class: true,
                ..self
            },
            Explanation::BreakDependencyOnModule => ExplanationSet {
                break_dependency_on_module: true,
                ..self
            },
        }
    }

    pub fn insert(&mut self, e: Explanation)
        ensures
            *final(self) == old(self).spec_insert(e),
    {
        match e {
            Explanation::Empty => {},
            Explanation::TeamIsMissing => {
                self.team_is_missing = true;
            },
            Explanation::ClassAlreadyInTheTargetModule => {
                self.class_already_in_the_target_module = true;
            },
            Explanation::DeprecatedModule => {
                self.deprecated_module = true;
            },
            Explanation::UsedInDeprecatedClass => {
                self.used_in_deprecated_class = true;
            },
            Explanation::BreakDependencyOnModule => {
                self.break_dependency_on_module = true;
            },
        }
    }

    pub open spec fn spec_contains(self, e: Explanation) -> bool {
        match e {
            Explanation::Empty => false,
            Explanation::TeamIsMissing => self.team_is_missing,
            Explanation::ClassAlreadyInTheTargetModule => self.class_already_in_the_target_module,
            Explanation::DeprecatedModule => self.deprecated_module,
            Explanation::UsedInDeprecatedClass => self.used_in_deprecated_class,
            Explanation::BreakDependencyOnModule => self.break_dependency_on_module,
        }
    }

    pub fn contains(&self, e: Explanation) -> (r: bool)
        ensures
            r == self.spec_contains(e),
    {
        match e {
            Explanation::Empty => false,
            Explanation::TeamIsMissing => self.team_is_missing,
            Explanation::ClassAlreadyInTheTargetModule => self.class_already_in_the_target_module,
            Explanation::DeprecatedModule => self.deprecated_module,
            Explanation::UsedInDeprecatedClass => self.used_in_deprecated_class,
            Explanation::BreakDependencyOnModule => self.break_dependency_on_module,
        }
    }
}

/// Mathematical model of a report.
#[verifier::ext_equal]
pub struct ReportV {
    pub kind: Kind,
    pub explanation: Explanation,
    pub message: Seq<char>,
    pub action: Seq<char>,
    pub for_class: Seq<char>,
    pub for_team: Seq<char>,
    pub indirect_classes: Seq<Seq<char>>,
    pub for_modules: Seq<Seq<char>>,
}

/// A finding filed against a unit (or a module pair), with the units that
/// are indirectly involved and the modules implicated.
#[derive(Debug)]
pub struct Report {
    pub kind: Kind,
    pub explanation: Explanation,
    pub message: String,
    pub action: String,
    pub for_class: String,
    pub for_team: String,
    pub indirect_classes: Vec<String>,
    pub for_modules: Vec<String>,
}

impl View for Report {
    type V = ReportV;

    open spec fn view(&self) -> ReportV {
        ReportV {
            kind: self.kind,
            explanation: self.explanation,
            message: self.message@,
            action: self.action@,
            for_class: self.for_class@,
            for_team: self.for_team@,
            indirect_classes: self.indirect_classes.deep_view(),
            for_modules: self.for_modules.deep_view(),
        }
    }
}

impl Clone for Report {
    fn clone(&self) -> (r: Self)
        ensures
            r@ == self@,
    {
        let r = Report {
            kind: self.kind,
            explanation: self.explanation,
            message: self.message.clone(),
            action: self.action.clone(),
            for_class: self.for_class.clone(),
            for_team: self.for_team.clone(),
            indirect_classes: crate::model::clone_string_vec(&self.indirect_classes),
            for_modules: crate::model::clone_string_vec(&self.for_modules),
        };
        assert(r@ =~= self@);
        r
    }
}

impl DeepView for Report {
    type V = ReportV;

    open spec fn deep_view(&self) -> ReportV {
        self.view()
    }
}

} // verus!
