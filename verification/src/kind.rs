use vstd::prelude::*;

verus! {

/// Severity/category of a report. The declaration order is the ascending
/// order in which reports are listed (most severe first).
#[derive(PartialEq, Eq, Structural, Debug, Copy, Clone)]
pub enum Kind {
    Critical,
    Error,
    Warning,
    AutoAction,
    DevAction,
    Blocked,
    ToDo,
}

/// Position of a kind in the severity sort order.
pub open spec fn spec_kind_ord(k: Kind) -> int {
    match k {
        Kind::Critical => 0,
        Kind::Error => 1,
        Kind::Warning => 2,
        Kind::AutoAction => 3,
        Kind::DevAction => 4,
        Kind::Blocked => 5,
        Kind::ToDo => 6,
    }
}

/// Weight of a kind in the issue-point scoring.
pub open spec fn spec_kind_weight(k: Kind) -> int {
    match k {
        Kind::Critical => 5,
        Kind::Error => 3,
        Kind::Warning => 2,
        Kind::AutoAction => 1,
        Kind::DevAction => 2,
        Kind::Blocked => 1,
        Kind::ToDo => 1,
    }
}

pub fn kind_ord(k: Kind) -> (r: u32)
    ensures
        r == spec_kind_ord(k),
{
    match k {
        Kind::Critical => 0,
        Kind::Error => 1,
        Kind::Warning => 2,
        Kind::AutoAction => 3,
        Kind::DevAction => 4,
        Kind::Blocked => 5,
        Kind::ToDo => 6,
    }
}

pub fn kind_weight(k: Kind) -> (r: u32)
    ensures
        r == spec_kind_weight(k),
{
    match k {
        Kind::Critical => 5,
        Kind::Error => 3,
        Kind::Warning => 2,
        Kind::AutoAction => 1,
        Kind::DevAction => 2,
        Kind::Blocked => 1,
        Kind::ToDo => 1,
    }
}

/// All kinds, in severity sort order.
pub fn all_kinds() -> (r: Vec<Kind>)
    ensures
        r@.len() == 7,
        forall|i: int| 0 <= i < 7 ==> spec_kind_ord(r@[i]) == i,
{
    let mut r: Vec<Kind> = Vec::new();
    r.push(Kind::Critical);
    r.push(Kind::Error);
    r.push(Kind::Warning);
    r.push(Kind::AutoAction);
    r.push(Kind::DevAction);
    r.push(Kind::Blocked);
    r.push(Kind::ToDo);
    r
}

} // verus!
