use vstd::prelude::*;

verus! {

/// Options of the annotation-applying executor command: the source path
/// (a file or a directory) and the target module to annotate units with.
/// The executor itself performs file rewriting and lives outside the
/// engine; the engine only carries its option bundle.
#[derive(Debug, Clone)]
pub struct ApplyTarget {
    pub path: String,
    pub target: String,
}

/// Options of the unit-moving executor command, mirroring the fields of
/// the auto-generated move command the engine emits.
#[derive(Debug, Clone)]
pub struct MoveClass {
    pub from_module: String,
    pub from_location: String,
    pub to_module: String,
}

impl ApplyTarget {
    pub fn new(path: String, target: String) -> (r: ApplyTarget)
        ensures
            r.path == path,
            r.target == target,
    {
        ApplyTarget { path, target }
    }
}

impl MoveClass {
    pub fn new(from_module: String, from_location: String, to_module: String) -> (r: MoveClass)
        ensures
            r.from_module == from_module,
            r.from_location == from_location,
            r.to_module == to_module,
    {
        MoveClass { from_module, from_location, to_module }
    }
}

} // verus!
