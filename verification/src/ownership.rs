use vstd::prelude::*;

use crate::model::{ClassV, JavaClass, JavaModule, ModuleV};
use crate::strops::{push_unique, seq_contains_str, spec_push_unique, str_eq};

verus! {

/// Whether module `m` claims a unit named `name` among its sources.
pub open spec fn module_lists(m: ModuleV, name: Seq<char>) -> bool {
    exists|j: int| 0 <= j < m.srcs.len() && m.srcs[j].name == name
}

/// Whether any module of the graph claims a unit named `name`.
pub open spec fn some_module_lists(mods: Seq<ModuleV>, name: Seq<char>) -> bool {
    exists|i: int| 0 <= i < mods.len() && module_lists(mods[i], name)
}

/// Whether any module of the graph carries `name`.
pub open spec fn module_named(mods: Seq<ModuleV>, name: Seq<char>) -> bool {
    exists|i: int| 0 <= i < mods.len() && mods[i].name == name
}

/// First module with the given name, scanning in graph order.
pub open spec fn spec_lookup_module(mods: Seq<ModuleV>, name: Seq<char>) -> Option<ModuleV>
    decreases mods.len(),
{
    if mods.len() == 0 {
        None
    } else if mods[0].name == name {
        Some(mods[0])
    } else {
        spec_lookup_module(mods.drop_first(), name)
    }
}

pub proof fn lemma_lookup_module_props(mods: Seq<ModuleV>, name: Seq<char>)
    ensures
        spec_lookup_module(mods, name) is Some <==> module_named(mods, name),
        spec_lookup_module(mods, name) is Some ==> {
            let m = spec_lookup_module(mods, name)->0;
            exists|i: int| 0 <= i < mods.len() && mods[i] == m && m.name == name
        },
    decreases mods.len(),
{
    if mods.len() != 0 {
        if mods[0].name == name {
        } else {
            lemma_lookup_module_props(mods.drop_first(), name);
            assert forall|i: int| 1 <= i < mods.len() implies mods[i] == mods.drop_first()[i - 1]
                by {}
            if module_named(mods, name) {
                let i = choose|i: int| 0 <= i < mods.len() && mods[i].name == name;
                assert(i >= 1);
                assert(mods.drop_first()[i - 1].name == name);
            }
        }
    }
}

proof fn lemma_lookup_module_at(mods: Seq<ModuleV>, name: Seq<char>, i: int)
    requires
        0 <= i < mods.len(),
        mods[i].name == name,
        forall|j: int| 0 <= j < i ==> mods[j].name != name,
    ensures
        spec_lookup_module(mods, name) == Some(mods[i]),
    decreases mods.len(),
{
    if i > 0 {
        assert forall|j: int| 0 <= j < i - 1 implies mods.drop_first()[j].name != name by {}
        lemma_lookup_module_at(mods.drop_first(), name, i - 1);
    }
}

/// Index of the first module with the given name, if any.
pub fn lookup_module(modules: &Vec<JavaModule>, name: &String) -> (r: Option<usize>)
    ensures
        match r {
            Some(i) => i < modules@.len() && spec_lookup_module(modules.deep_view(), name@)
                == Some(modules.deep_view()[i as int]) && modules.deep_view()[i as int].name
                == name@,
            None => spec_lookup_module(modules.deep_view(), name@) is None,
        },
{
    let ghost mods = modules.deep_view();
    let mut i: usize = 0;
    while i < modules.len()
        invariant
            0 <= i <= modules@.len(),
            mods == modules.deep_view(),
            mods.len() == modules@.len(),
            forall|j: int| 0 <= j < i ==> mods[j].name != name@,
        decreases modules@.len() - i,
    {
        assert(mods[i as int] == modules@[i as int]@);
        if str_eq(&modules[i].name, name) {
            proof {
                lemma_lookup_module_at(mods, name@, i as int);
            }
            return Some(i);
        }
        i += 1;
    }
    proof {
        lemma_lookup_module_props(mods, name@);
        if module_named(mods, name@) {
            let j = choose|j: int| 0 <= j < mods.len() && mods[j].name == name@;
            assert(mods[j].name != name@);
        }
    }
    None
}

/// First source of `srcs` with the given unit name, if any.
pub open spec fn spec_src_in(srcs: Seq<ClassV>, name: Seq<char>) -> Option<ClassV>
    decreases srcs.len(),
{
    if srcs.len() == 0 {
        None
    } else if srcs[0].name == name {
        Some(srcs[0])
    } else {
        spec_src_in(srcs.drop_first(), name)
    }
}

pub proof fn lemma_src_in_props(srcs: Seq<ClassV>, name: Seq<char>)
    ensures
        spec_src_in(srcs, name) is Some <==> exists|j: int|
            0 <= j < srcs.len() && srcs[j].name == name,
        spec_src_in(srcs, name) is Some ==> {
            let c = spec_src_in(srcs, name)->0;
            c.name == name && exists|j: int| 0 <= j < srcs.len() && srcs[j] == c
        },
    decreases srcs.len(),
{
    if srcs.len() != 0 && srcs[0].name != name {
        lemma_src_in_props(srcs.drop_first(), name);
        assert forall|j: int| 1 <= j < srcs.len() implies srcs[j] == srcs.drop_first()[j - 1] by {}
        if exists|j: int| 0 <= j < srcs.len() && srcs[j].name == name {
            let j = choose|j: int| 0 <= j < srcs.len() && srcs[j].name == name;
            assert(j >= 1);
            assert(srcs.drop_first()[j - 1].name == name);
        }
    }
}

proof fn lemma_src_in_at(srcs: Seq<ClassV>, name: Seq<char>, i: int)
    requires
        0 <= i < srcs.len(),
        srcs[i].name == name,
        forall|j: int| 0 <= j < i ==> srcs[j].name != name,
    ensures
        spec_src_in(srcs, name) == Some(srcs[i]),
    decreases srcs.len(),
{
    if i > 0 {
        assert forall|j: int| 0 <= j < i - 1 implies srcs.drop_first()[j].name != name by {}
        lemma_src_in_at(srcs.drop_first(), name, i - 1);
    }
}

/// First source of the module with the given unit name, if any.
pub fn find_src<'a>(m: &'a JavaModule, name: &String) -> (r: Option<&'a JavaClass>)
    ensures
        match r {
            Some(c) => spec_src_in(m@.srcs, name@) == Some(c@),
            None => spec_src_in(m@.srcs, name@) is None,
        },
{
    let ghost srcs = m@.srcs;
    let mut j: usize = 0;
    while j < m.srcs.len()
        invariant
            0 <= j <= m.srcs@.len(),
            srcs == m@.srcs,
            srcs.len() == m.srcs@.len(),
            forall|k: int| 0 <= k < j ==> srcs[k].name != name@,
        decreases m.srcs@.len() - j,
    {
        assert(srcs[j as int] == m.srcs@[j as int]@);
        if str_eq(&m.srcs[j].name, name) {
            proof {
                lemma_src_in_at(srcs, name@, j as int);
            }
            return Some(&m.srcs[j]);
        }
        j += 1;
    }
    proof {
        lemma_src_in_props(srcs, name@);
        if spec_src_in(srcs, name@) is Some {
            let k = choose|k: int| 0 <= k < srcs.len() && srcs[k].name == name@;
            assert(srcs[k].name != name@);
        }
    }
    None
}

/// Names of all units claimed by the first `j` sources of `srcs`, appended
/// to `acc` without duplicates.
pub open spec fn spec_add_names(acc: Seq<Seq<char>>, srcs: Seq<ClassV>, j: int) -> Seq<Seq<char>>
    decreases j,
{
    if j <= 0 {
        acc
    } else {
        spec_push_unique(spec_add_names(acc, srcs, j - 1), srcs[j - 1].name)
    }
}

/// Names of all units claimed by the first `i` modules, in order of first
/// appearance, without duplicates.
pub open spec fn spec_names_pref(mods: Seq<ModuleV>, i: int) -> Seq<Seq<char>>
    decreases i,
{
    if i <= 0 {
        Seq::empty()
    } else {
        spec_add_names(spec_names_pref(mods, i - 1), mods[i - 1].srcs, mods[i - 1].srcs.len() as int)
    }
}

/// Names of all units claimed by any module, in order of first appearance.
pub open spec fn spec_unit_names(mods: Seq<ModuleV>) -> Seq<Seq<char>> {
    spec_names_pref(mods, mods.len() as int)
}

pub open spec fn distinct_strs(s: Seq<Seq<char>>) -> bool {
    forall|i: int, j: int| 0 <= i < j < s.len() ==> s[i] != s[j]
}

proof fn lemma_push_unique_props(s: Seq<Seq<char>>, x: Seq<char>)
    ensures
        distinct_strs(s) ==> distinct_strs(spec_push_unique(s, x)),
        forall|n: Seq<char>|
            seq_contains_str(spec_push_unique(s, x), n) <==> (seq_contains_str(s, n) || n == x),
{
    assert forall|n: Seq<char>|
        seq_contains_str(spec_push_unique(s, x), n) <==> (seq_contains_str(s, n) || n == x) by {
        if seq_contains_str(s, x) {
        } else {
            if seq_contains_str(s, n) {
                let i = choose|i: int| 0 <= i < s.len() && s[i] == n;
                assert(s.push(x)[i] == n);
            }
            if n == x {
                assert(s.push(x)[s.len() as int] == x);
            }
            if seq_contains_str(s.push(x), n) {
                let i = choose|i: int| 0 <= i < s.push(x).len() && s.push(x)[i] == n;
                if i < s.len() {
                    assert(s[i] == n);
                }
            }
        }
    }
    if distinct_strs(s) && !seq_contains_str(s, x) {
        assert forall|i: int, j: int| 0 <= i < j < s.push(x).len() implies s.push(x)[i] != s.push(
            x,
        )[j] by {
            if j < s.len() {
            } else {
                assert(s.push(x)[j] == x);
                assert(s.push(x)[i] == s[i]);
            }
        }
    }
}

proof fn lemma_add_names_props(acc: Seq<Seq<char>>, srcs: Seq<ClassV>, j: int)
    requires
        0 <= j <= srcs.len(),
    ensures
        distinct_strs(acc) ==> distinct_strs(spec_add_names(acc, srcs, j)),
        forall|n: Seq<char>|
            seq_contains_str(spec_add_names(acc, srcs, j), n) <==> (seq_contains_str(acc, n)
                || exists|k: int| 0 <= k < j && srcs[k].name == n),
    decreases j,
{
    if j > 0 {
        lemma_add_names_props(acc, srcs, j - 1);
        lemma_push_unique_props(spec_add_names(acc, srcs, j - 1), srcs[j - 1].name);
        assert forall|n: Seq<char>|
            seq_contains_str(spec_add_names(acc, srcs, j), n) <==> (seq_contains_str(acc, n)
                || exists|k: int| 0 <= k < j && srcs[k].name == n) by {
            if seq_contains_str(spec_add_names(acc, srcs, j), n) {
                assert(seq_contains_str(spec_add_names(acc, srcs, j - 1), n) || n == srcs[j
                    - 1].name);
                if n == srcs[j - 1].name {
                    assert(0 <= j - 1 < j && srcs[j - 1].name == n);
                } else {
                    if !seq_contains_str(acc, n) {
                        let k = choose|k: int| 0 <= k < j - 1 && srcs[k].name == n;
                        assert(0 <= k < j && srcs[k].name == n);
                    }
                }
            }
            if seq_contains_str(acc, n) {
                assert(seq_contains_str(spec_add_names(acc, srcs, j - 1), n));
                assert(seq_contains_str(spec_add_names(acc, srcs, j), n));
            }
            if exists|k: int| 0 <= k < j && srcs[k].name == n {
                let k = choose|k: int| 0 <= k < j && srcs[k].name == n;
                if k < j - 1 {
                    assert(exists|k2: int| 0 <= k2 < j - 1 && srcs[k2].name == n);
                    assert(seq_contains_str(spec_add_names(acc, srcs, j - 1), n));
                } else {
                    assert(n == srcs[j - 1].name);
                }
                assert(seq_contains_str(spec_add_names(acc, srcs, j), n));
            }
        }
    }
}

pub proof fn lemma_unit_names_props(mods: Seq<ModuleV>, i: int)
    requires
        0 <= i <= mods.len(),
    ensures
        distinct_strs(spec_names_pref(mods, i)),
        forall|n: Seq<char>|
            seq_contains_str(spec_names_pref(mods, i), n) <==> exists|k: int|
                0 <= k < i && module_lists(mods[k], n),
    decreases i,
{
    if i > 0 {
        lemma_unit_names_props(mods, i - 1);
        lemma_add_names_props(
            spec_names_pref(mods, i - 1),
            mods[i - 1].srcs,
            mods[i - 1].srcs.len() as int,
        );
        assert forall|n: Seq<char>|
            seq_contains_str(spec_names_pref(mods, i), n) <==> exists|k: int|
                0 <= k < i && module_lists(mods[k], n) by {
            if seq_contains_str(spec_names_pref(mods, i), n) {
                if seq_contains_str(spec_names_pref(mods, i - 1), n) {
                    let k = choose|k: int| 0 <= k < i - 1 && module_lists(mods[k], n);
                    assert(0 <= k < i && module_lists(mods[k], n));
                } else {
                    assert(exists|jj: int|
                        0 <= jj < mods[i - 1].srcs.len() && #[trigger] mods[i - 1].srcs[jj].name
                            == n);
                    assert(module_lists(mods[i - 1], n));
                    assert(0 <= i - 1 < i && module_lists(mods[i - 1], n));
                }
            }
            if exists|k: int| 0 <= k < i && module_lists(mods[k], n) {
                let k = choose|k: int| 0 <= k < i && module_lists(mods[k], n);
                if k < i - 1 {
                    assert(seq_contains_str(spec_names_pref(mods, i - 1), n));
                } else {
                    let j = choose|j: int|
                        0 <= j < mods[k].srcs.len() && mods[k].srcs[j].name == n;
                    assert(0 <= j < mods[i - 1].srcs.len() as int && mods[i - 1].srcs[j].name
                        == n);
                }
                assert(seq_contains_str(spec_names_pref(mods, i), n));
            }
        }
    }
}

/// All unit names claimed by any module, each once, in order of first
/// appearance over the graph.
pub fn collect_unit_names(modules: &Vec<JavaModule>) -> (r: Vec<String>)
    ensures
        r.deep_view() == spec_unit_names(modules.deep_view()),
{
    let ghost mods = modules.deep_view();
    let mut acc: Vec<String> = Vec::new();
    let mut i: usize = 0;
    while i < modules.len()
        invariant
            0 <= i <= modules@.len(),
            mods == modules.deep_view(),
            mods.len() == modules@.len(),
            acc.deep_view() == spec_names_pref(mods, i as int),
        decreases modules@.len() - i,
    {
        assert(mods[i as int] == modules@[i as int]@);
        let m = &modules[i];
        let mut j: usize = 0;
        while j < m.srcs.len()
            invariant
                0 <= j <= m.srcs@.len(),
                m@ == mods[i as int],
                m@.srcs.len() == m.srcs@.len(),
                0 <= i < mods.len(),
                acc.deep_view() == spec_add_names(spec_names_pref(mods, i as int), m@.srcs, j as int),
            decreases m.srcs@.len() - j,
        {
            assert(m@.srcs[j as int] == m.srcs@[j as int]@);
            push_unique(&mut acc, m.srcs[j].name.clone());
            j += 1;
        }
        i += 1;
    }
    acc
}

/// Position of the owning module for `name` among the first `i` modules:
/// the claiming module with the greatest layer index, or -1 when none
/// claims it.
pub open spec fn spec_owner_pref(mods: Seq<ModuleV>, name: Seq<char>, i: int) -> int
    decreases i,
{
    if i <= 0 {
        -1
    } else {
        let prev = spec_owner_pref(mods, name, i - 1);
        if spec_src_in(mods[i - 1].srcs, name) is Some {
            if prev == -1 || mods[prev].index < mods[i - 1].index {
                i - 1
            } else {
                prev
            }
        } else {
            prev
        }
    }
}

/// Position of the owning module for `name` in the graph.
pub open spec fn spec_owner(mods: Seq<ModuleV>, name: Seq<char>) -> int {
    spec_owner_pref(mods, name, mods.len() as int)
}

/// Ownership resolution is deterministic and total: for any unit claimed
/// by at least one module, the resolved owner exists, claims the unit, and
/// carries the greatest layer index among all claiming modules.
pub proof fn lemma_owner_pref_props(mods: Seq<ModuleV>, name: Seq<char>, i: int)
    requires
        0 <= i <= mods.len(),
    ensures
        spec_owner_pref(mods, name, i) == -1 <==> (forall|k: int|
            0 <= k < i ==> !module_lists(mods[k], name)),
        spec_owner_pref(mods, name, i) != -1 ==> {
            let o = spec_owner_pref(mods, name, i);
            &&& 0 <= o < i
            &&& module_lists(mods[o], name)
            &&& forall|k: int|
                0 <= k < i && module_lists(mods[k], name) ==> mods[k].index <= mods[o].index
        },
    decreases i,
{
    if i > 0 {
        lemma_owner_pref_props(mods, name, i - 1);
        lemma_src_in_props(mods[i - 1].srcs, name);
    }
}

/// Ownership resolution picks the unique claiming module with the maximum
/// layer index.
pub proof fn lemma_ownership_deterministic_total(mods: Seq<ModuleV>, name: Seq<char>)
    requires
        some_module_lists(mods, name),
    ensures
        ({
            let o = spec_owner(mods, name);
            &&& 0 <= o < mods.len()
            &&& module_lists(mods[o], name)
            &&& forall|k: int|
                0 <= k < mods.len() && module_lists(mods[k], name) ==> mods[k].index
                    <= mods[o].index
        }),
{
    lemma_owner_pref_props(mods, name, mods.len() as int);
    let k = choose|k: int| 0 <= k < mods.len() && module_lists(mods[k], name);
    if spec_owner(mods, name) == -1 {
        assert(!module_lists(mods[k], name));
    }
}

/// An owned unit: the representative instance of a unit together with the
/// position of its owning module in the graph.
pub struct OwnedClass {
    pub class: JavaClass,
    pub module_index: usize,
}

#[verifier::ext_equal]
pub struct OwnedV {
    pub class: ClassV,
    pub module_index: int,
}

impl View for OwnedClass {
    type V = OwnedV;

    open spec fn view(&self) -> OwnedV {
        OwnedV { class: self.class@, module_index: self.module_index as int }
    }
}

impl DeepView for OwnedClass {
    type V = OwnedV;

    open spec fn deep_view(&self) -> OwnedV {
        self.view()
    }
}

/// The resolved ownership table: one entry per claimed unit name, in order
/// of first appearance, holding the instance kept by the owning module.
pub open spec fn spec_resolve_ownership(mods: Seq<ModuleV>) -> Seq<OwnedV> {
    let names = spec_unit_names(mods);
    Seq::new(
        names.len(),
        |k: int|
            OwnedV {
                class: spec_src_in(mods[spec_owner(mods, names[k])].srcs, names[k])->0,
                module_index: spec_owner(mods, names[k]),
            },
    )
}

/// Owning module and representative instance for a claimed unit name.
fn best_owner(modules: &Vec<JavaModule>, name: &String) -> (r: (usize, JavaClass))
    requires
        spec_owner(modules.deep_view(), name@) >= 0,
    ensures
        r.0 as int == spec_owner(modules.deep_view(), name@),
        r.1@ == spec_src_in(modules.deep_view()[r.0 as int].srcs, name@)->0,
{
    let ghost mods = modules.deep_view();
    let mut best: Option<(usize, JavaClass)> = None;
    let mut i: usize = 0;
    while i < modules.len()
        invariant
            0 <= i <= modules@.len(),
            mods == modules.deep_view(),
            mods.len() == modules@.len(),
            match best {
                None => spec_owner_pref(mods, name@, i as int) == -1,
                Some((p, ref c)) => {
                    &&& spec_owner_pref(mods, name@, i as int) == p
                    &&& 0 <= p < i
                    &&& c@ == spec_src_in(mods[p as int].srcs, name@)->0
                },
            },
        decreases modules@.len() - i,
    {
        assert(mods[i as int] == modules@[i as int]@);
        match find_src(&modules[i], name) {
            Some(c) => {
                match &best {
                    None => {
                        best = Some((i, c.clone()));
                    },
                    Some((p, _)) => {
                        if modules[*p].index < modules[i].index {
                            best = Some((i, c.clone()));
                        }
                    },
                }
            },
            None => {},
        }
        i += 1;
    }
    match best {
        Some(pair) => pair,
        None => {
            proof {
                assert(false);
            }
            unreached()
        },
    }
}

/// Resolve, for every unit claimed by at least one module, its single
/// owning module: the claiming module with the greatest layer index.
pub fn resolve_ownership(modules: &Vec<JavaModule>) -> (r: Vec<OwnedClass>)
    ensures
        r.deep_view() == spec_resolve_ownership(modules.deep_view()),
{
    let ghost mods = modules.deep_view();
    let names = collect_unit_names(modules);
    let mut r: Vec<OwnedClass> = Vec::new();
    let mut k: usize = 0;
    while k < names.len()
        invariant
            0 <= k <= names@.len(),
            mods == modules.deep_view(),
            names.deep_view() == spec_unit_names(mods),
            names.deep_view().len() == names@.len(),
            r.deep_view() =~= spec_resolve_ownership(mods).take(k as int),
        decreases names@.len() - k,
    {
        proof {
            assert(names.deep_view()[k as int] == names@[k as int]@);
            lemma_unit_names_props(mods, mods.len() as int);
            assert(seq_contains_str(spec_unit_names(mods), names@[k as int]@));
            let w = choose|w: int|
                0 <= w < mods.len() && module_lists(mods[w], names@[k as int]@);
            assert(some_module_lists(mods, names@[k as int]@));
            lemma_ownership_deterministic_total(mods, names@[k as int]@);
        }
        let (p, c) = best_owner(modules, &names[k]);
        let ghost pre = r.deep_view();
        let ghost prev = r@;
        r.push(OwnedClass { class: c, module_index: p });
        proof {
            assert(pre.len() == r@.len() - 1);
            assert(prev.len() == k as int);
            assert(r@ == prev.push(r@[k as int]));
            assert forall|j: int| 0 <= j < k implies #[trigger] r.deep_view()[j] == pre[j] by {
                assert(r@[j] == prev[j]);
            }
            assert(r.deep_view()[k as int] == r@[k as int]@);
            assert(r.deep_view()[k as int] == spec_resolve_ownership(mods)[k as int]);
        }
        k += 1;
        assert(r.deep_view() =~= spec_resolve_ownership(mods).take(k as int));
    }
    assert(spec_resolve_ownership(mods).take(names@.len() as int) =~= spec_resolve_ownership(mods));
    r
}

/// Every entry of the resolved table names a distinct claimed unit and
/// points at its owning module together with that module's instance.
pub proof fn lemma_resolution_entries(mods: Seq<ModuleV>)
    ensures
        spec_resolve_ownership(mods).len() == spec_unit_names(mods).len(),
        forall|k: int|
            0 <= k < spec_resolve_ownership(mods).len()
                ==> #[trigger] spec_resolve_ownership(mods)[k].class.name == spec_unit_names(
                mods,
            )[k],
        forall|k: int|
            0 <= k < spec_resolve_ownership(mods).len() ==> {
                let e = #[trigger] spec_resolve_ownership(mods)[k];
                &&& 0 <= e.module_index < mods.len()
                &&& e.module_index == spec_owner(mods, e.class.name)
                &&& module_lists(mods[e.module_index], e.class.name)
                &&& Some(e.class) == spec_src_in(mods[e.module_index].srcs, e.class.name)
            },
{
    lemma_unit_names_props(mods, mods.len() as int);
    let names = spec_unit_names(mods);
    let entries = spec_resolve_ownership(mods);
    assert forall|k: int| 0 <= k < entries.len() implies {
        let e = #[trigger] entries[k];
        &&& e.class.name == names[k]
        &&& 0 <= e.module_index < mods.len()
        &&& e.module_index == spec_owner(mods, e.class.name)
        &&& module_lists(mods[e.module_index], e.class.name)
        &&& Some(e.class) == spec_src_in(mods[e.module_index].srcs, e.class.name)
    } by {
        assert(names[k] == names[k]);
        assert(seq_contains_str(names, names[k]));
        assert(some_module_lists(mods, names[k]));
        lemma_ownership_deterministic_total(mods, names[k]);
        let o = spec_owner(mods, names[k]);
        lemma_src_in_props(mods[o].srcs, names[k]);
        assert(entries[k].class == spec_src_in(mods[o].srcs, names[k])->0);
        assert(entries[k].class.name == names[k]);
    }
}

/// For any unit claimed by at least one module, the resolved table has an
/// entry, and it is the owning module's instance of the unit.
pub proof fn lemma_resolution_covers(mods: Seq<ModuleV>, name: Seq<char>)
    requires
        some_module_lists(mods, name),
    ensures
        ({
            let l = spec_lookup_owned(spec_resolve_ownership(mods), name);
            &&& l is Some
            &&& l->0.class.name == name
            &&& 0 <= l->0.module_index < mods.len()
            &&& l->0.module_index == spec_owner(mods, name)
            &&& Some(l->0.class) == spec_src_in(mods[spec_owner(mods, name)].srcs, name)
        }),
{
    lemma_unit_names_props(mods, mods.len() as int);
    lemma_resolution_entries(mods);
    let names = spec_unit_names(mods);
    let entries = spec_resolve_ownership(mods);
    assert(seq_contains_str(names, name));
    let k = choose|k: int| 0 <= k < names.len() && names[k] == name;
    assert(entries[k].class.name == name);
    lemma_lookup_owned_props(entries, name);
    let l = spec_lookup_owned(entries, name);
    assert(l is Some);
    let i = choose|i: int| 0 <= i < entries.len() && entries[i] == l->0;
    assert(entries[i].class.name == name);
    assert(names[i] == name);
    assert(distinct_strs(names));
    if i != k {
        assert(names[i] != names[k]);
    }
    assert(l->0 == entries[k]);
}

/// First ownership entry for the given unit name, if any.
pub open spec fn spec_lookup_owned(entries: Seq<OwnedV>, name: Seq<char>) -> Option<OwnedV>
    decreases entries.len(),
{
    if entries.len() == 0 {
        None
    } else if entries[0].class.name == name {
        Some(entries[0])
    } else {
        spec_lookup_owned(entries.drop_first(), name)
    }
}

pub proof fn lemma_lookup_owned_props(entries: Seq<OwnedV>, name: Seq<char>)
    ensures
        spec_lookup_owned(entries, name) is Some <==> exists|i: int|
            0 <= i < entries.len() && entries[i].class.name == name,
        spec_lookup_owned(entries, name) is Some ==> {
            let e = spec_lookup_owned(entries, name)->0;
            e.class.name == name && exists|i: int| 0 <= i < entries.len() && entries[i] == e
        },
    decreases entries.len(),
{
    if entries.len() != 0 && entries[0].class.name != name {
        lemma_lookup_owned_props(entries.drop_first(), name);
        assert forall|i: int| 1 <= i < entries.len() implies entries[i] == entries.drop_first()[i
            - 1] by {}
        if exists|i: int| 0 <= i < entries.len() && entries[i].class.name == name {
            let i = choose|i: int| 0 <= i < entries.len() && entries[i].class.name == name;
            assert(i >= 1);
            assert(entries.drop_first()[i - 1].class.name == name);
        }
    }
}

proof fn lemma_lookup_owned_at(entries: Seq<OwnedV>, name: Seq<char>, i: int)
    requires
        0 <= i < entries.len(),
        entries[i].class.name == name,
        forall|j: int| 0 <= j < i ==> entries[j].class.name != name,
    ensures
        spec_lookup_owned(entries, name) == Some(entries[i]),
    decreases entries.len(),
{
    if i > 0 {
        assert forall|j: int| 0 <= j < i - 1 implies entries.drop_first()[j].class.name != name
            by {}
        lemma_lookup_owned_at(entries.drop_first(), name, i - 1);
    }
}

/// Index of the first ownership entry for the given unit name, if any.
pub fn lookup_owned(entries: &Vec<OwnedClass>, name: &String) -> (r: Option<usize>)
    ensures
        match r {
            Some(i) => i < entries@.len() && spec_lookup_owned(entries.deep_view(), name@) == Some(
                entries.deep_view()[i as int],
            ) && entries.deep_view()[i as int].class.name == name@,
            None => spec_lookup_owned(entries.deep_view(), name@) is None,
        },
{
    let ghost ent = entries.deep_view();
    let mut i: usize = 0;
    while i < entries.len()
        invariant
            0 <= i <= entries@.len(),
            ent == entries.deep_view(),
            ent.len() == entries@.len(),
            forall|j: int| 0 <= j < i ==> ent[j].class.name != name@,
        decreases entries@.len() - i,
    {
        assert(ent[i as int] == entries@[i as int]@);
        if str_eq(&entries[i].class.name, name) {
            proof {
                lemma_lookup_owned_at(ent, name@, i as int);
            }
            return Some(i);
        }
        i += 1;
    }
    proof {
        lemma_lookup_owned_props(ent, name@);
        if spec_lookup_owned(ent, name@) is Some {
            let j = choose|j: int| 0 <= j < ent.len() && ent[j].class.name == name@;
            assert(ent[j].class.name != name@);
        }
    }
    None
}

/// First ownership entry whose unit has the given location, if any.
pub open spec fn spec_lookup_owned_by_location(entries: Seq<OwnedV>, location: Seq<char>) -> Option<
    OwnedV,
>
    decreases entries.len(),
{
    if entries.len() == 0 {
        None
    } else if entries[0].class.location == location {
        Some(entries[0])
    } else {
        spec_lookup_owned_by_location(entries.drop_first(), location)
    }
}

proof fn lemma_lookup_owned_by_location_at(entries: Seq<OwnedV>, location: Seq<char>, i: int)
    requires
        0 <= i < entries.len(),
        entries[i].class.location == location,
        forall|j: int| 0 <= j < i ==> entries[j].class.location != location,
    ensures
        spec_lookup_owned_by_location(entries, location) == Some(entries[i]),
    decreases entries.len(),
{
    if i > 0 {
        assert forall|j: int| 0 <= j < i - 1 implies entries.drop_first()[j].class.location
            != location by {}
        lemma_lookup_owned_by_location_at(entries.drop_first(), location, i - 1);
    }
}

pub proof fn lemma_lookup_owned_by_location_props(entries: Seq<OwnedV>, location: Seq<char>)
    ensures
        spec_lookup_owned_by_location(entries, location) is Some <==> exists|i: int|
            0 <= i < entries.len() && entries[i].class.location == location,
    decreases entries.len(),
{
    if entries.len() != 0 && entries[0].class.location != location {
        lemma_lookup_owned_by_location_props(entries.drop_first(), location);
        assert forall|i: int| 1 <= i < entries.len() implies entries[i] == entries.drop_first()[i
            - 1] by {}
        if exists|i: int| 0 <= i < entries.len() && entries[i].class.location == location {
            let i = choose|i: int| 0 <= i < entries.len() && entries[i].class.location == location;
            assert(i >= 1);
            assert(entries.drop_first()[i - 1].class.location == location);
        }
    }
}

/// Index of the first ownership entry at the given location, if any.
pub fn lookup_owned_by_location(entries: &Vec<OwnedClass>, location: &String) -> (r: Option<usize>)
    ensures
        match r {
            Some(i) => i < entries@.len() && spec_lookup_owned_by_location(
                entries.deep_view(),
                location@,
            ) == Some(entries.deep_view()[i as int]),
            None => spec_lookup_owned_by_location(entries.deep_view(), location@) is None,
        },
{
    let ghost ent = entries.deep_view();
    let mut i: usize = 0;
    while i < entries.len()
        invariant
            0 <= i <= entries@.len(),
            ent == entries.deep_view(),
            ent.len() == entries@.len(),
            forall|j: int| 0 <= j < i ==> ent[j].class.location != location@,
        decreases entries@.len() - i,
    {
        assert(ent[i as int] == entries@[i as int]@);
        if str_eq(&entries[i].class.location, location) {
            proof {
                lemma_lookup_owned_by_location_at(ent, location@, i as int);
            }
            return Some(i);
        }
        i += 1;
    }
    proof {
        lemma_lookup_owned_by_location_props(ent, location@);
        if spec_lookup_owned_by_location(ent, location@) is Some {
            let j = choose|j: int| 0 <= j < ent.len() && ent[j].class.location == location@;
            assert(ent[j].class.location != location@);
        }
    }
    None
}

} // verus!
