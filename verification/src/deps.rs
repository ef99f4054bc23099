use vstd::prelude::*;

use multimap::MultiMap;

use crate::model::{clone_string_vec, unknown_location, ClassV, JavaClass, JavaModule, ModuleV};
use crate::ownership::{module_lists, some_module_lists};
use crate::strops::push_dv;

verus! {

#[verifier::external_type_specification]
#[verifier::external_body]
#[verifier::reject_recursive_types(K)]
#[verifier::reject_recursive_types(V)]
#[verifier::reject_recursive_types(S)]
pub struct ExMultiMap<K, V, S>(MultiMap<K, V, S>);

/// The contents of a multimap from unit names to unit names: for each key
/// present, the vector of values in insertion order.
pub uninterp spec fn multimap_rep(m: MultiMap<String, String>) -> Map<Seq<char>, Seq<Seq<char>>>;

/// The contents of a multimap holding nothing.
pub open spec fn mm_empty() -> Map<Seq<char>, Seq<Seq<char>>> {
    Map::empty()
}

/// Relies on multimap::MultiMap::new: creates an empty multimap.
#[verifier::external_body]
pub fn mm_new() -> (m: MultiMap<String, String>)
    ensures
        multimap_rep(m) == mm_empty(),
{
    MultiMap::new()
}

/// One multimap insertion at the contents level: the value is appended to
/// the key's vector, which is created when absent.
pub open spec fn spec_mm_insert(
    mp: Map<Seq<char>, Seq<Seq<char>>>,
    k: Seq<char>,
    v: Seq<char>,
) -> Map<Seq<char>, Seq<Seq<char>>> {
    if mp.dom().contains(k) {
        mp.insert(k, mp[k].push(v))
    } else {
        mp.insert(k, seq![v])
    }
}

/// Relies on multimap::MultiMap::insert: pushes the value onto the key's
/// vector when the key is present, else inserts a one-element vector.
#[verifier::external_body]
pub fn mm_insert(m: &mut MultiMap<String, String>, k: String, v: String)
    ensures
        multimap_rep(*final(m)) == spec_mm_insert(multimap_rep(*old(m)), k@, v@),
{
    m.insert(k, v)
}

/// Relies on multimap::MultiMap::get_vec: returns the key's vector of
/// values, or None when the key was never inserted.
#[verifier::external_body]
pub fn mm_get_vec<'a>(m: &'a MultiMap<String, String>, k: &String) -> (r: Option<&'a Vec<String>>)
    ensures
        match r {
            Some(v) => multimap_rep(*m).dom().contains(k@) && v.deep_view() == multimap_rep(*m)[k@],
            None => !multimap_rep(*m).dom().contains(k@),
        },
{
    m.get_vec(k)
}

/// The declared dependencies recorded for one unit name, or none.
pub fn class_dependencies(name: &String, dependencies: &MultiMap<String, String>) -> (r: Vec<
    String,
>)
    ensures
        r.deep_view() == if multimap_rep(*dependencies).dom().contains(name@) {
            multimap_rep(*dependencies)[name@]
        } else {
            Seq::<Seq<char>>::empty()
        },
{
    match mm_get_vec(dependencies, name) {
        None => {
            let r: Vec<String> = Vec::new();
            assert(r.deep_view() =~= Seq::<Seq<char>>::empty());
            r
        },
        Some(v) => {
            let r = clone_string_vec(v);
            assert(r.deep_view() =~= v.deep_view());
            r
        },
    }
}

/// A unit known only as a dependency target: no physical location, no
/// annotations, with whatever dependencies the loader recorded for it.
pub fn external_class(key: &String, dependencies: &MultiMap<String, String>) -> (r: JavaClass)
    ensures
        r@.name == key@,
        r@.location == crate::model::spec_unknown_location(),
        r@.dependencies == if multimap_rep(*dependencies).dom().contains(key@) {
            multimap_rep(*dependencies)[key@]
        } else {
            Seq::<Seq<char>>::empty()
        },
        r@.package is None,
        r@.target_module is None,
        r@.break_dependencies_on.len() == 0,
        !r@.deprecated,
        r@.team is None,
{
    let r = JavaClass {
        name: key.clone(),
        location: unknown_location(),
        package: None,
        dependencies: class_dependencies(key, dependencies),
        target_module: None,
        break_dependencies_on: Vec::new(),
        deprecated: false,
        team: None,
    };
    assert(r@.break_dependencies_on =~= Seq::<Seq<char>>::empty());
    r
}

/// One (dependee, dependent) link: `dependent` declares a dependency on
/// `dependee`.
pub struct DepPair {
    pub dependee: String,
    pub dependent: String,
}

#[verifier::ext_equal]
pub struct DepPairV {
    pub dependee: Seq<char>,
    pub dependent: Seq<char>,
}

impl View for DepPair {
    type V = DepPairV;

    open spec fn view(&self) -> DepPairV {
        DepPairV { dependee: self.dependee@, dependent: self.dependent@ }
    }
}

impl DeepView for DepPair {
    type V = DepPairV;

    open spec fn deep_view(&self) -> DepPairV {
        self.view()
    }
}

/// Links contributed by the first `k` dependencies of one unit.
pub open spec fn spec_links_class(acc: Seq<DepPairV>, c: ClassV, k: int) -> Seq<DepPairV>
    decreases k,
{
    if k <= 0 {
        acc
    } else {
        spec_links_class(acc, c, k - 1).push(
            DepPairV { dependee: c.dependencies[k - 1], dependent: c.name },
        )
    }
}

/// Links contributed by the first `j` sources of one module.
pub open spec fn spec_links_module(acc: Seq<DepPairV>, srcs: Seq<ClassV>, j: int) -> Seq<DepPairV>
    decreases j,
{
    if j <= 0 {
        acc
    } else {
        spec_links_class(
            spec_links_module(acc, srcs, j - 1),
            srcs[j - 1],
            srcs[j - 1].dependencies.len() as int,
        )
    }
}

/// Links contributed by the first `i` modules of the graph.
pub open spec fn spec_links_pref(mods: Seq<ModuleV>, i: int) -> Seq<DepPairV>
    decreases i,
{
    if i <= 0 {
        Seq::empty()
    } else {
        spec_links_module(spec_links_pref(mods, i - 1), mods[i - 1].srcs, mods[i - 1].srcs.len() as int)
    }
}

/// Every dependency link of the graph: for each module, each source, each
/// declared dependency, the pair (dependency name, source name).
pub open spec fn spec_dep_links(mods: Seq<ModuleV>) -> Seq<DepPairV> {
    spec_links_pref(mods, mods.len() as int)
}

/// All dependency links of the graph, in scan order.
pub fn collect_dep_links(modules: &Vec<JavaModule>) -> (r: Vec<DepPair>)
    ensures
        r.deep_view() == spec_dep_links(modules.deep_view()),
{
    let ghost mods = modules.deep_view();
    let mut acc: Vec<DepPair> = Vec::new();
    let mut i: usize = 0;
    while i < modules.len()
        invariant
            0 <= i <= modules@.len(),
            mods == modules.deep_view(),
            mods.len() == modules@.len(),
            acc.deep_view() =~= spec_links_pref(mods, i as int),
        decreases modules@.len() - i,
    {
        assert(mods[i as int] == modules@[i as int]@);
        let m = &modules[i];
        let mut j: usize = 0;
        while j < m.srcs.len()
            invariant
                0 <= j <= m.srcs@.len(),
                m@ == mods[i as int],
                m@.srcs.len() == m.srcs@.len(),
                0 <= i < mods.len(),
                acc.deep_view() =~= spec_links_module(
                    spec_links_pref(mods, i as int),
                    m@.srcs,
                    j as int,
                ),
            decreases m.srcs@.len() - j,
        {
            assert(m@.srcs[j as int] == m.srcs@[j as int]@);
            let src = &m.srcs[j];
            let ghost c = src@;
            let mut k: usize = 0;
            while k < src.dependencies.len()
                invariant
                    0 <= k <= src.dependencies@.len(),
                    c == src@,
                    c.dependencies.len() == src.dependencies@.len(),
                    acc.deep_view() =~= spec_links_class(
                        spec_links_module(
                            spec_links_pref(mods, i as int),
                            m@.srcs,
                            j as int,
                        ),
                        c,
                        k as int,
                    ),
                decreases src.dependencies@.len() - k,
            {
                assert(c.dependencies[k as int] == src.dependencies@[k as int]@);
                let pair = DepPair {
                    dependee: src.dependencies[k].clone(),
                    dependent: src.name.clone(),
                };
                push_dv(&mut acc, pair);
                k += 1;
            }
            j += 1;
        }
        i += 1;
    }
    acc
}

/// The dependee map after inserting the first `j` links.
pub open spec fn spec_fold_links(links: Seq<DepPairV>, j: int) -> Map<Seq<char>, Seq<Seq<char>>>
    decreases j,
{
    if j <= 0 {
        Map::empty()
    } else {
        spec_mm_insert(
            spec_fold_links(links, j - 1),
            links[j - 1].dependee,
            links[j - 1].dependent,
        )
    }
}

/// The derived reverse index of the graph: unit name to the names of the
/// units that declare a dependency on it.
pub open spec fn spec_dependee_map(mods: Seq<ModuleV>) -> Map<Seq<char>, Seq<Seq<char>>> {
    spec_fold_links(spec_dep_links(mods), spec_dep_links(mods).len() as int)
}

/// Build the dependee map by one pass over the graph's dependency links.
pub fn build_dependee_map(modules: &Vec<JavaModule>) -> (r: MultiMap<String, String>)
    ensures
        multimap_rep(r) == spec_dependee_map(modules.deep_view()),
{
    let ghost mods = modules.deep_view();
    let links = collect_dep_links(modules);
    let mut m = mm_new();
    let mut j: usize = 0;
    while j < links.len()
        invariant
            0 <= j <= links@.len(),
            mods == modules.deep_view(),
            links.deep_view() == spec_dep_links(mods),
            links.deep_view().len() == links@.len(),
            multimap_rep(m) == spec_fold_links(spec_dep_links(mods), j as int),
        decreases links@.len() - j,
    {
        assert(links.deep_view()[j as int] == links@[j as int]@);
        let link = &links[j];
        mm_insert(&mut m, link.dependee.clone(), link.dependent.clone());
        j += 1;
    }
    m
}

/// Every value stored in the dependee map is the name of a unit claimed by
/// some module, so lookups into the ownership table succeed on it.
pub proof fn lemma_dependee_values_listed(mods: Seq<ModuleV>)
    ensures
        forall|k: Seq<char>, i: int|
            spec_dependee_map(mods).dom().contains(k) && 0 <= i < spec_dependee_map(mods)[k].len()
                ==> some_module_lists(mods, #[trigger] spec_dependee_map(mods)[k][i]),
{
    lemma_links_listed(mods, mods.len() as int);
    lemma_fold_links_listed(mods, spec_dep_links(mods), spec_dep_links(mods).len() as int);
}

proof fn lemma_links_class_listed(
    mods: Seq<ModuleV>,
    acc: Seq<DepPairV>,
    c: ClassV,
    k: int,
)
    requires
        0 <= k <= c.dependencies.len(),
        some_module_lists(mods, c.name),
        forall|x: int| 0 <= x < acc.len() ==> some_module_lists(mods, #[trigger] acc[x].dependent),
    ensures
        forall|x: int|
            0 <= x < spec_links_class(acc, c, k).len() ==> some_module_lists(
                mods,
                #[trigger] spec_links_class(acc, c, k)[x].dependent,
            ),
    decreases k,
{
    if k > 0 {
        lemma_links_class_listed(mods, acc, c, k - 1);
        let prev = spec_links_class(acc, c, k - 1);
        let cur = spec_links_class(acc, c, k);
        assert forall|x: int| 0 <= x < cur.len() implies some_module_lists(
            mods,
            #[trigger] cur[x].dependent,
        ) by {
            if x < prev.len() {
                assert(cur[x] == prev[x]);
                assert(some_module_lists(mods, prev[x].dependent));
            } else {
                assert(cur[x].dependent == c.name);
            }
        }
    }
}

proof fn lemma_links_module_listed(
    mods: Seq<ModuleV>,
    acc: Seq<DepPairV>,
    mi: int,
    j: int,
)
    requires
        0 <= mi < mods.len(),
        0 <= j <= mods[mi].srcs.len(),
        forall|x: int| 0 <= x < acc.len() ==> some_module_lists(mods, #[trigger] acc[x].dependent),
    ensures
        forall|x: int|
            0 <= x < spec_links_module(acc, mods[mi].srcs, j).len() ==> some_module_lists(
                mods,
                #[trigger] spec_links_module(acc, mods[mi].srcs, j)[x].dependent,
            ),
    decreases j,
{
    if j > 0 {
        lemma_links_module_listed(mods, acc, mi, j - 1);
        let c = mods[mi].srcs[j - 1];
        assert(mods[mi].srcs[j - 1].name == c.name);
        assert(module_lists(mods[mi], c.name));
        assert(some_module_lists(mods, c.name));
        lemma_links_class_listed(
            mods,
            spec_links_module(acc, mods[mi].srcs, j - 1),
            c,
            c.dependencies.len() as int,
        );
    }
}

proof fn lemma_links_listed(mods: Seq<ModuleV>, i: int)
    requires
        0 <= i <= mods.len(),
    ensures
        forall|x: int|
            0 <= x < spec_links_pref(mods, i).len() ==> some_module_lists(
                mods,
                #[trigger] spec_links_pref(mods, i)[x].dependent,
            ),
    decreases i,
{
    if i > 0 {
        lemma_links_listed(mods, i - 1);
        lemma_links_module_listed(
            mods,
            spec_links_pref(mods, i - 1),
            i - 1,
            mods[i - 1].srcs.len() as int,
        );
    }
}

proof fn lemma_fold_links_listed(mods: Seq<ModuleV>, links: Seq<DepPairV>, j: int)
    requires
        0 <= j <= links.len(),
        forall|x: int| 0 <= x < links.len() ==> some_module_lists(
            mods,
            #[trigger] links[x].dependent,
        ),
    ensures
        forall|k: Seq<char>, i: int|
            spec_fold_links(links, j).dom().contains(k) && 0 <= i < spec_fold_links(links, j)[k].len()
                ==> some_module_lists(mods, #[trigger] spec_fold_links(links, j)[k][i]),
    decreases j,
{
    if j > 0 {
        lemma_fold_links_listed(mods, links, j - 1);
        let prev = spec_fold_links(links, j - 1);
        let cur = spec_fold_links(links, j);
        let kk = links[j - 1].dependee;
        let vv = links[j - 1].dependent;
        assert forall|k: Seq<char>, i: int|
            cur.dom().contains(k) && 0 <= i < cur[k].len() implies some_module_lists(
            mods,
            #[trigger] cur[k][i],
        ) by {
            if k == kk {
                if prev.dom().contains(kk) {
                    assert(cur[k] == prev[kk].push(vv));
                    if i < prev[kk].len() {
                        assert(prev[kk][i] == cur[k][i]);
                        assert(some_module_lists(mods, prev[kk][i]));
                    } else {
                        assert(cur[k][i] == vv);
                    }
                } else {
                    assert(cur[k] == seq![vv]);
                    assert(cur[k][i] == vv);
                }
            } else {
                assert(cur[k] == prev[k]);
                assert(some_module_lists(mods, prev[k][i]));
            }
        }
    }
}

} // verus!
