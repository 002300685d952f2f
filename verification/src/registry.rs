//! The category registry: primitive categories bound to extension lists and
//! composite categories bound to lists of other category names. A builder
//! collects definitions; `finalize` checks that every reference resolves and
//! that the composite-inclusion graph is acyclic, and yields an immutable
//! registry. The transitive closure of extensions reachable from a name is
//! the meaning of a category; the matcher module compiles it.

use crate::text::lower_seq;
use crate::text::str_eq;
use vstd::prelude::*;

verus! {

/// A category definition: extensions directly, or references to other
/// categories whose closures this category unites.
pub enum CategoryDef {
    Primitive { extensions: Vec<String> },
    Composite { references: Vec<String> },
}

/// Spec-level mirror of `CategoryDef`.
pub enum DefView {
    Primitive { extensions: Seq<Seq<char>> },
    Composite { references: Seq<Seq<char>> },
}

impl View for CategoryDef {
    type V = DefView;

    open spec fn view(&self) -> DefView {
        match self {
            CategoryDef::Primitive { extensions } => DefView::Primitive {
                extensions: extensions@.map_values(|s: String| s@),
            },
            CategoryDef::Composite { references } => DefView::Composite {
                references: references@.map_values(|s: String| s@),
            },
        }
    }
}

/// The registry as specifications see it: category names with their
/// definitions, in registration order.
pub type RegView = Seq<(Seq<char>, DefView)>;

pub open spec fn entries_view(es: Seq<(String, CategoryDef)>) -> RegView {
    es.map_values(|p: (String, CategoryDef)| (p.0@, p.1@))
}

pub open spec fn name_at(s: RegView, i: int) -> Seq<char> {
    s[i].0
}

pub open spec fn def_at(s: RegView, i: int) -> DefView {
    s[i].1
}

/// The reference list of a definition; empty for a primitive.
pub open spec fn refs_of(d: DefView) -> Seq<Seq<char>> {
    match d {
        DefView::Composite { references } => references,
        DefView::Primitive { .. } => Seq::empty(),
    }
}

pub open spec fn contains_name(s: RegView, name: Seq<char>) -> bool {
    exists|i: int| 0 <= i < s.len() && name_at(s, i) == name
}

pub open spec fn index_of_name(s: RegView, name: Seq<char>) -> int {
    choose|i: int| 0 <= i < s.len() && name_at(s, i) == name
}

pub open spec fn lookup(s: RegView, name: Seq<char>) -> Option<DefView> {
    if contains_name(s, name) {
        Some(def_at(s, index_of_name(s, name)))
    } else {
        None
    }
}

/// No two entries share a name.
pub open spec fn names_unique(s: RegView) -> bool {
    forall|i: int, j: int|
        #![trigger name_at(s, i), name_at(s, j)]
        0 <= i < j < s.len() ==> name_at(s, i) != name_at(s, j)
}

/// A well-formed definition: a primitive category holds at least one
/// extension, without repetition, each already lowercase.
pub open spec fn def_ok(d: DefView) -> bool {
    match d {
        DefView::Primitive { extensions } => {
            &&& extensions.len() > 0
            &&& forall|a: int, b: int|
                #![trigger extensions[a], extensions[b]]
                0 <= a < b < extensions.len() ==> extensions[a] != extensions[b]
            &&& forall|j: int|
                0 <= j < extensions.len() ==> lower_seq(#[trigger] extensions[j]) == extensions[j]
        },
        DefView::Composite { .. } => true,
    }
}

pub open spec fn entry_def_ok(s: RegView, i: int) -> bool {
    def_ok(def_at(s, i))
}

pub open spec fn defs_ok(s: RegView) -> bool {
    forall|i: int| 0 <= i < s.len() ==> #[trigger] entry_def_ok(s, i)
}

/// Every name referenced by the entry at `i` exists in the registry.
pub open spec fn entry_refs_ok(s: RegView, i: int) -> bool {
    forall|j: int|
        0 <= j < refs_of(def_at(s, i)).len() ==> contains_name(
            s,
            #[trigger] refs_of(def_at(s, i))[j],
        )
}

pub open spec fn refs_resolve(s: RegView) -> bool {
    forall|i: int| 0 <= i < s.len() ==> #[trigger] entry_refs_ok(s, i)
}

/// The entry at `i` respects `rank`: its rank is below the registry size and
/// strictly above the rank of everything it references.
pub open spec fn entry_rank_ok(s: RegView, rank: Map<Seq<char>, nat>, i: int) -> bool {
    &&& rank.dom().contains(name_at(s, i))
    &&& rank[name_at(s, i)] < s.len()
    &&& forall|j: int|
        0 <= j < refs_of(def_at(s, i)).len() ==> rank.dom().contains(
            #[trigger] refs_of(def_at(s, i))[j],
        ) && rank[refs_of(def_at(s, i))[j]] < rank[name_at(s, i)]
}

pub open spec fn rank_valid(s: RegView, rank: Map<Seq<char>, nat>) -> bool {
    forall|i: int| 0 <= i < s.len() ==> #[trigger] entry_rank_ok(s, rank, i)
}

/// The composite-inclusion graph is acyclic exactly when it admits a
/// topological ranking: every entry ranks strictly above what it references.
pub open spec fn acyclic(s: RegView) -> bool {
    exists|rank: Map<Seq<char>, nat>| rank_valid(s, rank)
}

/// The extension set of `exts` as a set.
pub open spec fn ext_set(exts: Seq<Seq<char>>) -> Set<Seq<char>> {
    exts.to_set()
}

/// The extensions reachable from `name` by following at most `fuel` levels
/// of composite inclusion.
pub open spec fn closure_upto(s: RegView, name: Seq<char>, fuel: nat) -> Set<Seq<char>>
    decreases fuel, 0nat,
{
    if fuel == 0 {
        Set::empty()
    } else {
        match lookup(s, name) {
            None => Set::empty(),
            Some(DefView::Primitive { extensions }) => ext_set(extensions),
            Some(DefView::Composite { references }) => closure_list(
                s,
                references,
                (fuel - 1) as nat,
            ),
        }
    }
}

pub open spec fn closure_list(s: RegView, names: Seq<Seq<char>>, fuel: nat) -> Set<Seq<char>>
    decreases fuel, names.len(),
{
    if names.len() == 0 {
        Set::empty()
    } else {
        closure_upto(s, names[0], fuel).union(closure_list(s, names.skip(1), fuel))
    }
}

/// The transitive closure of extensions reachable from `name`: in an acyclic
/// registry, inclusion chains are shorter than the number of entries, so the
/// registry size is fuel enough.
pub open spec fn category_closure(s: RegView, name: Seq<char>) -> Set<Seq<char>> {
    closure_upto(s, name, s.len())
}

/// The union of the closures of each name in `names`.
pub open spec fn closure_union(s: RegView, names: Seq<Seq<char>>) -> Set<Seq<char>>
    decreases names.len(),
{
    if names.len() == 0 {
        Set::empty()
    } else {
        category_closure(s, names[0]).union(closure_union(s, names.skip(1)))
    }
}

/// The extension list of a definition; empty for a composite.
pub open spec fn exts_of(d: DefView) -> Seq<Seq<char>> {
    match d {
        DefView::Primitive { extensions } => extensions,
        DefView::Composite { .. } => Seq::empty(),
    }
}

/// The rank of `name`, defaulting to zero for names that `rank` does not
/// cover.
pub open spec fn rank_of(rank: Map<Seq<char>, nat>, name: Seq<char>) -> nat {
    if rank.dom().contains(name) {
        rank[name]
    } else {
        0
    }
}

/// Above the rank of `name`, more fuel never changes the reachable set.
proof fn lemma_saturate(s: RegView, rank: Map<Seq<char>, nat>, name: Seq<char>, f1: nat, f2: nat)
    requires
        rank_valid(s, rank),
        f1 > rank_of(rank, name),
        f2 > rank_of(rank, name),
    ensures
        closure_upto(s, name, f1) == closure_upto(s, name, f2),
    decreases rank_of(rank, name), 1nat, 0nat,
{
    if contains_name(s, name) {
        let i = index_of_name(s, name);
        assert(0 <= i < s.len() && name_at(s, i) == name);
        assert(entry_rank_ok(s, rank, i));
        match def_at(s, i) {
            DefView::Composite { references } => {
                assert(references == refs_of(def_at(s, i)));
                lemma_saturate_list(
                    s,
                    rank,
                    references,
                    (f1 - 1) as nat,
                    (f2 - 1) as nat,
                    rank_of(rank, name),
                );
            },
            DefView::Primitive { .. } => {},
        }
    }
}

proof fn lemma_saturate_list(
    s: RegView,
    rank: Map<Seq<char>, nat>,
    names: Seq<Seq<char>>,
    g1: nat,
    g2: nat,
    b: nat,
)
    requires
        rank_valid(s, rank),
        forall|j: int|
            0 <= j < names.len() ==> rank.dom().contains(#[trigger] names[j]) && rank[names[j]]
                < b,
        g1 >= b,
        g2 >= b,
    ensures
        closure_list(s, names, g1) == closure_list(s, names, g2),
    decreases b, 0nat, names.len(),
{
    if names.len() > 0 {
        lemma_saturate(s, rank, names[0], g1, g2);
        lemma_saturate_list(s, rank, names.skip(1), g1, g2, b);
    }
}

/// With fuel at least `b`, a reference list's reachable set is exactly the
/// union of the referenced categories' closures.
proof fn lemma_list_eq_union(
    s: RegView,
    rank: Map<Seq<char>, nat>,
    names: Seq<Seq<char>>,
    g: nat,
    b: nat,
)
    requires
        rank_valid(s, rank),
        forall|j: int|
            0 <= j < names.len() ==> rank.dom().contains(#[trigger] names[j]) && rank[names[j]]
                < b,
        g >= b,
        b <= s.len(),
    ensures
        closure_list(s, names, g) == closure_union(s, names),
    decreases names.len(),
{
    if names.len() > 0 {
        lemma_saturate(s, rank, names[0], g, s.len());
        lemma_list_eq_union(s, rank, names.skip(1), g, b);
    }
}

/// Appending a name to a reference list unites its closure into the union.
pub proof fn lemma_closure_union_push(s: RegView, names: Seq<Seq<char>>, x: Seq<char>)
    ensures
        closure_union(s, names.push(x)) == closure_union(s, names).union(category_closure(s, x)),
    decreases names.len(),
{
    if names.len() == 0 {
        assert(names.push(x).skip(1) =~= Seq::<Seq<char>>::empty());
        assert(names.push(x)[0] == x);
        assert(closure_union(s, names.push(x)) == category_closure(s, x).union(
            closure_union(s, names.push(x).skip(1)),
        ));
        assert(closure_union(s, names.push(x).skip(1)) == Set::<Seq<char>>::empty());
        assert(closure_union(s, names.push(x)) =~= closure_union(s, names).union(
            category_closure(s, x),
        ));
    } else {
        assert(names.push(x).skip(1) =~= names.skip(1).push(x));
        lemma_closure_union_push(s, names.skip(1), x);
        assert(closure_union(s, names.push(x)) =~= closure_union(s, names).union(
            category_closure(s, x),
        ));
    }
}

/// The views of a sequence of strings.
pub open spec fn strs_view(v: Seq<String>) -> Seq<Seq<char>> {
    v.map_values(|s: String| s@)
}

/// The set of views of a sequence of strings.
pub open spec fn strs_set(v: Seq<String>) -> Set<Seq<char>> {
    strs_view(v).to_set()
}

pub proof fn lemma_strs_set_concat(a: Seq<String>, b: Seq<String>)
    ensures
        strs_set(a + b) == strs_set(a).union(strs_set(b)),
{
    assert(strs_view(a + b) =~= strs_view(a) + strs_view(b));
    assert forall|x: Seq<char>| strs_set(a + b).contains(x) implies strs_set(a).union(
        strs_set(b),
    ).contains(x) by {
        let i = choose|i: int| 0 <= i < strs_view(a + b).len() && strs_view(a + b)[i] == x;
        if i < a.len() {
            assert(strs_view(a)[i] == x);
        } else {
            assert(strs_view(b)[i - a.len()] == x);
        }
    }
    assert forall|x: Seq<char>| strs_set(a).union(strs_set(b)).contains(x) implies strs_set(
        a + b,
    ).contains(x) by {
        if strs_set(a).contains(x) {
            let i = choose|i: int| 0 <= i < strs_view(a).len() && strs_view(a)[i] == x;
            assert(strs_view(a + b)[i] == x);
        } else {
            let i = choose|i: int| 0 <= i < strs_view(b).len() && strs_view(b)[i] == x;
            assert(strs_view(a + b)[a.len() + i] == x);
        }
    }
    assert(strs_set(a + b) =~= strs_set(a).union(strs_set(b)));
}

/// A member of a reference list contributes its whole closure.
proof fn lemma_closure_list_member(s: RegView, names: Seq<Seq<char>>, fuel: nat, j: int)
    requires
        0 <= j < names.len(),
    ensures
        closure_upto(s, names[j], fuel).subset_of(closure_list(s, names, fuel)),
    decreases j,
{
    if j > 0 {
        lemma_closure_list_member(s, names.skip(1), fuel, j - 1);
        assert(names.skip(1)[j - 1] == names[j]);
    }
}

/// A primitive category's closure is exactly its own extension set.
pub proof fn lemma_primitive_closure(s: RegView, name: Seq<char>)
    requires
        contains_name(s, name),
        def_at(s, index_of_name(s, name)) is Primitive,
    ensures
        category_closure(s, name) == ext_set(exts_of(def_at(s, index_of_name(s, name)))),
{
    let i = index_of_name(s, name);
    assert(0 <= i < s.len() && name_at(s, i) == name);
    assert(lookup(s, name) == Some(def_at(s, i)));
}

/// Closure transitivity: every extension in the closure of a referenced
/// category lies in the closure of the composite that references it.
pub proof fn lemma_composite_closure_includes_ref(s: RegView, name: Seq<char>, r: Seq<char>)
    requires
        acyclic(s),
        contains_name(s, name),
        refs_of(def_at(s, index_of_name(s, name))).contains(r),
    ensures
        category_closure(s, r).subset_of(category_closure(s, name)),
{
    let rank = choose|rank: Map<Seq<char>, nat>| rank_valid(s, rank);
    let i = index_of_name(s, name);
    assert(0 <= i < s.len() && name_at(s, i) == name);
    assert(entry_rank_ok(s, rank, i));
    let refs = refs_of(def_at(s, i));
    let j = choose|j: int| 0 <= j < refs.len() && refs[j] == r;
    assert(rank.dom().contains(r) && rank[r] < rank[name]);
    assert(lookup(s, name) == Some(def_at(s, i)));
    match def_at(s, i) {
        DefView::Composite { references } => {
            assert(references == refs);
            assert(category_closure(s, name) == closure_list(s, refs, (s.len() - 1) as nat));
            lemma_closure_list_member(s, refs, (s.len() - 1) as nat, j);
            lemma_saturate(s, rank, r, (s.len() - 1) as nat, s.len());
        },
        DefView::Primitive { .. } => {
            assert(false);
        },
    }
}

/// Errors that arise while the registry is built.
#[derive(Clone, Copy, Debug, PartialEq, Eq, Structural)]
pub enum RegistryBuildError {
    /// `register` saw a name that already exists.
    DuplicateName,
    /// A composite references a name absent from the registry.
    UnknownReference,
    /// The composite-inclusion graph contains a cycle.
    CycleDetected,
}

/// Collects category definitions before validation.
pub struct RegistryBuilder {
    entries: Vec<(String, CategoryDef)>,
}

/// The immutable, validated registry.
pub struct Registry {
    entries: Vec<(String, CategoryDef)>,
    rank: Ghost<Map<Seq<char>, nat>>,
}

impl View for RegistryBuilder {
    type V = RegView;

    closed spec fn view(&self) -> RegView {
        entries_view(self.entries@)
    }
}

impl View for Registry {
    type V = RegView;

    closed spec fn view(&self) -> RegView {
        entries_view(self.entries@)
    }
}

/// Find the entry with the given name.
fn find_index(entries: &Vec<(String, CategoryDef)>, name: &str) -> (r: Option<usize>)
    ensures
        match r {
            Some(i) => 0 <= i < entries_view(entries@).len() && name_at(
                entries_view(entries@),
                i as int,
            ) == name@,
            None => !contains_name(entries_view(entries@), name@),
        },
{
    let ghost v = entries_view(entries@);
    let mut i: usize = 0;
    while i < entries.len()
        invariant
            i <= entries@.len(),
            v == entries_view(entries@),
            v.len() == entries@.len(),
            forall|k: int| 0 <= k < i ==> name_at(v, k) != name@,
        decreases entries@.len() - i,
    {
        if str_eq(entries[i].0.as_str(), name) {
            proof {
                assert(name_at(v, i as int) == name@);
            }
            return Some(i);
        }
        i += 1;
    }
    None
}

/// How many entries of `s` are true.
spec fn count_true(s: Seq<bool>) -> nat
    decreases s.len(),
{
    if s.len() == 0 {
        0
    } else {
        count_true(s.drop_last()) + if s.last() {
            1nat
        } else {
            0nat
        }
    }
}

proof fn lemma_count_true_bound(s: Seq<bool>)
    ensures
        count_true(s) <= s.len(),
    decreases s.len(),
{
    if s.len() > 0 {
        lemma_count_true_bound(s.drop_last());
    }
}

proof fn lemma_count_true_full(s: Seq<bool>)
    requires
        forall|k: int| 0 <= k < s.len() ==> s[k],
    ensures
        count_true(s) == s.len(),
    decreases s.len(),
{
    if s.len() > 0 {
        assert(forall|k: int| 0 <= k < s.len() - 1 ==> s.drop_last()[k] == s[k]);
        lemma_count_true_full(s.drop_last());
    }
}

proof fn lemma_count_true_none(s: Seq<bool>)
    requires
        forall|k: int| 0 <= k < s.len() ==> !s[k],
    ensures
        count_true(s) == 0,
    decreases s.len(),
{
    if s.len() > 0 {
        assert(forall|k: int| 0 <= k < s.len() - 1 ==> s.drop_last()[k] == s[k]);
        lemma_count_true_none(s.drop_last());
    }
}

proof fn lemma_count_true_all(s: Seq<bool>)
    requires
        count_true(s) == s.len(),
    ensures
        forall|k: int| 0 <= k < s.len() ==> s[k],
    decreases s.len(),
{
    if s.len() > 0 {
        lemma_count_true_bound(s.drop_last());
        assert(s.last());
        lemma_count_true_all(s.drop_last());
        assert forall|k: int| 0 <= k < s.len() implies s[k] by {
            if k < s.len() - 1 {
                assert(s.drop_last()[k]);
            }
        }
    }
}

proof fn lemma_count_true_update(s: Seq<bool>, i: int)
    requires
        0 <= i < s.len(),
        !s[i],
    ensures
        count_true(s.update(i, true)) == count_true(s) + 1,
    decreases s.len(),
{
    if i == s.len() - 1 {
        assert(s.update(i, true).drop_last() =~= s.drop_last());
        assert(s.update(i, true).last());
    } else {
        assert(s.update(i, true).drop_last() =~= s.drop_last().update(i, true));
        lemma_count_true_update(s.drop_last(), i);
        assert(s.update(i, true).last() == s.last());
    }
}

/// An index found by name is the one `index_of_name` denotes, when names are
/// unique.
proof fn lemma_index_unique(v: RegView, i: int, name: Seq<char>)
    requires
        names_unique(v),
        0 <= i < v.len(),
        name_at(v, i) == name,
    ensures
        contains_name(v, name),
        index_of_name(v, name) == i,
{
    assert(contains_name(v, name));
    let j = index_of_name(v, name);
    assert(0 <= j < v.len() && name_at(v, j) == name);
    if i < j {
        assert(name_at(v, i) != name_at(v, j));
    } else if j < i {
        assert(name_at(v, j) != name_at(v, i));
    }
}

/// The category `name` exists and the entry it names is already ranked.
spec fn ref_ranked(v: RegView, ranked: Seq<bool>, name: Seq<char>) -> bool {
    contains_name(v, name) && ranked[index_of_name(v, name)]
}

/// Everything the entry at `i` references is already ranked.
spec fn entry_ready(v: RegView, ranked: Seq<bool>, i: int) -> bool {
    forall|j: int|
        0 <= j < refs_of(def_at(v, i)).len() ==> ref_ranked(
            v,
            ranked,
            #[trigger] refs_of(def_at(v, i))[j],
        )
}

/// When no unranked entry is ready, no topological ranking can exist: any
/// candidate ranking would have to decrease forever along unranked
/// references.
proof fn lemma_stuck(v: RegView, rnk: Map<Seq<char>, nat>, ranked: Seq<bool>, i0: int)
    requires
        names_unique(v),
        refs_resolve(v),
        ranked.len() == v.len(),
        forall|k: int|
            0 <= k < v.len() && !ranked[k] ==> !(#[trigger] entry_ready(v, ranked, k)),
        0 <= i0 < v.len(),
        !ranked[i0],
    ensures
        !rank_valid(v, rnk),
    decreases rank_of(rnk, name_at(v, i0)),
{
    if rank_valid(v, rnk) {
        assert(entry_rank_ok(v, rnk, i0));
        assert(entry_refs_ok(v, i0));
        assert(!entry_ready(v, ranked, i0));
        match def_at(v, i0) {
            DefView::Composite { references } => {
                assert(references == refs_of(def_at(v, i0)));
                let j = choose|j: int|
                    0 <= j < refs_of(def_at(v, i0)).len() && !ref_ranked(
                        v,
                        ranked,
                        #[trigger] refs_of(def_at(v, i0))[j],
                    );
                assert(0 <= j < references.len() && !ref_ranked(v, ranked, references[j]));
                let r = references[j];
                assert(contains_name(v, r));
                let k = index_of_name(v, r);
                assert(0 <= k < v.len() && name_at(v, k) == r);
                assert(!ranked[k]);
                assert(rnk[r] < rnk[name_at(v, i0)]);
                lemma_stuck(v, rnk, ranked, k);
            },
            DefView::Primitive { .. } => {
                assert(false);
            },
        }
    }
}

/// Whether the entry at `i` is ready: each referenced name resolves to an
/// already-ranked entry.
fn check_ready(entries: &Vec<(String, CategoryDef)>, ranked: &Vec<bool>, i: usize) -> (r: bool)
    requires
        names_unique(entries_view(entries@)),
        i < entries@.len(),
        ranked@.len() == entries@.len(),
    ensures
        r == entry_ready(entries_view(entries@), ranked@, i as int),
{
    let ghost v = entries_view(entries@);
    match &entries[i].1 {
        CategoryDef::Primitive { .. } => {
            proof {
                assert(entry_ready(v, ranked@, i as int));
            }
            true
        },
        CategoryDef::Composite { references } => {
            let ghost refs_v = references@.map_values(|s: String| s@);
            proof {
                assert(def_at(v, i as int) == DefView::Composite { references: refs_v });
                assert(refs_of(def_at(v, i as int)) == refs_v);
            }
            let mut j: usize = 0;
            while j < references.len()
                invariant
                    j <= references@.len(),
                    refs_v == references@.map_values(|s: String| s@),
                    refs_v.len() == references@.len(),
                    v == entries_view(entries@),
                    names_unique(v),
                    ranked@.len() == entries@.len(),
                    v.len() == entries@.len(),
                    i < v.len(),
                    refs_of(def_at(v, i as int)) == refs_v,
                    forall|t: int| 0 <= t < j ==> ref_ranked(v, ranked@, #[trigger] refs_v[t]),
                decreases references@.len() - j,
            {
                match find_index(entries, references[j].as_str()) {
                    Some(k) => {
                        proof {
                            lemma_index_unique(v, k as int, refs_v[j as int]);
                        }
                        if !ranked[k] {
                            proof {
                                assert(!ref_ranked(v, ranked@, refs_v[j as int]));
                                assert(!entry_ready(v, ranked@, i as int));
                            }
                            return false;
                        }
                        proof {
                            assert(ref_ranked(v, ranked@, refs_v[j as int]));
                        }
                    },
                    None => {
                        proof {
                            assert(!ref_ranked(v, ranked@, refs_v[j as int]));
                            assert(!entry_ready(v, ranked@, i as int));
                        }
                        return false;
                    },
                }
                j += 1;
            }
            proof {
                assert(entry_ready(v, ranked@, i as int));
            }
            true
        },
    }
}

/// Find an unranked entry whose references are all ranked.
fn find_ready(entries: &Vec<(String, CategoryDef)>, ranked: &Vec<bool>) -> (r: Option<usize>)
    requires
        names_unique(entries_view(entries@)),
        ranked@.len() == entries@.len(),
    ensures
        match r {
            Some(i) => i < entries@.len() && !ranked@[i as int] && entry_ready(
                entries_view(entries@),
                ranked@,
                i as int,
            ),
            None => forall|k: int|
                0 <= k < entries@.len() && !ranked@[k] ==> !(#[trigger] entry_ready(
                    entries_view(entries@),
                    ranked@,
                    k,
                )),
        },
{
    let ghost v = entries_view(entries@);
    let mut i: usize = 0;
    while i < entries.len()
        invariant
            i <= entries@.len(),
            v == entries_view(entries@),
            names_unique(v),
            ranked@.len() == entries@.len(),
            forall|t: int|
                0 <= t < i && !ranked@[t] ==> !(#[trigger] entry_ready(v, ranked@, t)),
        decreases entries@.len() - i,
    {
        if !ranked[i] && check_ready(entries, ranked, i) {
            return Some(i);
        }
        i += 1;
    }
    None
}

impl Registry {
    /// The registry invariant: unique names, well-formed definitions,
    /// references that resolve, and a witness ranking of the acyclic
    /// inclusion graph.
    pub closed spec fn wf(&self) -> bool {
        &&& names_unique(self@)
        &&& defs_ok(self@)
        &&& refs_resolve(self@)
        &&& rank_valid(self@, self.rank@)
    }

    /// The witness rank of `name` in this registry's topological ranking.
    pub closed spec fn spec_rank(&self, name: Seq<char>) -> nat {
        rank_of(self.rank@, name)
    }

    /// Whether a category of this name exists.
    pub fn contains(&self, name: &str) -> (r: bool)
        ensures
            r == contains_name(self@, name@),
    {
        find_index(&self.entries, name).is_some()
    }

    /// All extensions reachable from `name` through composite inclusion.
    pub fn closure_of(&self, name: &str) -> (r: Vec<String>)
        requires
            self.wf(),
            contains_name(self@, name@),
        ensures
            strs_set(r@) == category_closure(self@, name@),
        decreases self.spec_rank(name@),
    {
        let ghost v = self@;
        let idx = match find_index(&self.entries, name) {
            Some(i) => i,
            None => {
                proof {
                    assert(false);
                }
                0
            },
        };
        proof {
            lemma_index_unique(v, idx as int, name@);
            assert(entry_rank_ok(v, self.rank@, idx as int));
            assert(entry_refs_ok(v, idx as int));
        }
        match &self.entries[idx].1 {
            CategoryDef::Primitive { extensions } => {
                let ghost exts_v = extensions@.map_values(|s: String| s@);
                let mut out: Vec<String> = Vec::new();
                let mut i: usize = 0;
                while i < extensions.len()
                    invariant
                        i <= extensions@.len(),
                        out@.len() == i,
                        exts_v == extensions@.map_values(|s: String| s@),
                        forall|t: int| 0 <= t < i ==> #[trigger] out@[t]@ == exts_v[t],
                    decreases extensions@.len() - i,
                {
                    out.push(extensions[i].clone());
                    i += 1;
                }
                proof {
                    assert(strs_view(out@) =~= exts_v);
                    assert(def_at(v, idx as int) == DefView::Primitive { extensions: exts_v });
                    assert(category_closure(v, name@) == ext_set(exts_v));
                    assert(strs_set(out@) == category_closure(v, name@));
                }
                out
            },
            CategoryDef::Composite { references } => {
                let ghost refs_v = references@.map_values(|s: String| s@);
                proof {
                    assert(def_at(v, idx as int) == DefView::Composite { references: refs_v });
                    assert(refs_of(def_at(v, idx as int)) == refs_v);
                }
                let mut out: Vec<String> = Vec::new();
                let mut j: usize = 0;
                while j < references.len()
                    invariant
                        j <= references@.len(),
                        self.wf(),
                        v == self@,
                        refs_v == references@.map_values(|s: String| s@),
                        refs_v.len() == references@.len(),
                        0 <= idx < v.len(),
                        name_at(v, idx as int) == name@,
                        def_at(v, idx as int) == (DefView::Composite { references: refs_v }),
                        refs_of(def_at(v, idx as int)) == refs_v,
                        entry_rank_ok(v, self.rank@, idx as int),
                        entry_refs_ok(v, idx as int),
                        strs_set(out@) == closure_union(v, refs_v.take(j as int)),
                    decreases references@.len() - j,
                {
                    proof {
                        assert(references@[j as int]@ == refs_v[j as int]);
                        assert(contains_name(v, refs_v[j as int]));
                        assert(self.rank@.dom().contains(refs_v[j as int]));
                        assert(self.rank@[refs_v[j as int]] < self.rank@[name@]);
                    }
                    let ghost old_out = out@;
                    let mut sub = self.closure_of(references[j].as_str());
                    let ghost sub_v = sub@;
                    out.append(&mut sub);
                    proof {
                        assert(out@ == old_out + sub_v);
                        lemma_strs_set_concat(old_out, sub_v);
                        lemma_closure_union_push(v, refs_v.take(j as int), refs_v[j as int]);
                        assert(refs_v.take(j + 1) =~= refs_v.take(j as int).push(
                            refs_v[j as int],
                        ));
                        assert(strs_set(out@) == closure_union(v, refs_v.take(j + 1)));
                    }
                    j += 1;
                }
                proof {
                    assert(refs_v.take(refs_v.len() as int) =~= refs_v);
                    lemma_list_eq_union(
                        v,
                        self.rank@,
                        refs_v,
                        (v.len() - 1) as nat,
                        self.rank@[name@],
                    );
                    assert(category_closure(v, name@) == closure_list(
                        v,
                        refs_v,
                        (v.len() - 1) as nat,
                    ));
                    assert(strs_set(out@) == category_closure(v, name@));
                }
                out
            },
        }
    }
}

impl RegistryBuilder {
    /// Names are unique and every definition is well formed.
    pub closed spec fn inv(&self) -> bool {
        names_unique(self@) && defs_ok(self@)
    }

    /// An empty builder.
    pub fn new() -> (r: Self)
        ensures
            r@ == Seq::<(Seq<char>, DefView)>::empty(),
            r.inv(),
    {
        let r = RegistryBuilder { entries: Vec::new() };
        proof {
            assert(r@ =~= Seq::<(Seq<char>, DefView)>::empty());
        }
        r
    }

    /// Whether a category of this name is already registered.
    pub fn contains(&self, name: &str) -> (r: bool)
        ensures
            r == contains_name(self@, name@),
    {
        find_index(&self.entries, name).is_some()
    }

    /// Add one category. Fails exactly when the name is already taken, and
    /// then leaves the builder unchanged.
    pub fn register(&mut self, name: &str, def: CategoryDef) -> (r: Result<
        (),
        RegistryBuildError,
    >)
        requires
            old(self).inv(),
            def_ok(def@),
        ensures
            final(self).inv(),
            match r {
                Ok(()) => !contains_name(old(self)@, name@) && final(self)@ == old(self)@.push(
                    (name@, def@),
                ),
                Err(e) => e == RegistryBuildError::DuplicateName && contains_name(
                    old(self)@,
                    name@,
                ) && final(self)@ == old(self)@,
            },
    {
        if self.contains(name) {
            return Err(RegistryBuildError::DuplicateName);
        }
        let ghost old_view = self@;
        self.entries.push((name.to_owned(), def));
        proof {
            assert(self@ =~= old_view.push((name@, def@)));
            assert forall|i: int, j: int|
                #![trigger name_at(self@, i), name_at(self@, j)]
                0 <= i < j < self@.len() implies name_at(self@, i) != name_at(self@, j) by {
                if j < old_view.len() {
                    assert(name_at(old_view, i) != name_at(old_view, j));
                } else {
                    assert(name_at(self@, i) == name_at(old_view, i));
                }
            }
            assert forall|i: int| 0 <= i < self@.len() implies #[trigger] entry_def_ok(
                self@,
                i,
            ) by {
                if i < old_view.len() {
                    assert(entry_def_ok(old_view, i));
                }
            }
        }
        Ok(())
    }

    /// Validate the collected definitions and freeze them.
    ///
    /// Fails with `UnknownReference` when some composite references a name
    /// absent from the registry, and with `CycleDetected` when the
    /// references resolve but admit no topological ranking; otherwise the
    /// registry is returned unchanged and immutable.
    pub fn finalize(self) -> (r: Result<Registry, RegistryBuildError>)
        requires
            self.inv(),
        ensures
            match r {
                Ok(reg) => reg@ == self@ && reg.wf() && refs_resolve(self@) && acyclic(self@),
                Err(RegistryBuildError::UnknownReference) => !refs_resolve(self@),
                Err(RegistryBuildError::CycleDetected) => refs_resolve(self@) && !acyclic(self@),
                Err(RegistryBuildError::DuplicateName) => false,
            },
    {
        let ghost v = self@;
        let n = self.entries.len();
        let mut i: usize = 0;
        while i < n
            invariant
                i <= n,
                n == self.entries@.len(),
                v == entries_view(self.entries@),
                v.len() == n,
                forall|k: int| 0 <= k < i ==> #[trigger] entry_refs_ok(v, k),
            decreases n - i,
        {
            match &self.entries[i].1 {
                CategoryDef::Primitive { .. } => {
                    proof {
                        assert(entry_refs_ok(v, i as int));
                    }
                },
                CategoryDef::Composite { references } => {
                    let ghost refs_v = references@.map_values(|s: String| s@);
                    proof {
                        assert(def_at(v, i as int) == DefView::Composite { references: refs_v });
                        assert(refs_of(def_at(v, i as int)) == refs_v);
                    }
                    let mut j: usize = 0;
                    while j < references.len()
                        invariant
                            j <= references@.len(),
                            v == entries_view(self.entries@),
                            refs_v == references@.map_values(|s: String| s@),
                            refs_v.len() == references@.len(),
                            0 <= i < v.len(),
                            refs_of(def_at(v, i as int)) == refs_v,
                            forall|t: int|
                                0 <= t < j ==> contains_name(v, #[trigger] refs_v[t]),
                        decreases references@.len() - j,
                    {
                        if find_index(&self.entries, references[j].as_str()).is_none() {
                            proof {
                                assert(!contains_name(v, refs_v[j as int]));
                                assert(!entry_refs_ok(v, i as int));
                                assert(!refs_resolve(v));
                            }
                            return Err(RegistryBuildError::UnknownReference);
                        }
                        j += 1;
                    }
                    proof {
                        assert(entry_refs_ok(v, i as int));
                    }
                },
            }
            i += 1;
        }
        proof {
            assert(refs_resolve(v));
        }
        let mut ranked: Vec<bool> = Vec::new();
        let mut f: usize = 0;
        while f < n
            invariant
                f <= n,
                ranked@.len() == f,
                forall|t: int| 0 <= t < f ==> !(#[trigger] ranked@[t]),
            decreases n - f,
        {
            ranked.push(false);
            f += 1;
        }
        proof {
            lemma_count_true_none(ranked@);
        }
        let ghost mut rnk = Map::<Seq<char>, nat>::empty();
        let mut count: usize = 0;
        while count < n
            invariant
                count <= n,
                n == self.entries@.len(),
                v == entries_view(self.entries@),
                v.len() == n,
                names_unique(v),
                defs_ok(v),
                refs_resolve(v),
                ranked@.len() == n,
                count == count_true(ranked@),
                forall|k: int|
                    0 <= k < n && ranked@[k] ==> rnk.dom().contains(#[trigger] name_at(v, k))
                        && rnk[name_at(v, k)] < count,
                forall|k: int|
                    0 <= k < n && ranked@[k] ==> #[trigger] entry_rank_ok(v, rnk, k),
                forall|x: Seq<char>|
                    rnk.dom().contains(x) ==> exists|k: int|
                        0 <= k < n && #[trigger] ranked@[k] && name_at(v, k) == x,
            decreases n - count,
        {
            match find_ready(&self.entries, &ranked) {
                Some(i2) => {
                    let ghost old_ranked = ranked@;
                    let ghost old_rnk = rnk;
                    let ghost nm = name_at(v, i2 as int);
                    ranked[i2] = true;
                    proof {
                        rnk = rnk.insert(nm, count as nat);
                        lemma_count_true_update(old_ranked, i2 as int);
                        // The fresh name is not in the old domain: a ranked
                        // entry carrying it would clash with uniqueness.
                        assert(!old_rnk.dom().contains(nm)) by {
                            if old_rnk.dom().contains(nm) {
                                let k = choose|k: int|
                                    0 <= k < n && #[trigger] old_ranked[k] && name_at(v, k)
                                        == nm;
                                lemma_index_unique(v, k, nm);
                                lemma_index_unique(v, i2 as int, nm);
                            }
                        }
                        assert forall|k: int| 0 <= k < n && ranked@[k] implies #[trigger]
                        entry_rank_ok(v, rnk, k) by {
                            if k != i2 as int {
                                assert(entry_rank_ok(v, old_rnk, k));
                                assert(name_at(v, k) != nm) by {
                                    lemma_index_unique(v, k, name_at(v, k));
                                    lemma_index_unique(v, i2 as int, nm);
                                }
                                assert forall|j: int|
                                    0 <= j < refs_of(def_at(v, k)).len() implies rnk.dom()
                                    .contains(#[trigger] refs_of(def_at(v, k))[j]) && rnk[refs_of(
                                    def_at(v, k),
                                )[j]] < rnk[name_at(v, k)] by {
                                    assert(old_rnk.dom().contains(refs_of(def_at(v, k))[j]));
                                }
                            } else {
                                assert(entry_ready(v, old_ranked, i2 as int));
                                assert forall|j: int|
                                    0 <= j < refs_of(def_at(v, i2 as int)).len() implies rnk.dom()
                                    .contains(#[trigger] refs_of(def_at(v, i2 as int))[j])
                                    && rnk[refs_of(def_at(v, i2 as int))[j]] < rnk[nm] by {
                                    let rf = refs_of(def_at(v, i2 as int))[j];
                                    assert(ref_ranked(v, old_ranked, rf));
                                    let t = index_of_name(v, rf);
                                    assert(old_ranked[t] && name_at(v, t) == rf);
                                    assert(old_rnk.dom().contains(rf) && old_rnk[rf] < count);
                                }
                            }
                        }
                        assert forall|x: Seq<char>| rnk.dom().contains(x) implies exists|k: int|
                            0 <= k < n && #[trigger] ranked@[k] && name_at(v, k) == x by {
                            if x == nm {
                                assert(ranked@[i2 as int] && name_at(v, i2 as int) == x);
                            } else {
                                let k = choose|k: int|
                                    0 <= k < n && #[trigger] old_ranked[k] && name_at(v, k)
                                        == x;
                                assert(ranked@[k] && name_at(v, k) == x);
                            }
                        }
                    }
                    count += 1;
                },
                None => {
                    proof {
                        if acyclic(v) {
                            let rr = choose|rr: Map<Seq<char>, nat>| rank_valid(v, rr);
                            if !(exists|k0: int| 0 <= k0 < n && !(#[trigger] ranked@[k0])) {
                                assert(forall|k0: int| 0 <= k0 < n ==> ranked@[k0]);
                                lemma_count_true_full(ranked@);
                                assert(false);
                            }
                            let k0 = choose|k0: int| 0 <= k0 < n && !(#[trigger] ranked@[k0]);
                            lemma_stuck(v, rr, ranked@, k0);
                        }
                        assert(!acyclic(v));
                    }
                    return Err(RegistryBuildError::CycleDetected);
                },
            }
        }
        proof {
            lemma_count_true_all(ranked@);
            assert(rank_valid(v, rnk));
        }
        let reg = Registry { entries: self.entries, rank: Ghost(rnk) };
        proof {
            assert(reg@ == v);
            assert(reg.wf());
            assert(acyclic(v)) by {
                assert(rank_valid(v, rnk));
            }
        }
        Ok(reg)
    }
}

/// Register a primitive category of one extension.
fn register_prim1(b: &mut RegistryBuilder, name: &str, e1: &str)
    requires
        old(b).inv(),
        !contains_name(old(b)@, name@),
        lower_seq(e1@) == e1@,
    ensures
        final(b).inv(),
        final(b)@ == old(b)@.push((name@, DefView::Primitive { extensions: seq![e1@] })),
{
    let d = CategoryDef::Primitive { extensions: vec![e1.to_owned()] };
    proof {
        assert(exts_of(d@) =~= seq![e1@]);
        assert(d@ == (DefView::Primitive { extensions: seq![e1@] }));
        assert(def_ok(d@));
    }
    let r = b.register(name, d);
    proof {
        if r is Err {
            assert(false);
        }
    }
}

/// Register a primitive category of two extensions.
fn register_prim2(b: &mut RegistryBuilder, name: &str, e1: &str, e2: &str)
    requires
        old(b).inv(),
        !contains_name(old(b)@, name@),
        lower_seq(e1@) == e1@,
        lower_seq(e2@) == e2@,
        e1@ != e2@,
    ensures
        final(b).inv(),
        final(b)@ == old(b)@.push((name@, DefView::Primitive { extensions: seq![e1@, e2@] })),
{
    let d = CategoryDef::Primitive { extensions: vec![e1.to_owned(), e2.to_owned()] };
    proof {
        assert(exts_of(d@) =~= seq![e1@, e2@]);
        assert(d@ == (DefView::Primitive { extensions: seq![e1@, e2@] }));
        assert(def_ok(d@));
    }
    let r = b.register(name, d);
    proof {
        if r is Err {
            assert(false);
        }
    }
}

/// Register a composite category of one reference.
fn register_comp1(b: &mut RegistryBuilder, name: &str, r1: &str)
    requires
        old(b).inv(),
        !contains_name(old(b)@, name@),
    ensures
        final(b).inv(),
        final(b)@ == old(b)@.push((name@, DefView::Composite { references: seq![r1@] })),
{
    let d = CategoryDef::Composite { references: vec![r1.to_owned()] };
    proof {
        assert(refs_of(d@) =~= seq![r1@]);
        assert(d@ == (DefView::Composite { references: seq![r1@] }));
    }
    let r = b.register(name, d);
    proof {
        if r is Err {
            assert(false);
        }
    }
}

/// Register a composite category of two references.
fn register_comp2(b: &mut RegistryBuilder, name: &str, r1: &str, r2: &str)
    requires
        old(b).inv(),
        !contains_name(old(b)@, name@),
    ensures
        final(b).inv(),
        final(b)@ == old(b)@.push((name@, DefView::Composite { references: seq![r1@, r2@] })),
{
    let d = CategoryDef::Composite { references: vec![r1.to_owned(), r2.to_owned()] };
    proof {
        assert(refs_of(d@) =~= seq![r1@, r2@]);
        assert(d@ == (DefView::Composite { references: seq![r1@, r2@] }));
    }
    let r = b.register(name, d);
    proof {
        if r is Err {
            assert(false);
        }
    }
}

/// Register a composite category of three references.
fn register_comp3(b: &mut RegistryBuilder, name: &str, r1: &str, r2: &str, r3: &str)
    requires
        old(b).inv(),
        !contains_name(old(b)@, name@),
    ensures
        final(b).inv(),
        final(b)@ == old(b)@.push(
            (name@, DefView::Composite { references: seq![r1@, r2@, r3@] }),
        ),
{
    let d = CategoryDef::Composite {
        references: vec![r1.to_owned(), r2.to_owned(), r3.to_owned()],
    };
    proof {
        assert(refs_of(d@) =~= seq![r1@, r2@, r3@]);
        assert(d@ == (DefView::Composite { references: seq![r1@, r2@, r3@] }));
    }
    let r = b.register(name, d);
    proof {
        if r is Err {
            assert(false);
        }
    }
}

/// Register a composite category of four references.
fn register_comp4(b: &mut RegistryBuilder, name: &str, r1: &str, r2: &str, r3: &str, r4: &str)
    requires
        old(b).inv(),
        !contains_name(old(b)@, name@),
    ensures
        final(b).inv(),
        final(b)@ == old(b)@.push(
            (name@, DefView::Composite { references: seq![r1@, r2@, r3@, r4@] }),
        ),
{
    let d = CategoryDef::Composite {
        references: vec![r1.to_owned(), r2.to_owned(), r3.to_owned(), r4.to_owned()],
    };
    proof {
        assert(refs_of(d@) =~= seq![r1@, r2@, r3@, r4@]);
        assert(d@ == (DefView::Composite { references: seq![r1@, r2@, r3@, r4@] }));
    }
    let r = b.register(name, d);
    proof {
        if r is Err {
            assert(false);
        }
    }
}

/// Facts about the seed table's literals: the names are pairwise
/// distinct and the extensions are already lowercase.
proof fn lemma_table_literals()
    ensures
        lower_seq("jpg"@) == "jpg"@,
        lower_seq("jpeg"@) == "jpeg"@,
        lower_seq("png"@) == "png"@,
        lower_seq("gif"@) == "gif"@,
        lower_seq("mp4"@) == "mp4"@,
        lower_seq("flac"@) == "flac"@,
        lower_seq("mp3"@) == "mp3"@,
        lower_seq("webp"@) == "webp"@,
        lower_seq("webm"@) == "webm"@,
        "jpg"@ != "jpeg"@,
        "jpg"@ != "png"@,
        "jpg"@ != "gif"@,
        "jpg"@ != "mp4"@,
        "jpg"@ != "flac"@,
        "jpg"@ != "mp3"@,
        "jpg"@ != "webp"@,
        "jpg"@ != "webm"@,
        "jpg"@ != "images"@,
        "jpg"@ != "videos"@,
        "jpg"@ != "animations"@,
        "jpg"@ != "audio"@,
        "jpg"@ != "v8"@,
        "jpg"@ != "media"@,
        "png"@ != "gif"@,
        "png"@ != "mp4"@,
        "png"@ != "flac"@,
        "png"@ != "mp3"@,
        "png"@ != "webp"@,
        "png"@ != "webm"@,
        "png"@ != "images"@,
        "png"@ != "videos"@,
        "png"@ != "animations"@,
        "png"@ != "audio"@,
        "png"@ != "v8"@,
        "png"@ != "media"@,
        "gif"@ != "mp4"@,
        "gif"@ != "flac"@,
        "gif"@ != "mp3"@,
        "gif"@ != "webp"@,
        "gif"@ != "webm"@,
        "gif"@ != "images"@,
        "gif"@ != "videos"@,
        "gif"@ != "animations"@,
        "gif"@ != "audio"@,
        "gif"@ != "v8"@,
        "gif"@ != "media"@,
        "mp4"@ != "flac"@,
        "mp4"@ != "mp3"@,
        "mp4"@ != "webp"@,
        "mp4"@ != "webm"@,
        "mp4"@ != "images"@,
        "mp4"@ != "videos"@,
        "mp4"@ != "animations"@,
        "mp4"@ != "audio"@,
        "mp4"@ != "v8"@,
        "mp4"@ != "media"@,
        "flac"@ != "mp3"@,
        "flac"@ != "webp"@,
        "flac"@ != "webm"@,
        "flac"@ != "images"@,
        "flac"@ != "videos"@,
        "flac"@ != "animations"@,
        "flac"@ != "audio"@,
        "flac"@ != "v8"@,
        "flac"@ != "media"@,
        "mp3"@ != "webp"@,
        "mp3"@ != "webm"@,
        "mp3"@ != "images"@,
        "mp3"@ != "videos"@,
        "mp3"@ != "animations"@,
        "mp3"@ != "audio"@,
        "mp3"@ != "v8"@,
        "mp3"@ != "media"@,
        "webp"@ != "webm"@,
        "webp"@ != "images"@,
        "webp"@ != "videos"@,
        "webp"@ != "animations"@,
        "webp"@ != "audio"@,
        "webp"@ != "v8"@,
        "webp"@ != "media"@,
        "webm"@ != "images"@,
        "webm"@ != "videos"@,
        "webm"@ != "animations"@,
        "webm"@ != "audio"@,
        "webm"@ != "v8"@,
        "webm"@ != "media"@,
        "images"@ != "videos"@,
        "images"@ != "animations"@,
        "images"@ != "audio"@,
        "images"@ != "v8"@,
        "images"@ != "media"@,
        "videos"@ != "animations"@,
        "videos"@ != "audio"@,
        "videos"@ != "v8"@,
        "videos"@ != "media"@,
        "animations"@ != "audio"@,
        "animations"@ != "v8"@,
        "animations"@ != "media"@,
        "audio"@ != "v8"@,
        "audio"@ != "media"@,
        "v8"@ != "media"@,
{
    reveal_strlit("animations");
    reveal_strlit("audio");
    reveal_strlit("flac");
    reveal_strlit("gif");
    reveal_strlit("images");
    reveal_strlit("jpeg");
    reveal_strlit("jpg");
    reveal_strlit("media");
    reveal_strlit("mp3");
    reveal_strlit("mp4");
    reveal_strlit("png");
    reveal_strlit("v8");
    reveal_strlit("videos");
    reveal_strlit("webm");
    reveal_strlit("webp");
    assert(lower_seq("jpg"@) =~= "jpg"@);
    assert(lower_seq("jpeg"@) =~= "jpeg"@);
    assert(lower_seq("png"@) =~= "png"@);
    assert(lower_seq("gif"@) =~= "gif"@);
    assert(lower_seq("mp4"@) =~= "mp4"@);
    assert(lower_seq("flac"@) =~= "flac"@);
    assert(lower_seq("mp3"@) =~= "mp3"@);
    assert(lower_seq("webp"@) =~= "webp"@);
    assert(lower_seq("webm"@) =~= "webm"@);
    assert("jpg"@ != "jpeg"@) by {
        assert("jpg"@[2] != "jpeg"@[2]);
    }
    assert("jpg"@ != "png"@) by {
        assert("jpg"@[0] != "png"@[0]);
    }
    assert("jpg"@ != "gif"@) by {
        assert("jpg"@[0] != "gif"@[0]);
    }
    assert("jpg"@ != "mp4"@) by {
        assert("jpg"@[0] != "mp4"@[0]);
    }
    assert("jpg"@ != "flac"@) by {
        assert("jpg"@[0] != "flac"@[0]);
    }
    assert("jpg"@ != "mp3"@) by {
        assert("jpg"@[0] != "mp3"@[0]);
    }
    assert("jpg"@ != "webp"@) by {
        assert("jpg"@[0] != "webp"@[0]);
    }
    assert("jpg"@ != "webm"@) by {
        assert("jpg"@[0] != "webm"@[0]);
    }
    assert("jpg"@ != "images"@) by {
        assert("jpg"@[0] != "images"@[0]);
    }
    assert("jpg"@ != "videos"@) by {
        assert("jpg"@[0] != "videos"@[0]);
    }
    assert("jpg"@ != "animations"@) by {
        assert("jpg"@[0] != "animations"@[0]);
    }
    assert("jpg"@ != "audio"@) by {
        assert("jpg"@[0] != "audio"@[0]);
    }
    assert("jpg"@ != "v8"@) by {
        assert("jpg"@[0] != "v8"@[0]);
    }
    assert("jpg"@ != "media"@) by {
        assert("jpg"@[0] != "media"@[0]);
    }
    assert("png"@ != "gif"@) by {
        assert("png"@[0] != "gif"@[0]);
    }
    assert("png"@ != "mp4"@) by {
        assert("png"@[0] != "mp4"@[0]);
    }
    assert("png"@ != "flac"@) by {
        assert("png"@[0] != "flac"@[0]);
    }
    assert("png"@ != "mp3"@) by {
        assert("png"@[0] != "mp3"@[0]);
    }
    assert("png"@ != "webp"@) by {
        assert("png"@[0] != "webp"@[0]);
    }
    assert("png"@ != "webm"@) by {
        assert("png"@[0] != "webm"@[0]);
    }
    assert("png"@ != "images"@) by {
        assert("png"@[0] != "images"@[0]);
    }
    assert("png"@ != "videos"@) by {
        assert("png"@[0] != "videos"@[0]);
    }
    assert("png"@ != "animations"@) by {
        assert("png"@[0] != "animations"@[0]);
    }
    assert("png"@ != "audio"@) by {
        assert("png"@[0] != "audio"@[0]);
    }
    assert("png"@ != "v8"@) by {
        assert("png"@[0] != "v8"@[0]);
    }
    assert("png"@ != "media"@) by {
        assert("png"@[0] != "media"@[0]);
    }
    assert("gif"@ != "mp4"@) by {
        assert("gif"@[0] != "mp4"@[0]);
    }
    assert("gif"@ != "flac"@) by {
        assert("gif"@[0] != "flac"@[0]);
    }
    assert("gif"@ != "mp3"@) by {
        assert("gif"@[0] != "mp3"@[0]);
    }
    assert("gif"@ != "webp"@) by {
        assert("gif"@[0] != "webp"@[0]);
    }
    assert("gif"@ != "webm"@) by {
        assert("gif"@[0] != "webm"@[0]);
    }
    assert("gif"@ != "images"@) by {
        assert("gif"@[0] != "images"@[0]);
    }
    assert("gif"@ != "videos"@) by {
        assert("gif"@[0] != "videos"@[0]);
    }
    assert("gif"@ != "animations"@) by {
        assert("gif"@[0] != "animations"@[0]);
    }
    assert("gif"@ != "audio"@) by {
        assert("gif"@[0] != "audio"@[0]);
    }
    assert("gif"@ != "v8"@) by {
        assert("gif"@[0] != "v8"@[0]);
    }
    assert("gif"@ != "media"@) by {
        assert("gif"@[0] != "media"@[0]);
    }
    assert("mp4"@ != "flac"@) by {
        assert("mp4"@[0] != "flac"@[0]);
    }
    assert("mp4"@ != "mp3"@) by {
        assert("mp4"@[2] != "mp3"@[2]);
    }
    assert("mp4"@ != "webp"@) by {
        assert("mp4"@[0] != "webp"@[0]);
    }
    assert("mp4"@ != "webm"@) by {
        assert("mp4"@[0] != "webm"@[0]);
    }
    assert("mp4"@ != "images"@) by {
        assert("mp4"@[0] != "images"@[0]);
    }
    assert("mp4"@ != "videos"@) by {
        assert("mp4"@[0] != "videos"@[0]);
    }
    assert("mp4"@ != "animations"@) by {
        assert("mp4"@[0] != "animations"@[0]);
    }
    assert("mp4"@ != "audio"@) by {
        assert("mp4"@[0] != "audio"@[0]);
    }
    assert("mp4"@ != "v8"@) by {
        assert("mp4"@[0] != "v8"@[0]);
    }
    assert("mp4"@ != "media"@) by {
        assert("mp4"@[1] != "media"@[1]);
    }
    assert("flac"@ != "mp3"@) by {
        assert("flac"@[0] != "mp3"@[0]);
    }
    assert("flac"@ != "webp"@) by {
        assert("flac"@[0] != "webp"@[0]);
    }
    assert("flac"@ != "webm"@) by {
        assert("flac"@[0] != "webm"@[0]);
    }
    assert("flac"@ != "images"@) by {
        assert("flac"@[0] != "images"@[0]);
    }
    assert("flac"@ != "videos"@) by {
        assert("flac"@[0] != "videos"@[0]);
    }
    assert("flac"@ != "animations"@) by {
        assert("flac"@[0] != "animations"@[0]);
    }
    assert("flac"@ != "audio"@) by {
        assert("flac"@[0] != "audio"@[0]);
    }
    assert("flac"@ != "v8"@) by {
        assert("flac"@[0] != "v8"@[0]);
    }
    assert("flac"@ != "media"@) by {
        assert("flac"@[0] != "media"@[0]);
    }
    assert("mp3"@ != "webp"@) by {
        assert("mp3"@[0] != "webp"@[0]);
    }
    assert("mp3"@ != "webm"@) by {
        assert("mp3"@[0] != "webm"@[0]);
    }
    assert("mp3"@ != "images"@) by {
        assert("mp3"@[0] != "images"@[0]);
    }
    assert("mp3"@ != "videos"@) by {
        assert("mp3"@[0] != "videos"@[0]);
    }
    assert("mp3"@ != "animations"@) by {
        assert("mp3"@[0] != "animations"@[0]);
    }
    assert("mp3"@ != "audio"@) by {
        assert("mp3"@[0] != "audio"@[0]);
    }
    assert("mp3"@ != "v8"@) by {
        assert("mp3"@[0] != "v8"@[0]);
    }
    assert("mp3"@ != "media"@) by {
        assert("mp3"@[1] != "media"@[1]);
    }
    assert("webp"@ != "webm"@) by {
        assert("webp"@[3] != "webm"@[3]);
    }
    assert("webp"@ != "images"@) by {
        assert("webp"@[0] != "images"@[0]);
    }
    assert("webp"@ != "videos"@) by {
        assert("webp"@[0] != "videos"@[0]);
    }
    assert("webp"@ != "animations"@) by {
        assert("webp"@[0] != "animations"@[0]);
    }
    assert("webp"@ != "audio"@) by {
        assert("webp"@[0] != "audio"@[0]);
    }
    assert("webp"@ != "v8"@) by {
        assert("webp"@[0] != "v8"@[0]);
    }
    assert("webp"@ != "media"@) by {
        assert("webp"@[0] != "media"@[0]);
    }
    assert("webm"@ != "images"@) by {
        assert("webm"@[0] != "images"@[0]);
    }
    assert("webm"@ != "videos"@) by {
        assert("webm"@[0] != "videos"@[0]);
    }
    assert("webm"@ != "animations"@) by {
        assert("webm"@[0] != "animations"@[0]);
    }
    assert("webm"@ != "audio"@) by {
        assert("webm"@[0] != "audio"@[0]);
    }
    assert("webm"@ != "v8"@) by {
        assert("webm"@[0] != "v8"@[0]);
    }
    assert("webm"@ != "media"@) by {
        assert("webm"@[0] != "media"@[0]);
    }
    assert("images"@ != "videos"@) by {
        assert("images"@[0] != "videos"@[0]);
    }
    assert("images"@ != "animations"@) by {
        assert("images"@[0] != "animations"@[0]);
    }
    assert("images"@ != "audio"@) by {
        assert("images"@[0] != "audio"@[0]);
    }
    assert("images"@ != "v8"@) by {
        assert("images"@[0] != "v8"@[0]);
    }
    assert("images"@ != "media"@) by {
        assert("images"@[0] != "media"@[0]);
    }
    assert("videos"@ != "animations"@) by {
        assert("videos"@[0] != "animations"@[0]);
    }
    assert("videos"@ != "audio"@) by {
        assert("videos"@[0] != "audio"@[0]);
    }
    assert("videos"@ != "v8"@) by {
        assert("videos"@[1] != "v8"@[1]);
    }
    assert("videos"@ != "media"@) by {
        assert("videos"@[0] != "media"@[0]);
    }
    assert("animations"@ != "audio"@) by {
        assert("animations"@[1] != "audio"@[1]);
    }
    assert("animations"@ != "v8"@) by {
        assert("animations"@[0] != "v8"@[0]);
    }
    assert("animations"@ != "media"@) by {
        assert("animations"@[0] != "media"@[0]);
    }
    assert("audio"@ != "v8"@) by {
        assert("audio"@[0] != "v8"@[0]);
    }
    assert("audio"@ != "media"@) by {
        assert("audio"@[0] != "media"@[0]);
    }
    assert("v8"@ != "media"@) by {
        assert("v8"@[0] != "media"@[0]);
    }
}

/// The seed table: primitive extension groups, then the composite groups
/// over them. This table is the single source of truth for category
/// semantics; adding a category means adding a row here.
pub open spec fn default_table() -> RegView {
    seq![
        ("jpg"@, DefView::Primitive { extensions: seq!["jpg"@, "jpeg"@] }),
        ("png"@, DefView::Primitive { extensions: seq!["png"@] }),
        ("gif"@, DefView::Primitive { extensions: seq!["gif"@] }),
        ("mp4"@, DefView::Primitive { extensions: seq!["mp4"@] }),
        ("flac"@, DefView::Primitive { extensions: seq!["flac"@] }),
        ("mp3"@, DefView::Primitive { extensions: seq!["mp3"@] }),
        ("webp"@, DefView::Primitive { extensions: seq!["webp"@] }),
        ("webm"@, DefView::Primitive { extensions: seq!["webm"@] }),
        ("images"@, DefView::Composite { references: seq!["jpg"@, "png"@, "gif"@, "webp"@] }),
        ("videos"@, DefView::Composite { references: seq!["mp4"@, "webm"@] }),
        ("animations"@, DefView::Composite { references: seq!["mp4"@, "webm"@, "gif"@] }),
        ("audio"@, DefView::Composite { references: seq!["mp3"@] }),
        ("v8"@, DefView::Composite { references: seq!["webp"@, "webm"@] }),
        ("media"@, DefView::Composite { references: seq!["images"@, "videos"@, "audio"@] }),
    ]
}

/// The builder seeded with the default media category table.
#[verifier::rlimit(100)]
pub fn default_type_builder() -> (r: RegistryBuilder)
    ensures
        r.inv(),
        r@ == default_table(),
{
    proof {
        lemma_table_literals();
    }
    let mut b = RegistryBuilder::new();
    register_prim2(&mut b, "jpg", "jpg", "jpeg");
    register_prim1(&mut b, "png", "png");
    register_prim1(&mut b, "gif", "gif");
    register_prim1(&mut b, "mp4", "mp4");
    register_prim1(&mut b, "flac", "flac");
    register_prim1(&mut b, "mp3", "mp3");
    register_prim1(&mut b, "webp", "webp");
    register_prim1(&mut b, "webm", "webm");
    register_comp4(&mut b, "images", "jpg", "png", "gif", "webp");
    register_comp2(&mut b, "videos", "mp4", "webm");
    register_comp3(&mut b, "animations", "mp4", "webm", "gif");
    register_comp1(&mut b, "audio", "mp3");
    register_comp2(&mut b, "v8", "webp", "webm");
    register_comp3(&mut b, "media", "images", "videos", "audio");
    proof {
        assert(b@ =~= default_table());
    }
    b
}

} // verus!
