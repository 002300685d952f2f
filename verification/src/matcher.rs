//! Filter compilation: a requested category name (or none, meaning "all")
//! becomes a concrete matcher over file extensions.

use crate::registry::category_closure;
use crate::registry::contains_name;
use crate::registry::strs_set;
use crate::registry::strs_view;
use crate::registry::RegView;
use crate::registry::Registry;
use crate::text::lower_seq;
use crate::text::str_eq;
use crate::text::to_ascii_lower;
use vstd::prelude::*;

verus! {

/// What a matcher means: accept everything, or accept a fixed set of
/// lowercase extension tokens.
#[verifier::ext_equal]
pub struct MatcherView {
    pub all: bool,
    pub exts: Set<Seq<char>>,
}

/// A compiled matcher: either the match-everything matcher or the closed
/// extension set of one category.
pub struct CompiledMatcher {
    all: bool,
    extensions: Vec<String>,
}

impl View for CompiledMatcher {
    type V = MatcherView;

    closed spec fn view(&self) -> MatcherView {
        MatcherView { all: self.all, exts: strs_set(self.extensions@) }
    }
}

/// Whether a matcher accepts an extension token; comparison is
/// case-insensitive through ASCII lowercasing.
pub open spec fn accepts_spec(m: MatcherView, ext: Seq<char>) -> bool {
    m.all || m.exts.contains(lower_seq(ext))
}

/// The view of a requested category name.
pub open spec fn opt_str_view(name: Option<&str>) -> Option<Seq<char>> {
    match name {
        Some(n) => Some(n@),
        None => None,
    }
}

/// The matcher that compilation yields: everything for no request, the
/// category's transitive extension closure otherwise.
pub open spec fn compile_spec(s: RegView, name: Option<Seq<char>>) -> MatcherView {
    match name {
        None => MatcherView { all: true, exts: Set::empty() },
        Some(n) => MatcherView { all: false, exts: category_closure(s, n) },
    }
}

/// Errors from filter compilation.
#[derive(Clone, Copy, Debug, PartialEq, Eq, Structural)]
pub enum FilterError {
    /// The requested name is not in the registry.
    UnknownCategory,
}

impl CompiledMatcher {
    /// The matcher that accepts every extension, including none at all.
    pub fn match_all() -> (r: Self)
        ensures
            r@ == (MatcherView { all: true, exts: Set::<Seq<char>>::empty() }),
    {
        let r = CompiledMatcher { all: true, extensions: Vec::new() };
        proof {
            assert(strs_view(r.extensions@) =~= Seq::<Seq<char>>::empty());
            assert(strs_set(r.extensions@) =~= Set::<Seq<char>>::empty());
        }
        r
    }

    /// Case-insensitive membership of one extension token.
    pub fn accepts(&self, ext: &str) -> (r: bool)
        ensures
            r == accepts_spec(self@, ext@),
    {
        if self.all {
            return true;
        }
        let low = to_ascii_lower(ext);
        let mut i: usize = 0;
        while i < self.extensions.len()
            invariant
                i <= self.extensions@.len(),
                low@ == lower_seq(ext@),
                forall|t: int| 0 <= t < i ==> #[trigger] self.extensions@[t]@ != low@,
            decreases self.extensions@.len() - i,
        {
            if str_eq(self.extensions[i].as_str(), low.as_str()) {
                proof {
                    assert(strs_view(self.extensions@)[i as int] == low@);
                    assert(self@.exts.contains(lower_seq(ext@)));
                }
                return true;
            }
            i += 1;
        }
        proof {
            assert forall|t: int| 0 <= t < strs_view(self.extensions@).len() implies strs_view(
                self.extensions@,
            )[t] != low@ by {
                assert(self.extensions@[t]@ != low@);
            }
            assert(!self@.exts.contains(lower_seq(ext@)));
        }
        false
    }
}

/// Compile a requested category name into a matcher.
///
/// No name compiles to the match-everything matcher; a known name to its
/// closure; an unknown name fails, and nothing else does.
pub fn compile(reg: &Registry, name: Option<&str>) -> (r: Result<CompiledMatcher, FilterError>)
    requires
        reg.wf(),
    ensures
        match r {
            Ok(m) => m@ == compile_spec(reg@, opt_str_view(name)) && (match name {
                Some(n) => contains_name(reg@, n@),
                None => true,
            }),
            Err(e) => e == FilterError::UnknownCategory && (match name {
                Some(n) => !contains_name(reg@, n@),
                None => false,
            }),
        },
{
    match name {
        None => Ok(CompiledMatcher::match_all()),
        Some(n) => {
            if !reg.contains(n) {
                return Err(FilterError::UnknownCategory);
            }
            let exts = reg.closure_of(n);
            let m = CompiledMatcher { all: false, extensions: exts };
            proof {
                assert(m@ == compile_spec(reg@, Some(n@)));
            }
            Ok(m)
        },
    }
}

/// The set of the lowercased views of the given extension strings.
pub open spec fn lowered_set(v: Seq<String>) -> Set<Seq<char>> {
    strs_view(v).map_values(|e: Seq<char>| lower_seq(e)).to_set()
}

/// The matcher over an explicit extension list, lowercased.
pub fn matcher_from_extensions(exts: &Vec<String>) -> (r: CompiledMatcher)
    ensures
        r@ == (MatcherView { all: false, exts: lowered_set(exts@) }),
{
    let mut low: Vec<String> = Vec::new();
    let mut i: usize = 0;
    while i < exts.len()
        invariant
            i <= exts@.len(),
            low@.len() == i,
            forall|t: int| 0 <= t < i ==> #[trigger] low@[t]@ == lower_seq(exts@[t]@),
        decreases exts@.len() - i,
    {
        let l = to_ascii_lower(exts[i].as_str());
        low.push(l);
        i += 1;
    }
    let r = CompiledMatcher { all: false, extensions: low };
    proof {
        assert(strs_view(r.extensions@) =~= strs_view(exts@).map_values(
            |e: Seq<char>| lower_seq(e),
        ));
        assert(strs_set(r.extensions@) == strs_view(exts@).map_values(
            |e: Seq<char>| lower_seq(e),
        ).to_set());
        assert(r@ =~= (MatcherView { all: false, exts: lowered_set(exts@) }));
    }
    r
}

/// Transitivity of acceptance: whatever the matcher of a referenced
/// category accepts, the matcher of the composite referencing it accepts
/// too.
pub proof fn lemma_accepts_transitive(
    s: RegView,
    parent: Seq<char>,
    child: Seq<char>,
    mp: MatcherView,
    mc: MatcherView,
    e: Seq<char>,
)
    requires
        crate::registry::acyclic(s),
        contains_name(s, parent),
        crate::registry::refs_of(
            crate::registry::def_at(s, crate::registry::index_of_name(s, parent)),
        ).contains(child),
        mp == compile_spec(s, Some(parent)),
        mc == compile_spec(s, Some(child)),
        accepts_spec(mc, e),
    ensures
        accepts_spec(mp, e),
{
    crate::registry::lemma_composite_closure_includes_ref(s, parent, child);
}

/// Compiling the same request against the same registry twice yields
/// matchers with identical accepting behavior, whatever the inputs.
pub proof fn lemma_compile_deterministic(
    s: RegView,
    name: Option<Seq<char>>,
    m1: MatcherView,
    m2: MatcherView,
)
    requires
        m1 == compile_spec(s, name),
        m2 == compile_spec(s, name),
    ensures
        forall|e: Seq<char>| accepts_spec(m1, e) == accepts_spec(m2, e),
{
}

} // verus!
