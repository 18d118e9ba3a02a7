//! The session front end: a parse cache keyed on the raw, unnormalized script
//! text, and the decision of what the host must do with a script — return
//! zero for empty input, convert a short numeric literal directly, or walk a
//! compiled tree. Every cached tree is the compilation of its key.
use vstd::prelude::*;

use crate::ast::Expression;
use crate::ast::SpecExpr;
use crate::parser::is_number_spec;
use crate::parser::is_string_number;
use crate::parser::parse_spec;
use crate::parser::parse_string_slice;
use crate::parser::strip_f;
use crate::parser::strip_f_spec;
use crate::parser::zero_text;
use crate::text::copy_text;
use crate::text::normalize;
use crate::text::normalize_spec;
use crate::text::text_eq;

verus! {

/// Compiles a raw script: every space removed and every ASCII letter
/// lower-cased, then parsed by the precedence ladder.
pub fn create_expression_tree(raw: &Vec<char>) -> (r: Expression)
    ensures
        r@ == parse_spec(normalize_spec(raw@)),
{
    let normalized = normalize(raw);
    parse_string_slice(&normalized)
}

/// What the host must do with a raw script.
pub enum ScriptOutcome {
    /// The result is this numeric literal's value; no tree was built.
    Literal(Vec<char>),
    /// The result is the value of this tree against the live environment.
    Evaluate(Expression),
}

/// The model of a script outcome.
pub enum SpecOutcome {
    Lit(Seq<char>),
    Tree(SpecExpr),
}

impl View for ScriptOutcome {
    type V = SpecOutcome;

    open spec fn view(&self) -> SpecOutcome {
        match self {
            ScriptOutcome::Literal(t) => SpecOutcome::Lit(t@),
            ScriptOutcome::Evaluate(e) => SpecOutcome::Tree(e@),
        }
    }
}

/// What a raw script prepares to: empty input is the zero literal; a short
/// pure numeric literal is converted directly, its unit marker removed, and
/// no tree is built; everything else is normalized and compiled.
pub open spec fn prepare_spec(raw: Seq<char>) -> SpecOutcome {
    if raw.len() == 0 {
        SpecOutcome::Lit(zero_text())
    } else if raw.len() < 9 && is_number_spec(raw) {
        SpecOutcome::Lit(strip_f_spec(raw))
    } else {
        SpecOutcome::Tree(parse_spec(normalize_spec(raw)))
    }
}

/// The parse cache of a session: raw script text mapped to its compiled
/// tree. Entries are created lazily and never evicted.
pub struct ParseCache {
    entries: Vec<(Vec<char>, Expression)>,
}

impl ParseCache {
    /// Every cached tree is the compilation of its raw key, and no key
    /// occurs twice.
    pub closed spec fn wf(&self) -> bool {
        &&& forall|k: int|
            0 <= k < self.entries@.len() ==> (#[trigger] self.entries@[k]).1@ == parse_spec(
                normalize_spec(self.entries@[k].0@),
            )
        &&& forall|j: int, k: int|
            0 <= j < k < self.entries@.len() ==> (#[trigger] self.entries@[j]).0@ != (
            #[trigger] self.entries@[k]).0@
    }

    /// The raw keys cached so far.
    pub closed spec fn keys(&self) -> Seq<Seq<char>> {
        self.entries@.map_values(|p: (Vec<char>, Expression)| p.0@)
    }

    /// An empty cache.
    pub fn new() -> (c: Self)
        ensures
            c.wf(),
            c.keys().len() == 0,
    {
        ParseCache { entries: Vec::new() }
    }

    /// How many scripts have been cached.
    pub fn stored(&self) -> (n: usize)
        ensures
            n == self.keys().len(),
    {
        self.entries.len()
    }

    /// Whether a raw script has a cache entry.
    pub fn knows(&self, raw: &Vec<char>) -> (r: bool)
        ensures
            r == self.keys().contains(raw@),
    {
        let mut i: usize = 0;
        while i < self.entries.len()
            invariant
                i <= self.entries@.len(),
                forall|k: int| 0 <= k < i ==> (#[trigger] self.entries@[k]).0@ != raw@,
        decreases self.entries@.len() - i,
        {
            if text_eq(&self.entries[i].0, raw) {
                proof {
                    assert(self.keys()[i as int] == raw@);
                }
                return true;
            }
            i += 1;
        }
        proof {
            assert forall|k: int| 0 <= k < self.keys().len() implies self.keys()[k] != raw@ by {
                assert(self.keys()[k] == self.entries@[k].0@);
            }
        }
        false
    }

    /// The tree for a raw script: the cached one on a hit, a fresh
    /// compilation stored under the raw key on a miss. Either way the result
    /// is the compilation of the normalized script.
    pub fn compile_cached(&mut self, raw: &Vec<char>) -> (e: Expression)
        requires
            old(self).wf(),
        ensures
            final(self).wf(),
            e@ == parse_spec(normalize_spec(raw@)),
            final(self).keys().contains(raw@),
            old(self).keys().contains(raw@) ==> final(self).keys() == old(self).keys(),
            forall|k: Seq<char>|
                old(self).keys().contains(k) ==> final(self).keys().contains(k),
    {
        let mut i: usize = 0;
        while i < self.entries.len()
            invariant
                self.wf(),
                i <= self.entries@.len(),
                forall|k: int| 0 <= k < i ==> (#[trigger] self.entries@[k]).0@ != raw@,
            decreases self.entries@.len() - i,
        {
            if text_eq(&self.entries[i].0, raw) {
                let e = self.entries[i].1.duplicate();
                proof {
                    assert(self.keys()[i as int] == raw@);
                }
                return e;
            }
            i += 1;
        }
        let tree = create_expression_tree(raw);
        let result = tree.duplicate();
        let ghost before = self.entries@;
        let key = copy_text(raw);
        self.entries.push((key, tree));
        proof {
            assert forall|k: int|
                0 <= k < self.entries@.len() implies (#[trigger] self.entries@[k]).1@ == parse_spec(
                normalize_spec(self.entries@[k].0@),
            ) by {
                if k < before.len() {
                    assert(self.entries@[k] == before[k]);
                }
            }
            assert(self.keys()[before.len() as int] == raw@);
            assert forall|k: int| 0 <= k < before.len() implies old(self).keys()[k]
                != raw@ by {
                assert(before[k].0@ != raw@);
            }
            assert forall|k: Seq<char>| old(self).keys().contains(k) implies self.keys().contains(
                k,
            ) by {
                let j = choose|j: int| 0 <= j < old(self).keys().len() && old(self).keys()[j] == k;
                assert(self.keys()[j] == before[j].0@);
            }
        }
        result
    }

    /// Prepares a raw script: the fast paths for empty and short numeric
    /// input build no tree and leave the cache alone; otherwise the tree
    /// comes from the cache when it is enabled, and from a fresh compilation
    /// that is not stored when it is not.
    pub fn prepare(&mut self, raw: &Vec<char>, use_cache: bool) -> (r: ScriptOutcome)
        requires
            old(self).wf(),
        ensures
            final(self).wf(),
            r@ == prepare_spec(raw@),
            !use_cache ==> final(self).keys() == old(self).keys(),
            (raw@.len() == 0 || (raw@.len() < 9 && is_number_spec(raw@))) ==> final(self).keys()
                == old(self).keys(),
            forall|k: Seq<char>|
                old(self).keys().contains(k) ==> final(self).keys().contains(k),
    {
        if raw.len() == 0 {
            let mut z: Vec<char> = Vec::new();
            z.push('0');
            proof {
                assert(z@ =~= zero_text());
            }
            return ScriptOutcome::Literal(z);
        }
        if raw.len() < 9 && is_string_number(raw) {
            return ScriptOutcome::Literal(strip_f(raw));
        }
        if !use_cache {
            return ScriptOutcome::Evaluate(create_expression_tree(raw));
        }
        ScriptOutcome::Evaluate(self.compile_cached(raw))
    }
}

} // verus!
