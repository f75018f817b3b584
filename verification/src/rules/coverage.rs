//! What a scan could not evaluate.
//!
//! A deviation is a departure that was seen. A rule that nothing checks says nothing
//! about the container: it remains an unknown, and is reported apart.

use vstd::prelude::*;

use crate::lexicon::Generation;
use crate::rules::{in_scope, rules_for_generation, scoped, Document, RuleInfo, RuleState};
use crate::rules::catalog::catalog;

verus! {

/// Whether a rule is a gap in what a scan covers: nothing checks it, and nothing
/// makes it hold.
pub open spec fn is_gap(rule: RuleInfo) -> bool {
    rule.state == RuleState::NotImplemented || rule.state == RuleState::NotCheckable
}

/// Those of some rules that are gaps.
pub open spec fn gaps(rules: Seq<RuleInfo>) -> Seq<RuleInfo>
    decreases rules.len(),
{
    if rules.len() == 0 {
        Seq::empty()
    } else if is_gap(rules.last()) {
        gaps(rules.drop_last()).push(rules.last())
    } else {
        gaps(rules.drop_last())
    }
}

/// The rules in scope for a container that a scan does not evaluate. Whether a rule
/// has a checker does not depend on the container, so the generation decides.
#[derive(Debug, Clone, Copy, PartialEq, Eq, Structural)]
pub struct Coverage {
    generation: Generation,
}

impl Coverage {
    /// The generation that the coverage is of.
    pub closed spec fn of(self) -> Generation {
        self.generation
    }

    /// The coverage that a scan of a generation achieves.
    pub fn for_generation(generation: Generation) -> (r: Self)
        ensures
            r.of() == generation,
    {
        Coverage { generation }
    }

    /// The generation that the coverage is of.
    pub fn generation(&self) -> (r: Generation)
        ensures
            r == self.of(),
    {
        self.generation
    }

    /// The rules in scope that are not evaluated, in the order of the catalog.
    pub fn unevaluated(&self) -> (r: Vec<RuleInfo>)
        ensures
            r@ == gaps(scoped(catalog(), self.of())),
    {
        let rules = rules_for_generation(self.generation);
        let mut out: Vec<RuleInfo> = Vec::new();
        let mut i: usize = 0;
        proof {
            assert(out@ =~= gaps(rules@.take(0)));
        }
        while i < rules.len()
            invariant
                i <= rules@.len(),
                out@ == gaps(rules@.take(i as int)),
            decreases rules@.len() - i,
        {
            let rule = rules[i];
            proof {
                assert(rules@.take(i + 1).drop_last() =~= rules@.take(i as int));
            }
            if rule.state == RuleState::NotImplemented || rule.state == RuleState::NotCheckable {
                out.push(rule);
            }
            i = i + 1;
        }
        proof {
            assert(rules@.take(i as int) =~= rules@);
        }
        out
    }

    /// Whether a rule that is not evaluated binds. The container is not shown to
    /// conform, which is what a strict caller asks about.
    pub fn has_unevaluated_must(&self) -> (r: bool)
        ensures
            r == exists|i: int|
                0 <= i < gaps(scoped(catalog(), self.of())).len() && (#[trigger] gaps(
                    scoped(catalog(), self.of()),
                )[i]).requirement.binds(),
    {
        let rules = self.unevaluated();
        let ghost all = gaps(scoped(catalog(), self.of()));
        let mut i: usize = 0;
        while i < rules.len()
            invariant
                i <= rules@.len(),
                rules@ == all,
                all == gaps(scoped(catalog(), self.of())),
                forall|k: int| 0 <= k < i ==> !(#[trigger] rules@[k]).requirement.binds(),
            decreases rules@.len() - i,
        {
            if rules[i].requirement.is_binding() {
                proof {
                    assert(all[i as int].requirement.binds());
                }
                return true;
            }
            i = i + 1;
        }
        false
    }

    /// Whether every rule in scope is evaluated.
    pub fn is_complete(&self) -> (r: bool)
        ensures
            r == (gaps(scoped(catalog(), self.of())).len() == 0),
    {
        self.unevaluated().len() == 0
    }
}

/// A scope that lays a document over another's leaves no less unevaluated than the
/// other: every gap of the base is a gap of it.
pub proof fn layers_leave_no_less(rules: Seq<RuleInfo>, base: Generation, layered: Generation)
    requires
        forall|d: Document|
            #[trigger] in_scope(base, d) ==> in_scope(layered, d),
    ensures
        gaps(scoped(rules, base)).len() <= gaps(scoped(rules, layered)).len(),
    decreases rules.len(),
{
    if rules.len() > 0 {
        layers_leave_no_less(rules.drop_last(), base, layered);
        let rule = rules.last();
        let narrow = scoped(rules.drop_last(), base);
        let wide = scoped(rules.drop_last(), layered);
        assert(narrow.push(rule).drop_last() =~= narrow);
        assert(wide.push(rule).drop_last() =~= wide);
        assert(in_scope(base, rule.id.document) ==> in_scope(layered, rule.id.document));
    }
}

/// What is not evaluated has no checker, is not kept by construction and refuses no
/// container.
pub proof fn gaps_are_unknown(rules: Seq<RuleInfo>, i: int)
    requires
        0 <= i < gaps(rules).len(),
    ensures
        is_gap(gaps(rules)[i]),
    decreases rules.len(),
{
    if i < gaps(rules.drop_last()).len() {
        gaps_are_unknown(rules.drop_last(), i);
    }
}

} // verus!
