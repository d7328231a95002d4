//! Discriminants of data variants: the value each variant's tag expression
//! evaluates to, and which variants repeat an earlier discriminant.
use vstd::prelude::*;

use crate::const_eval::{ComptimeValue, ConstEnv, ConstEvalError, eval_const, eval_value};
use crate::diag::SemaDiagKind;
use crate::expr::ExprId;
use crate::subject::{expr_subject, expr_subject_text};
use std::collections::HashSet;

verus! {

/// A diagnostic about a variant's discriminant expression.
#[derive(Debug, Clone, PartialEq, Eq)]
pub struct DiscriminantIssue {
    pub kind: SemaDiagKind,
    /// The discriminant expression.
    pub at: ExprId,
    /// How the diagnostic names the discriminant, when it names it.
    pub discriminant: Option<String>,
}

/// Whether `issue` reports expression `e` as an invalid discriminant, naming it
/// `subject`.
pub open spec fn is_invalid_issue(issue: Option<DiscriminantIssue>, e: ExprId, subject: Seq<char>) -> bool {
    match issue {
        Some(i) => i.kind == SemaDiagKind::InvalidDataVariantDiscriminant && i.at == e && match i.discriminant {
            Some(d) => d@ == subject,
            None => false,
        },
        None => false,
    }
}

/// Records `tag` as seen; whether it was not seen before.
pub fn record_data_variant_tag(seen: &mut HashSet<i64>, tag: i64) -> (fresh: bool)
    ensures
        final(seen)@ == old(seen)@.insert(tag),
        fresh == !old(seen)@.contains(tag),
{
    broadcast use vstd::std_specs::hash::group_hash_axioms;

    seen.insert(tag)
}

/// The discriminant of a variant: the constant integer value of its tag
/// expression, or `implicit` when it has none. A tag expression that is not a
/// constant integer is reported as invalid, one whose value depends on itself
/// as cyclic; the discriminant is then `implicit`.
pub fn data_variant_tag(env: &ConstEnv, expr: Option<ExprId>, implicit: i64) -> (r: (
    i64,
    Option<DiscriminantIssue>,
))
    requires
        env.root.0 < env.exprs.kinds().len(),
        expr matches Some(e) ==> e.0 < env.exprs.kinds().len(),
    ensures
        match expr {
            None => r.0 == implicit && r.1 is None,
            Some(e) => match eval_value(env.ctx(), Set::empty(), e) {
                Ok(ComptimeValue::Int(v)) => r.0 == v && r.1 is None,
                Err(ConstEvalError::Cycle) => r.0 == implicit && r.1 == Some(
                    DiscriminantIssue {
                        kind: SemaDiagKind::CyclicDataVariantDiscriminant,
                        at: e,
                        discriminant: None,
                    },
                ),
                _ => r.0 == implicit && is_invalid_issue(
                    r.1,
                    e,
                    expr_subject_text(env.ctx().names, env.ctx().exprs[e.0 as int]),
                ),
            },
        },
{
    let e = match expr {
        None => return (implicit, None),
        Some(e) => e,
    };
    match eval_const(env, e) {
        Ok(ComptimeValue::Int(v)) => (v, None),
        Err(ConstEvalError::Cycle) => (
            implicit,
            Some(
                DiscriminantIssue {
                    kind: SemaDiagKind::CyclicDataVariantDiscriminant,
                    at: e,
                    discriminant: None,
                },
            ),
        ),
        _ => {
            let subject = expr_subject(env.exprs, env.names, e);
            (
                implicit,
                Some(
                    DiscriminantIssue {
                        kind: SemaDiagKind::InvalidDataVariantDiscriminant,
                        at: e,
                        discriminant: Some(subject),
                    },
                ),
            )
        },
    }
}

/// Whether `tags[i]` also occurs before position `i`.
pub open spec fn repeats_earlier(tags: Seq<i64>, i: int) -> bool {
    exists|j: int| 0 <= j < i && tags[j] == tags[i]
}

/// The positions, in order, of the variants whose discriminant repeats an
/// earlier variant's; each of them is reported as a duplicate discriminant.
pub fn duplicate_tag_positions(tags: &Vec<i64>) -> (dups: Vec<usize>)
    ensures
        forall|k: int| 0 <= k < dups.len() ==> (#[trigger] dups[k]) < tags.len() && repeats_earlier(
            tags@,
            dups[k] as int,
        ),
        forall|k1: int, k2: int| 0 <= k1 < k2 < dups.len() ==> dups[k1] < dups[k2],
        forall|i: int|
            0 <= i < tags.len() && #[trigger] repeats_earlier(tags@, i) ==> exists|k: int|
                0 <= k < dups.len() && dups[k] == i,
{
    let mut seen: HashSet<i64> = HashSet::new();
    let mut dups: Vec<usize> = Vec::new();
    let mut i: usize = 0;
    while i < tags.len()
        invariant
            i <= tags.len(),
            forall|t: i64| #[trigger] seen@.contains(t) <==> exists|j: int| 0 <= j < i && tags@[j] == t,
            forall|k: int| 0 <= k < dups.len() ==> (#[trigger] dups[k]) < i && repeats_earlier(
                tags@,
                dups[k] as int,
            ),
            forall|k1: int, k2: int| 0 <= k1 < k2 < dups.len() ==> dups[k1] < dups[k2],
            forall|p: int|
                0 <= p < i && #[trigger] repeats_earlier(tags@, p) ==> exists|k: int|
                    0 <= k < dups.len() && dups[k] == p,
        decreases tags.len() - i,
    {
        let tag = tags[i];
        let ghost old_dups = dups@;
        let fresh = record_data_variant_tag(&mut seen, tag);
        if !fresh {
            let ghost j = choose|j: int| 0 <= j < i && tags@[j] == tag;
            assert(repeats_earlier(tags@, i as int));
            dups.push(i);
            assert(dups[dups.len() - 1] == i);
        } else {
            assert(!repeats_earlier(tags@, i as int));
        }
        assert forall|p: int|
            0 <= p < i + 1 && #[trigger] repeats_earlier(tags@, p) implies exists|k: int|
                0 <= k < dups.len() && dups[k] == p by {
            if p < i {
                let k = choose|k: int| 0 <= k < old_dups.len() && old_dups[k] == p;
                assert(dups@[k] == old_dups[k]);
            } else {
                assert(dups[dups.len() - 1] == p);
            }
        }
        assert forall|t: i64| #[trigger] seen@.contains(t) <==> exists|j: int|
            0 <= j < i + 1 && tags@[j] == t by {
            if t == tag {
                assert(tags@[i as int] == t);
            }
            if exists|j: int| 0 <= j < i + 1 && tags@[j] == t {
                let j = choose|j: int| 0 <= j < i + 1 && tags@[j] == t;
                if j < i {
                    assert(exists|j: int| 0 <= j < i && tags@[j] == t);
                }
            }
        }
        i = i + 1;
    }
    dups
}

} // verus!
