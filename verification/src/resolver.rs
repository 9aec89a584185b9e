//! Picking the greatest version that meets a requirement among candidates.
use crate::version::{version_satisfies, RequirementView, Version, VersionRequirement};
use crate::version_order::{version_order, VersionOrder};
use vstd::prelude::*;

verus! {

/// Collects candidate values with their versions and keeps the one with the greatest
/// version that meets the requirement.
pub struct Resolver<'requirement, T> {
    requirement: &'requirement VersionRequirement,
    best: Option<(T, Version)>,
}

/// Whether a candidate with version `version` replaces the current best one: it must
/// meet the requirement and, if there is a best one, compare as greater than it.
pub open spec fn replaces_best(
    requirement: RequirementView,
    best: Option<Seq<char>>,
    version: Seq<char>,
) -> bool {
    version_satisfies(version, requirement) && match best {
        None => true,
        Some(best_version) => version_order(version, best_version) == Some(VersionOrder::Greater),
    }
}

/// The best of `candidates` (values with the texts of their versions) after offering
/// them one by one, in order, to a resolver for `requirement`.
pub open spec fn resolve_best<T>(requirement: RequirementView, candidates: Seq<(T, Seq<char>)>) -> Option<
    (T, Seq<char>),
>
    decreases candidates.len(),
{
    if candidates.len() == 0 {
        None
    } else {
        let previous = resolve_best(requirement, candidates.drop_last());
        let (value, version) = candidates.last();
        let previous_version = match previous {
            Some((_, best)) => Some(best),
            None => None,
        };
        if replaces_best(requirement, previous_version, version) {
            Some((value, version))
        } else {
            previous
        }
    }
}

impl<'requirement, T> Resolver<'requirement, T> {
    #[verifier::type_invariant]
    closed spec fn best_meets_requirement(self) -> bool {
        match self.best {
            Some((_, version)) => version_satisfies(version@, self.requirement@),
            None => true,
        }
    }

    /// The requirement that candidates must meet.
    pub closed spec fn requirement_spec(&self) -> RequirementView {
        self.requirement@
    }

    /// The best candidate so far with the text of its version.
    pub closed spec fn best_spec(&self) -> Option<(T, Seq<char>)> {
        match self.best {
            Some((value, version)) => Some((value, version@)),
            None => None,
        }
    }

    /// The version of the best candidate so far.
    pub open spec fn best_version_spec(&self) -> Option<Seq<char>> {
        match self.best_spec() {
            Some((_, version)) => Some(version),
            None => None,
        }
    }

    pub fn from_requirement(requirement: &'requirement VersionRequirement) -> (r: Self)
        ensures
            r.requirement_spec() == requirement@,
            r.best_spec() is None,
    {
        Resolver { requirement, best: None }
    }

    /// Offers `value` with `version` as a candidate.
    pub fn add_option(&mut self, value: T, version: Version)
        ensures
            final(self).requirement_spec() == old(self).requirement_spec(),
            final(self).best_spec() == if replaces_best(
                old(self).requirement_spec(),
                old(self).best_version_spec(),
                version@,
            ) {
                Some((value, version@))
            } else {
                old(self).best_spec()
            },
    {
        proof {
            use_type_invariant(&*self);
        }
        let replace = version.satisfies(self.requirement) && match &self.best {
            None => true,
            Some((_, best_version)) => match version.partial_cmp(best_version) {
                Some(VersionOrder::Greater) => true,
                _ => false,
            },
        };
        if replace {
            self.best = Some((value, version));
        }
    }

    /// The best candidate, if any met the requirement.
    pub fn best(self) -> (r: Option<T>)
        ensures
            r == match self.best_spec() {
                Some((value, _)) => Some(value),
                None => None,
            },
            self.best_spec() matches Some((_, version)) ==> version_satisfies(
                version,
                self.requirement_spec(),
            ),
    {
        proof {
            use_type_invariant(&self);
        }
        match self.best {
            Some((value, _)) => Some(value),
            None => None,
        }
    }
}

/// What the resolver settles on: something exactly when some candidate meets the
/// requirement, and then one of the candidates, which meets the requirement.
pub proof fn lemma_resolve_best_found<T>(
    requirement: RequirementView,
    candidates: Seq<(T, Seq<char>)>,
)
    ensures
        resolve_best(requirement, candidates) is Some <==> exists|k: int|
            0 <= k < candidates.len() && version_satisfies(
                #[trigger] candidates[k].1,
                requirement,
            ),
        resolve_best(requirement, candidates) matches Some(best) ==> version_satisfies(
            best.1,
            requirement,
        ) && exists|k: int| 0 <= k < candidates.len() && #[trigger] candidates[k] == best,
    decreases candidates.len(),
{
    if candidates.len() > 0 {
        let earlier = candidates.drop_last();
        lemma_resolve_best_found(requirement, earlier);
        let last = candidates.len() - 1;
        assert(candidates[last] == candidates.last());
        assert forall|k: int| 0 <= k < earlier.len() implies #[trigger] earlier[k]
            == candidates[k] by {}
        if let Some(best) = resolve_best(requirement, candidates) {
            if best == candidates.last() {
                assert(candidates[last] == best);
            } else {
                let k = choose|k: int| 0 <= k < earlier.len() && #[trigger] earlier[k] == best;
                assert(candidates[k] == best);
            }
        } else {
            assert forall|k: int| 0 <= k < candidates.len() implies !version_satisfies(
                #[trigger] candidates[k].1,
                requirement,
            ) by {
                if k < last {
                    assert(earlier[k] == candidates[k]);
                }
            }
        }
        if exists|k: int|
            0 <= k < candidates.len() && version_satisfies(#[trigger] candidates[k].1, requirement) {
            let k = choose|k: int|
                0 <= k < candidates.len() && version_satisfies(
                    #[trigger] candidates[k].1,
                    requirement,
                );
            if k < last {
                assert(earlier[k] == candidates[k]);
            }
        }
    }
}

/// Whether no candidate after position `i` that meets the requirement compares as
/// greater than `best_version`.
pub open spec fn unbeaten_after<T>(
    requirement: RequirementView,
    candidates: Seq<(T, Seq<char>)>,
    i: int,
    best_version: Seq<char>,
) -> bool {
    forall|k: int|
        i < k < candidates.len() && version_satisfies(#[trigger] candidates[k].1, requirement)
            ==> version_order(candidates[k].1, best_version) != Some(VersionOrder::Greater)
}

/// Once the resolver settles on a candidate, no candidate offered after it that meets
/// the requirement compares as greater than it.
pub proof fn lemma_resolve_best_unbeaten<T>(
    requirement: RequirementView,
    candidates: Seq<(T, Seq<char>)>,
)
    ensures
        resolve_best(requirement, candidates) matches Some(best) ==> exists|i: int|
            0 <= i < candidates.len() && #[trigger] candidates[i] == best && unbeaten_after(
                requirement,
                candidates,
                i,
                best.1,
            ),
    decreases candidates.len(),
{
    if candidates.len() > 0 {
        let earlier = candidates.drop_last();
        lemma_resolve_best_unbeaten(requirement, earlier);
        let last = candidates.len() - 1;
        assert(candidates[last] == candidates.last());
        if let Some(best) = resolve_best(requirement, candidates) {
            if best == candidates.last() {
                assert(unbeaten_after(requirement, candidates, last, best.1));
            } else {
                let i = choose|i: int|
                    0 <= i < earlier.len() && #[trigger] earlier[i] == best && unbeaten_after(
                        requirement,
                        earlier,
                        i,
                        best.1,
                    );
                assert(candidates[i] == best);
                assert forall|k: int|
                    i < k < candidates.len() && version_satisfies(
                        #[trigger] candidates[k].1,
                        requirement,
                    ) implies version_order(candidates[k].1, best.1) != Some(
                    VersionOrder::Greater,
                ) by {
                    if k < last {
                        assert(earlier[k] == candidates[k]);
                    }
                }
            }
        }
    }
}

} // verus!
