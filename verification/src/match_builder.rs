//! The match-expression builder: accumulates the parts a parser discovers
//! one at a time, then yields the finished expression. The original
//! panicked when a part was missing; here every such path is excluded by
//! contract.

use vstd::prelude::*;
use crate::syntax::Expression;
use crate::syntax::Location;
use crate::syntax::MatchExpression;
use crate::syntax::Pattern;

verus! {

/// The builder's accumulating state.
pub struct Builder {
    pub location: Option<Location>,
    pub scrutinee: Option<Expression>,
    pub branches: Vec<(Pattern, Option<Expression>)>,
}

/// Every branch has received its expression.
pub open spec fn branches_complete(branches: Seq<(Pattern, Option<Expression>)>) -> bool {
    forall|i: int| 0 <= i < branches.len() ==> (#[trigger] branches[i]).1 is Some
}

impl Builder {
    /// A builder with nothing set.
    pub fn new() -> (r: Builder)
        ensures
            r.location is None,
            r.scrutinee is None,
            r.branches@ == Seq::<(Pattern, Option<Expression>)>::empty(),
    {
        Builder { location: None, scrutinee: None, branches: Vec::new() }
    }

    pub fn set_location(&mut self, value: Location)
        ensures
            final(self).location == Some(value),
            final(self).scrutinee == old(self).scrutinee,
            final(self).branches@ == old(self).branches@,
    {
        self.location = Some(value);
    }

    pub fn set_scrutinee(&mut self, value: Expression)
        ensures
            final(self).scrutinee == Some(value),
            final(self).location == old(self).location,
            final(self).branches@ == old(self).branches@,
    {
        self.scrutinee = Some(value);
    }

    /// Opens a branch: the pattern arrives first, its expression later.
    pub fn push_branch_pattern(&mut self, value: Pattern)
        ensures
            final(self).branches@ == old(self).branches@.push(
                (value, None::<Expression>),
            ),
            final(self).location == old(self).location,
            final(self).scrutinee == old(self).scrutinee,
    {
        self.branches.push((value, None));
    }

    /// Completes the branch opened last.
    pub fn set_branch_expression(&mut self, value: Expression)
        requires
            old(self).branches@.len() > 0,
        ensures
            final(self).branches@ == old(self).branches@.update(
                old(self).branches@.len() - 1,
                (old(self).branches@.last().0, Some(value)),
            ),
            final(self).location == old(self).location,
            final(self).scrutinee == old(self).scrutinee,
    {
        let i = self.branches.len() - 1;
        let (pattern, _) = self.branches.remove(i);
        self.branches.insert(i, (pattern, Some(value)));
        proof {
            assert(final(self).branches@ =~= old(self).branches@.update(
                old(self).branches@.len() - 1,
                (old(self).branches@.last().0, Some(value)),
            ));
        }
    }

    /// Yields the finished match expression: the location, the scrutinee
    /// and every branch must have been set.
    pub fn finish(self) -> (r: MatchExpression)
        requires
            self.location is Some,
            self.scrutinee is Some,
            branches_complete(self.branches@),
        ensures
            r.location == self.location->0,
            r.scrutinee == self.scrutinee->0,
            r.branches@.len() == self.branches@.len(),
            forall|i: int|
                0 <= i < self.branches@.len() ==> #[trigger] r.branches@[i] == (
                    self.branches@[i].0,
                    self.branches@[i].1->0,
                ),
    {
        let location = match self.location {
            Some(l) => l,
            None => Location { line: 1, column: 1 },
        };
        let scrutinee = match self.scrutinee {
            Some(s) => s,
            None => Expression::Unit { location },
        };
        let mut branches: Vec<(Pattern, Expression)> = Vec::new();
        let mut source = self.branches;
        let ghost all = source@;
        let n = source.len();
        let mut i: usize = 0;
        while i < n
            invariant
                i <= n,
                n == all.len(),
                source@ == all.subrange(i as int, n as int),
                branches_complete(all),
                branches@.len() == i,
                forall|k: int|
                    0 <= k < i ==> #[trigger] branches@[k] == (all[k].0, all[k].1->0),
            decreases n - i,
        {
            let (pattern, expression) = source.remove(0);
            proof {
                assert(all[i as int].1 is Some);
                assert(source@ =~= all.subrange(i + 1, n as int));
            }
            match expression {
                Some(e) => {
                    branches.push((pattern, e));
                },
                None => {
                    proof {
                        assert(false);
                    }
                },
            }
            i = i + 1;
        }
        MatchExpression::new(location, scrutinee, branches)
    }
}

} // verus!
