//! The small syntax forms the code generator's front end hands over: source
//! locations, operand expressions, match patterns, and the match
//! expression.

use vstd::prelude::*;
use crate::inference::IntegerLiteral;

verus! {

/// A line and column in a source file, both starting at one.
#[derive(Clone, Copy, Debug, PartialEq, Eq, Structural)]
pub struct Location {
    pub line: usize,
    pub column: usize,
}

impl Location {
    pub fn new(line: usize, column: usize) -> (r: Location)
        ensures
            r.line == line && r.column == column,
    {
        Location { line, column }
    }
}

/// An operand expression.
#[derive(Clone, Debug, PartialEq)]
pub enum Expression {
    Unit { location: Location },
    Boolean { location: Location, value: bool },
    Integer { location: Location, literal: IntegerLiteral },
}

/// A pattern of one match branch.
#[derive(Clone, Debug, PartialEq)]
pub enum Pattern {
    Boolean { location: Location, value: bool },
    Integer { location: Location, literal: IntegerLiteral },
    Binding { location: Location, name: String },
    Wildcard { location: Location },
}

/// A match expression: scrutinee and branches, each a pattern with its
/// branch expression.
#[derive(Clone, Debug, PartialEq)]
pub struct MatchExpression {
    pub location: Location,
    pub scrutinee: Expression,
    pub branches: Vec<(Pattern, Expression)>,
}

impl MatchExpression {
    pub fn new(location: Location, scrutinee: Expression, branches: Vec<(Pattern, Expression)>)
        -> (r: MatchExpression)
        ensures
            r.location == location,
            r.scrutinee == scrutinee,
            r.branches@ == branches@,
    {
        MatchExpression { location, scrutinee, branches }
    }
}

} // verus!
