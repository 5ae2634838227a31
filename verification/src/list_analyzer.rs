//! The argument-list analyzer: evaluates each operand expression of a
//! function argument list to a semantic element and the operand the code
//! generator will consume.

use vstd::prelude::*;
use crate::inference::Error;
use crate::inference::IntegerValue;
use crate::inference::integer_literal;
use crate::inference::literal_wf;
use crate::inference::literal_value;
use crate::inference::limbs_value;
use crate::inference::spec_inferred_bits;
use crate::syntax::Expression;

verus! {

/// A function argument list: its operand expressions in order.
#[derive(Clone, Debug, PartialEq)]
pub struct ListExpression {
    pub elements: Vec<Expression>,
}

/// A semantic element an analyzed expression reduces to.
#[derive(Debug, PartialEq)]
pub enum Element {
    Unit,
    Boolean { value: bool },
    Integer { value: IntegerValue, bit_length: usize },
    ArgumentList { elements: Vec<Element> },
}

/// The operand list handed to the code generator: the analyzed expressions
/// in their original order.
#[derive(Clone, Debug, PartialEq)]
pub struct ListOperand {
    pub expressions: Vec<Expression>,
}

/// Every integer literal in the expression is lexically valid.
pub open spec fn expression_wf(e: Expression) -> bool {
    match e {
        Expression::Integer { literal, .. } => literal_wf(literal),
        _ => true,
    }
}

/// An analyzed integer element matches its literal.
pub open spec fn element_matches(e: Expression, el: Element) -> bool {
    match e {
        Expression::Unit { .. } => el == Element::Unit,
        Expression::Boolean { value, .. } => el == (Element::Boolean { value }),
        Expression::Integer { literal, .. } => match el {
            Element::Integer { value, bit_length } => {
                &&& limbs_value(value.limbs@) == literal_value(literal)
                &&& Some(bit_length as int) == spec_inferred_bits(literal_value(literal))
            },
            _ => false,
        },
    }
}

/// Analyzes one operand expression.
fn analyze_expression(e: &Expression) -> (r: Result<Element, Error>)
    requires
        expression_wf(*e),
    ensures
        match r {
            Ok(el) => element_matches(*e, el),
            Err(err) => (e matches Expression::Integer { literal, .. }) && spec_inferred_bits(
                literal_value(e->Integer_literal),
            ) is None && err == Error::LiteralTooLarge(e->Integer_literal, 254usize),
        },
{
    match e {
        Expression::Unit { .. } => Ok(Element::Unit),
        Expression::Boolean { value, .. } => Ok(Element::Boolean { value: *value }),
        Expression::Integer { literal, .. } => match integer_literal(literal) {
            Ok((value, bit_length)) => Ok(Element::Integer { value, bit_length }),
            Err(e2) => {
                proof {
                    vstd::arithmetic::power2::lemma_pow2_strictly_increases(248, 254);
                }
                Err(e2)
            },
        },
    }
}

/// The list analyzer.
pub struct Analyzer {}

impl Analyzer {
    /// Analyzes a function argument list: each element expression becomes a
    /// semantic element, and the expressions are handed on, in order, as
    /// the generator's list operand. The first oversized literal, in list
    /// order, aborts the analysis with its own error.
    pub fn analyze(list: ListExpression) -> (r: Result<(Element, ListOperand), Error>)
        requires
            forall|i: int|
                0 <= i < list.elements@.len() ==> expression_wf(#[trigger] list.elements@[i]),
        ensures
            match r {
                Ok((element, operand)) => {
                    &&& operand.expressions@ == list.elements@
                    &&& (element matches Element::ArgumentList { elements } && elements@.len()
                        == list.elements@.len())
                    &&& (forall|i: int|
                        0 <= i < list.elements@.len() ==> element_matches(
                            #[trigger] list.elements@[i],
                            element->ArgumentList_elements@[i],
                        ))
                },
                Err(err) => exists|i: int|
                    {
                        &&& 0 <= i < list.elements@.len()
                        &&& ((#[trigger] list.elements@[i]) matches Expression::Integer {
                            literal,
                            ..
                        })
                        &&& spec_inferred_bits(
                            literal_value(list.elements@[i]->Integer_literal),
                        ) is None
                        &&& err == Error::LiteralTooLarge(
                            list.elements@[i]->Integer_literal,
                            254usize,
                        )
                        &&& (forall|k: int|
                            0 <= k < i ==> !((#[trigger] list.elements@[k]) matches
                                Expression::Integer { literal, .. } && spec_inferred_bits(
                                literal_value(list.elements@[k]->Integer_literal),
                            ) is None))
                    },
            },
    {
        let mut elements: Vec<Element> = Vec::new();
        let n = list.elements.len();
        let mut i: usize = 0;
        while i < n
            invariant
                i <= n,
                n == list.elements@.len(),
                forall|k: int|
                    0 <= k < list.elements@.len() ==> expression_wf(#[trigger] list.elements@[k]),
                elements@.len() == i,
                forall|k: int|
                    0 <= k < i ==> element_matches(
                        #[trigger] list.elements@[k],
                        elements@[k],
                    ),
            decreases n - i,
        {
            match analyze_expression(&list.elements[i]) {
                Ok(el) => {
                    elements.push(el);
                },
                Err(e) => {
                    return Err(e);
                },
            }
            i = i + 1;
        }
        Ok((Element::ArgumentList { elements }, ListOperand { expressions: list.elements }))
    }
}

} // verus!
