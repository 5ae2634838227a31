//! Tests of integer-literal bit-length inference and the syntax helpers.

use zinc_vm_core::inference::Error;
use zinc_vm_core::inference::IntegerLiteral;
use zinc_vm_core::inference::enough_bitlength;
use zinc_vm_core::inference::integer_literal;
use zinc_vm_core::list_analyzer::Analyzer;
use zinc_vm_core::list_analyzer::Element;
use zinc_vm_core::list_analyzer::ListExpression;
use zinc_vm_core::match_builder::Builder;
use zinc_vm_core::syntax::Expression;
use zinc_vm_core::syntax::Location;
use zinc_vm_core::syntax::Pattern;

fn dec(s: &str) -> IntegerLiteral {
    IntegerLiteral::Decimal { value: String::from(s) }
}

fn hex(s: &str) -> IntegerLiteral {
    IntegerLiteral::Hexadecimal { value: String::from(s) }
}

#[test]
fn literal_bitlengths() {
    assert_eq!(integer_literal(&dec("0")).unwrap().1, 8);
    assert_eq!(integer_literal(&dec("255")).unwrap().1, 8);
    assert_eq!(integer_literal(&dec("256")).unwrap().1, 16);
    assert_eq!(integer_literal(&dec("65535")).unwrap().1, 16);
    assert_eq!(integer_literal(&dec("65536")).unwrap().1, 24);
    assert_eq!(integer_literal(&hex("ff")).unwrap().1, 8);
    assert_eq!(integer_literal(&hex("100")).unwrap().1, 16);
    // 2^248 - 1 is the widest whole-byte value: 31 bytes of ff
    let wide = "f".repeat(62);
    assert_eq!(integer_literal(&hex(&wide)).unwrap().1, 248);
    // 2^248 needs the field width
    let mut over = String::from("1");
    over.push_str(&"0".repeat(62));
    assert_eq!(integer_literal(&hex(&over)).unwrap().1, 254);
    // 2^254 is too large
    let mut too_big = String::from("4");
    too_big.push_str(&"0".repeat(63));
    match integer_literal(&hex(&too_big)) {
        Err(Error::LiteralTooLarge(_, bits)) => assert_eq!(bits, 254),
        other => panic!("expected the too-large error, got {:?}", other),
    }
}

#[test]
fn literal_values() {
    let (value, bits) = integer_literal(&dec("300")).unwrap();
    assert_eq!(value.limbs, vec![300]);
    assert_eq!(bits, 16);
    let (value2, _) = integer_literal(&hex("1a")).unwrap();
    assert_eq!(value2.limbs, vec![26]);
}

#[test]
fn enough_bitlength_takes_the_maximum() {
    let lits = vec![dec("1"), dec("70000"), dec("255")];
    assert_eq!(enough_bitlength(&lits).unwrap(), 24);
    assert_eq!(enough_bitlength(&vec![]).unwrap(), 0);
}

#[test]
fn analyzer_builds_argument_list() {
    let loc = Location::new(1, 1);
    let list = ListExpression {
        elements: vec![
            Expression::Boolean { location: loc, value: true },
            Expression::Integer { location: loc, literal: dec("300") },
        ],
    };
    let (element, operand) = Analyzer::analyze(list.clone()).unwrap();
    assert_eq!(operand.expressions, list.elements);
    match element {
        Element::ArgumentList { elements } => {
            assert_eq!(elements.len(), 2);
            assert_eq!(elements[0], Element::Boolean { value: true });
            match &elements[1] {
                Element::Integer { value, bit_length } => {
                    assert_eq!(value.limbs, vec![300]);
                    assert_eq!(*bit_length, 16);
                },
                other => panic!("unexpected element {:?}", other),
            }
        },
        other => panic!("unexpected element {:?}", other),
    }
}

#[test]
fn match_builder_assembles() {
    let loc = Location::new(5, 9);
    let mut builder = Builder::new();
    builder.set_location(loc);
    builder.set_scrutinee(Expression::Integer { location: loc, literal: dec("2") });
    builder.push_branch_pattern(Pattern::Integer { location: loc, literal: dec("1") });
    builder.set_branch_expression(Expression::Integer { location: loc, literal: dec("1") });
    builder.push_branch_pattern(Pattern::Wildcard { location: loc });
    builder.set_branch_expression(Expression::Integer { location: loc, literal: dec("42") });
    let m = builder.finish();
    assert_eq!(m.location, loc);
    assert_eq!(m.branches.len(), 2);
    assert_eq!(m.branches[1].0, Pattern::Wildcard { location: loc });
    assert_eq!(
        m.branches[1].1,
        Expression::Integer { location: loc, literal: dec("42") }
    );
}
