//! Tests of the token-level semantic rules.

use zinc_vm_core::semantic::Error;
use zinc_vm_core::semantic::SemanticError;
use zinc_vm_core::semantic::analyze_source;
use zinc_vm_core::syntax::Location;

/// A source without a `main` function is rejected.
#[test]
fn error_function_main_missing_test() {
    let input = "\nfn another() -> u8 {\n    42\n}\n";

    let expected = Err(Error::Semantic(SemanticError::FunctionMainMissing));

    let result = analyze_source(input);

    assert_eq!(expected, result);
}

/// An instruction-style call that names no instruction is rejected, with
/// the location of its argument list.
#[test]
fn error_function_not_instruction_test() {
    let input = "\nfn unknown() {}\n\nfn main() {\n    unknown!();\n}\n";

    let expected = Err(Error::Semantic(SemanticError::FunctionNotInstruction(
        Location::new(5, 13),
        "unknown".to_owned(),
    )));

    let result = analyze_source(input);

    assert_eq!(expected, result);
}

/// The known instruction-style calls pass, and a well-formed entry point is
/// accepted.
#[test]
fn ok_known_instructions() {
    let input = "\nfn main() {\n    dbg!(1);\n    assert!(true);\n}\n";
    assert_eq!(analyze_source(input), Ok(()));
}

/// The first offending call wins.
#[test]
fn first_offender_reported() {
    let input = "fn main() {\n  foo!();\n  bar!();\n}\n";
    match analyze_source(input) {
        Err(Error::Semantic(SemanticError::FunctionNotInstruction(loc, name))) => {
            assert_eq!(name, "foo");
            assert_eq!(loc, Location::new(2, 7));
        },
        other => panic!("unexpected result {:?}", other),
    }
}
