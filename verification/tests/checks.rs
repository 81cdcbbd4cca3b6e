use olympus::checks::{
    check_accessible_type, find_duplicate_ident, find_enum_variant_duplicates,
    find_fingerprint_collisions,
    find_rpc_procedure_duplicates, find_rpc_procedure_param_duplicates,
    find_struct_field_duplicates, verify_parser_outputs,
};
use olympus::compile::verify_src;
use olympus::lexer::Lexer;
use olympus::parser::Parser;
use olympus::spanned::{CodeSource, ErrorColor, OlympusError, OlympusErrorLabel, Spanned};
use std::rc::Rc;

const EXAMPLE: &str = "enum Action {\n  Delete -> 1;\n  SecureDelete -> 2;\n  Encrypt -> 3;\n}\n\nstruct File {\n  path -> @string;\n  size -> @varuint64;\n  content -> @array[@uint8];\n}\n\nrpc {\n  proc getServerVersion() -> @int8;\n  proc getFile(path -> @string, after_action -> @option[Action]) -> File;\n  proc deleteFile(path -> @string);\n}\n";

fn parsed(src: &str) -> Parser {
    let mut lexer = Lexer::new(Rc::new(CodeSource {
        file_name: "test.olympus".to_string(),
        src: src.to_string(),
    }));
    lexer.lex().unwrap();
    let mut parser = Parser::new(lexer.tokens);
    parser.parse().unwrap();
    parser
}

fn check(src: &str) -> Result<(), OlympusError> {
    verify_parser_outputs(&parsed(src))
}

fn duplicate(subject: &str, original: std::ops::Range<usize>, dup: std::ops::Range<usize>) -> OlympusError {
    OlympusError {
        subject: subject.to_string(),
        labels: vec![
            OlympusErrorLabel {
                message: "Original here".to_string(),
                span: original,
                color: ErrorColor::Yellow,
            },
            OlympusErrorLabel {
                message: "Duplicate here".to_string(),
                span: dup,
                color: ErrorColor::Red,
            },
        ],
    }
}

fn missing(name: &str, at: std::ops::Range<usize>) -> OlympusError {
    OlympusError::error(&format!("Type '{name}' not found"), at)
}

#[test]
fn the_example_file_is_valid() {
    assert_eq!(check(EXAMPLE), Ok(()));
    let parser = verify_src(EXAMPLE, "example.olympus").unwrap();
    assert_eq!(parser.enums.len(), 1);
    assert_eq!(parser.structs.len(), 1);
    assert_eq!(parser.rpc_container.procedures.len(), 3);
}

#[test]
fn an_empty_file_is_valid() {
    assert_eq!(check(""), Ok(()));
    assert_eq!(check("enum E {} struct S {} rpc {}"), Ok(()));
}

#[test]
fn two_types_of_one_name() {
    assert_eq!(
        check("enum A {} enum A {}"),
        Err(duplicate("Duplicate enum/struct ident found", 5..6, 15..16))
    );
    assert_eq!(
        check("struct A {} enum B {} enum A {}"),
        Err(duplicate("Duplicate enum/struct ident found", 27..28, 7..8))
    );
    assert_eq!(
        check("struct A {} struct B {} struct A {} struct A {}"),
        Err(duplicate("Duplicate enum/struct ident found", 7..8, 43..44))
    );
}

#[test]
fn two_variants_of_one_name() {
    assert_eq!(
        check("enum E { A -> 1; B -> 2; A -> 3; }"),
        Err(duplicate("Duplicate variant ident found", 9..10, 25..26))
    );
}

#[test]
fn two_variants_of_one_tag() {
    assert_eq!(
        check("enum E { A -> 1; B -> 2; C -> 1; }"),
        Err(duplicate("Duplicate variant value found", 9..10, 25..26))
    );
    assert_eq!(check("enum E { A -> 1; } enum F { A -> 1; }"), Ok(()));
}

#[test]
fn two_fields_of_one_name() {
    assert_eq!(
        check("struct S { a -> @int8; b -> @int8; b -> @string; }"),
        Err(duplicate("Duplicate field ident found", 23..24, 35..36))
    );
    assert_eq!(check("struct S { a -> @int8; } struct T { a -> @int8; }"), Ok(()));
}

#[test]
fn two_procedures_of_one_name() {
    assert_eq!(
        check("rpc { proc p(); proc q(); proc p(); }"),
        Err(duplicate("Duplicate proc ident found", 11..12, 31..32))
    );
}

#[test]
fn procedures_of_one_name_in_two_blocks() {
    assert_eq!(
        check("rpc { proc p(); } rpc { proc p(); }"),
        Err(duplicate("Duplicate proc ident found", 11..12, 29..30))
    );
}

#[test]
fn two_parameters_of_one_name() {
    assert_eq!(
        check("rpc { proc p(a -> @int8, a -> @int8); }"),
        Err(duplicate("Duplicate proc param ident found", 13..14, 25..26))
    );
    assert_eq!(check("rpc { proc p(a -> @int8); proc q(a -> @int8); }"), Ok(()));
}

#[test]
fn a_type_that_is_not_declared() {
    assert_eq!(check("struct S { f -> T; }"), Err(missing("T", 11..12)));
    assert_eq!(check("rpc { proc p(a -> T); }"), Err(missing("T", 13..14)));
    assert_eq!(check("rpc { proc p() -> T; }"), Err(missing("T", 11..12)));
    assert_eq!(check("struct S { f -> S; } enum E {} rpc { proc p(e -> E) -> S; }"), Ok(()));
}

#[test]
fn a_type_inside_brackets_that_is_not_declared() {
    assert_eq!(check("struct S { f -> @array[T]; }"), Err(missing("T", 11..12)));
    assert_eq!(check("struct S { f -> @option[@array[T]]; }"), Err(missing("T", 11..12)));
    assert_eq!(check("rpc { proc p() -> @option[T]; }"), Err(missing("T", 11..12)));
    assert_eq!(check("enum T {} struct S { f -> @option[@array[T]]; }"), Ok(()));
}

#[test]
fn the_checks_run_in_order() {
    let src = "struct S { f -> T; f -> T; } enum E { A -> 1; A -> 1; } enum E {}";
    assert_eq!(check(src), Err(duplicate("Duplicate enum/struct ident found", 34..35, 61..62)));
    let src = "struct S { f -> T; f -> T; } enum E { A -> 1; A -> 1; }";
    assert_eq!(check(src), Err(duplicate("Duplicate variant ident found", 38..39, 46..47)));
    let src = "struct S { f -> T; f -> T; } enum E { A -> 1; B -> 1; }";
    assert_eq!(check(src), Err(duplicate("Duplicate variant value found", 38..39, 46..47)));
    let src = "struct S { f -> T; f -> T; } rpc { proc p(); proc p(); }";
    assert_eq!(check(src), Err(duplicate("Duplicate field ident found", 11..12, 19..20)));
    let src = "struct S { f -> T; } rpc { proc p(a -> U, a -> U); proc p(); }";
    assert_eq!(check(src), Err(duplicate("Duplicate proc ident found", 32..33, 56..57)));
    let src = "struct S { f -> T; } rpc { proc p(a -> U, a -> U); }";
    assert_eq!(check(src), Err(duplicate("Duplicate proc param ident found", 34..35, 42..43)));
    let src = "struct S { f -> T; } rpc { proc p(a -> U) -> V; }";
    assert_eq!(check(src), Err(missing("T", 11..12)));
    let src = "rpc { proc p(a -> @int8, b -> U) -> V; }";
    assert_eq!(check(src), Err(missing("U", 25..26)));
    let src = "rpc { proc p(a -> @int8) -> V; proc q(a -> W); }";
    assert_eq!(check(src), Err(missing("V", 11..12)));
}

#[test]
fn the_first_name_that_repeats_is_reported_with_its_last_place() {
    let idents = vec![
        Spanned::new("a".to_string(), 0..1),
        Spanned::new("b".to_string(), 2..3),
        Spanned::new("c".to_string(), 4..5),
        Spanned::new("b".to_string(), 6..7),
        Spanned::new("c".to_string(), 8..9),
        Spanned::new("b".to_string(), 10..11),
    ];
    assert_eq!(
        find_duplicate_ident(&idents),
        Some((Spanned::new("b".to_string(), 2..3), Spanned::new("b".to_string(), 10..11)))
    );
    assert_eq!(find_duplicate_ident(&idents[..3].iter().map(|i| Spanned::new(i.value.clone(), i.span.clone())).collect()), None);
    assert_eq!(find_duplicate_ident(&vec![]), None);
}

#[test]
fn the_checks_one_by_one() {
    let parser = parsed(
        "enum E { A -> 1; A -> 2; } struct S { f -> E; f -> X; } rpc { proc p(a -> E, a -> E); proc p(); }",
    );
    assert!(find_enum_variant_duplicates(&parser.enums[0].variants).is_err());
    assert!(find_struct_field_duplicates(&parser.structs[0].fields).is_err());
    assert!(find_rpc_procedure_duplicates(&parser.rpc_container.procedures).is_err());
    assert!(find_rpc_procedure_param_duplicates(&parser.rpc_container.procedures[0].params).is_err());
    assert!(find_rpc_procedure_param_duplicates(&parser.rpc_container.procedures[1].params).is_ok());
    let types = vec![Spanned::new("E".to_string(), 5..6)];
    let fields = &parser.structs[0].fields;
    assert_eq!(check_accessible_type(&types, &fields[0].ident, &fields[0].kind.value), Ok(()));
    assert_eq!(
        check_accessible_type(&types, &fields[1].ident, &fields[1].kind.value),
        Err(missing("X", 46..47))
    );
}

#[test]
fn a_source_is_checked_from_text() {
    let err = verify_src("enum A { $ }", "a.olympus").unwrap_err();
    assert_eq!(err, OlympusError::error("Unexpected character: $", 9..10));
    let err = verify_src("enum A { B }", "a.olympus").unwrap_err();
    assert_eq!(err, OlympusError::error("Expected '->' after Enum Ident", 9..10));
    let err = verify_src("enum A {} enum A {}", "a.olympus").unwrap_err();
    assert_eq!(err, duplicate("Duplicate enum/struct ident found", 5..6, 15..16));
    assert_eq!(err.lowest_start(), 5);
    assert_eq!(OlympusError::new("x").lowest_start(), usize::MAX);
    assert!(verify_src("# nothing but a comment", "a.olympus").is_ok());
}

#[test]
fn diagnostics_are_built_label_by_label() {
    let err = OlympusError::new("subject").span(1..2, ErrorColor::Yellow).label(
        "other",
        3..4,
        ErrorColor::Red,
    );
    assert_eq!(err.subject, "subject");
    assert_eq!(
        err.labels,
        vec![
            OlympusErrorLabel {
                message: "subject".to_string(),
                span: 1..2,
                color: ErrorColor::Yellow
            },
            OlympusErrorLabel { message: "other".to_string(), span: 3..4, color: ErrorColor::Red },
        ]
    );
}

#[test]
fn names_that_hash_apart_do_not_collide() {
    let parser = parsed(EXAMPLE);
    assert_eq!(find_fingerprint_collisions(&parser.rpc_container.procedures), Ok(()));
    assert_eq!(find_fingerprint_collisions(&vec![]), Ok(()));
}

#[test]
fn names_that_hash_alike_collide() {
    let parser = parsed("rpc { proc a(); proc b(); proc a(); }");
    assert_eq!(
        find_fingerprint_collisions(&parser.rpc_container.procedures),
        Err(duplicate("Procedure names with the same hash found", 11..12, 31..32))
    );
}
