use olympus::ast::{
    ParsedBultin, ParsedEnum, ParsedEnumVariant, ParsedProcedure, ParsedProcedureParam,
    ParsedStruct, ParsedStructField, ParsedTypeKind,
};
use olympus::lexer::Lexer;
use olympus::parser::{copy_token, Parser};
use olympus::spanned::{CodeSource, ErrorColor, Spanned};
use olympus::token::{AsciiToken, IntToken, KeywordToken, Token};
use std::rc::Rc;

fn parser_for(src: &str) -> Parser {
    let mut lexer = Lexer::new(Rc::new(CodeSource {
        file_name: "test.olympus".to_string(),
        src: src.to_string(),
    }));
    lexer.lex().unwrap();
    Parser::new(lexer.tokens)
}

fn parsed(src: &str) -> Parser {
    let mut parser = parser_for(src);
    parser.parse().unwrap();
    parser
}

fn failure(src: &str) -> (String, usize, usize) {
    let mut parser = parser_for(src);
    let err = parser.parse().unwrap_err();
    assert_eq!(err.labels.len(), 1);
    assert_eq!(err.labels[0].message, err.subject);
    assert_eq!(err.labels[0].color, ErrorColor::Red);
    assert!(err.labels[0].span.start <= err.labels[0].span.end);
    assert!(err.labels[0].span.end <= src.len());
    (err.subject, err.labels[0].span.start, err.labels[0].span.end)
}

fn ident(name: &str, start: usize, end: usize) -> Spanned<String> {
    Spanned::new(name.to_string(), start..end)
}

fn builtin(kind: ParsedBultin, start: usize, end: usize) -> Spanned<ParsedTypeKind> {
    Spanned::new(ParsedTypeKind::Builtin(kind), start..end)
}

#[test]
fn nothing_declares_nothing() {
    let parser = parsed("");
    assert!(parser.imports.is_empty());
    assert!(parser.enums.is_empty());
    assert!(parser.structs.is_empty());
    assert!(parser.rpc_container.procedures.is_empty());
}

#[test]
fn an_enum() {
    let parser = parsed("enum Action { Delete -> 1; Encrypt -> 3; }");
    assert_eq!(
        parser.enums,
        vec![ParsedEnum {
            ident: ident("Action", 5, 11),
            variants: vec![
                ParsedEnumVariant { ident: ident("Delete", 14, 20), value: 1 },
                ParsedEnumVariant { ident: ident("Encrypt", 27, 34), value: 3 },
            ],
        }]
    );
}

#[test]
fn an_empty_enum_and_an_empty_struct() {
    let parser = parsed("enum E {} struct S {} rpc {}");
    assert_eq!(parser.enums, vec![ParsedEnum { ident: ident("E", 5, 6), variants: vec![] }]);
    assert_eq!(parser.structs, vec![ParsedStruct { ident: ident("S", 17, 18), fields: vec![] }]);
    assert!(parser.rpc_container.procedures.is_empty());
}

#[test]
fn a_struct() {
    let parser = parsed("struct File { path -> @string; size -> @varuint64; owner -> User; }");
    assert_eq!(
        parser.structs,
        vec![ParsedStruct {
            ident: ident("File", 7, 11),
            fields: vec![
                ParsedStructField {
                    ident: ident("path", 14, 18),
                    kind: builtin(ParsedBultin::String, 22, 29),
                },
                ParsedStructField {
                    ident: ident("size", 31, 35),
                    kind: builtin(ParsedBultin::VariableInt(IntToken::UInt64), 39, 49),
                },
                ParsedStructField {
                    ident: ident("owner", 51, 56),
                    kind: Spanned::new(ParsedTypeKind::External("User".to_string()), 60..64),
                },
            ],
        }]
    );
}

#[test]
fn arrays_and_options_nest() {
    let parser = parsed("struct S { a -> @array[@option[@array[T]]]; }");
    let innermost = Spanned::new(ParsedTypeKind::External("T".to_string()), 38..39);
    let inner_array = builtin(ParsedBultin::Array(Box::new(innermost)), 23, 30);
    let option = builtin(ParsedBultin::Option(Box::new(inner_array)), 16, 22);
    let outer = builtin(ParsedBultin::Array(Box::new(option)), 16, 22);
    assert_eq!(parser.structs[0].fields[0].kind, outer);
}

#[test]
fn procedures() {
    let parser = parsed(
        "rpc { proc getServerVersion() -> @int8; proc getFile(path -> @string, after_action -> @option[Action]) -> File; proc deleteFile(path -> @string); }",
    );
    let procedures = &parser.rpc_container.procedures;
    assert_eq!(procedures.len(), 3);
    assert_eq!(
        procedures[0],
        ParsedProcedure {
            ident: ident("getServerVersion", 11, 27),
            params: vec![],
            return_kind: builtin(ParsedBultin::Int(IntToken::Int8), 33, 38),
        }
    );
    assert_eq!(procedures[1].ident.value, "getFile");
    assert_eq!(
        procedures[1].params,
        vec![
            ParsedProcedureParam {
                ident: ident("path", 53, 57),
                kind: builtin(ParsedBultin::String, 61, 68),
            },
            ParsedProcedureParam {
                ident: ident("after_action", 70, 82),
                kind: builtin(
                    ParsedBultin::Option(Box::new(Spanned::new(
                        ParsedTypeKind::External("Action".to_string()),
                        94..100
                    ))),
                    86,
                    93
                ),
            },
        ]
    );
    assert_eq!(procedures[1].return_kind.value, ParsedTypeKind::External("File".to_string()));
    assert_eq!(procedures[2].ident.value, "deleteFile");
    assert_eq!(procedures[2].params.len(), 1);
    assert_eq!(procedures[2].return_kind, builtin(ParsedBultin::Nothing, 143, 144));
}

#[test]
fn blocks_of_procedures_concatenate() {
    let parser = parsed("rpc { proc a(); } enum E {} rpc { proc b(); proc c(); } rpc {}");
    let names: Vec<&str> =
        parser.rpc_container.procedures.iter().map(|p| p.ident.value.as_str()).collect();
    assert_eq!(names, vec!["a", "b", "c"]);
}

#[test]
fn imports() {
    let parser = parsed("import common; import other;");
    assert_eq!(parser.imports, vec![ident("common", 7, 13), ident("other", 22, 27)]);
    assert_eq!(failure("import ;"), ("Expected Ident for import".to_string(), 0, 6));
    assert_eq!(failure("import a b"), ("Expected ';' after import".to_string(), 7, 8));
}

#[test]
fn declarations_come_in_any_order() {
    let parser = parsed("rpc { proc p(); } struct S {} import i; enum E {} struct T {}");
    assert_eq!(parser.enums.len(), 1);
    assert_eq!(parser.structs.len(), 2);
    assert_eq!(parser.imports.len(), 1);
    assert_eq!(parser.rpc_container.procedures.len(), 1);
}

#[test]
fn comments_are_ignored_everywhere() {
    let parser = parsed(
        "# top\nenum # after keyword\n E # after name\n { # first\n A -> # tag\n 1 # end\n ; # last\n }\n# between\nstruct S { # in\n f -> @array # a\n [ # b\n @int8 # c\n ] ; }\nrpc { # x\n proc p( # y\n a -> T # z\n, b -> U # w\n) # v\n -> @string # u\n; }\n# bye",
    );
    assert_eq!(parser.enums[0].variants.len(), 1);
    assert_eq!(parser.enums[0].variants[0].value, 1);
    assert_eq!(parser.structs[0].fields.len(), 1);
    assert_eq!(parser.rpc_container.procedures[0].params.len(), 2);
}

#[test]
fn an_enum_needs_its_parts() {
    assert_eq!(failure("enum"), ("Expected Ident for enum".to_string(), 0, 4));
    assert_eq!(failure("enum {"), ("Expected Ident for enum".to_string(), 0, 4));
    assert_eq!(failure("enum A"), ("Expected token after".to_string(), 0, 4));
    assert_eq!(failure("enum A ["), ("Expected '{' after Enum Ident".to_string(), 5, 6));
    assert_eq!(failure("enum A { B 1"), ("Expected '->' after Enum Ident".to_string(), 9, 10));
    assert_eq!(failure("enum A { B -> C"), ("Expected enum tag".to_string(), 11, 13));
    assert_eq!(failure("enum A { B -> @int8"), ("Expected enum tag".to_string(), 11, 13));
    assert_eq!(failure("enum A { B -> 1 }"), ("Expected ';' after Enum Value".to_string(), 14, 15));
    assert_eq!(
        failure("enum A { 1 }"),
        ("Expected '}' or Ident. Got: Number(1)".to_string(), 9, 10)
    );
    assert_eq!(
        failure("enum A { B -> 1; ; }"),
        ("Expected '}' or Ident. Got: Ascii(SemiColon)".to_string(), 17, 18)
    );
}

#[test]
fn a_block_needs_its_closing_brace() {
    assert_eq!(failure("enum A {"), ("Expected token after".to_string(), 7, 8));
    assert_eq!(failure("enum A { B -> 1;"), ("Expected token after".to_string(), 15, 16));
    assert_eq!(failure("struct S { f -> T;"), ("Expected token after".to_string(), 17, 18));
    assert_eq!(failure("rpc { proc p();"), ("Expected token after".to_string(), 14, 15));
    assert_eq!(failure("rpc {"), ("Expected token after".to_string(), 4, 5));
}

#[test]
fn a_struct_needs_its_parts() {
    assert_eq!(failure("struct"), ("Expected Ident for data".to_string(), 0, 6));
    assert_eq!(failure("struct S ("), ("Expected '{' after ident".to_string(), 7, 8));
    assert_eq!(failure("struct S { f T"), ("Expected '->' after ident".to_string(), 11, 12));
    assert_eq!(failure("struct S { f ->"), ("Expected type".to_string(), 0, 0));
    assert_eq!(failure("struct S { f -> ;"), ("Expected type".to_string(), 16, 17));
    assert_eq!(failure("struct S { f -> 1; }"), ("Expected type".to_string(), 16, 17));
    assert_eq!(failure("struct S { f -> T }"), ("Expected ';' after type".to_string(), 16, 17));
    assert_eq!(
        failure("struct S { -> }"),
        ("Expected '}' or ident. Got: Arrow".to_string(), 11, 13)
    );
    assert_eq!(
        failure("struct S { proc }"),
        ("Expected '}' or ident. Got: Keyword(Proc)".to_string(), 11, 15)
    );
}

#[test]
fn a_generic_type_needs_its_brackets() {
    assert_eq!(failure("struct S { f -> @array; }"), ("Expected generic type".to_string(), 16, 22));
    assert_eq!(failure("struct S { f -> @array"), ("Expected token after".to_string(), 13, 15));
    assert_eq!(failure("struct S { f -> @array["), ("Expected generic type".to_string(), 22, 23));
    assert_eq!(failure("struct S { f -> @array[]; }"), ("Expected type".to_string(), 23, 24));
    assert_eq!(
        failure("struct S { f -> @array[T; }"),
        ("Expected ']' after generic type".to_string(), 23, 24)
    );
    assert_eq!(
        failure("struct S { f -> @option[@array]; }"),
        ("Expected generic type".to_string(), 24, 30)
    );
}

#[test]
fn a_procedure_needs_its_parts() {
    assert_eq!(failure("rpc proc"), ("Expected '{' after server".to_string(), 0, 3));
    assert_eq!(failure("rpc { proc }"), ("Expected ident".to_string(), 6, 10));
    assert_eq!(failure("rpc { proc p; }"), ("Expected '(' after ident".to_string(), 11, 12));
    assert_eq!(failure("rpc { proc p() }"), ("Expected '->' after params".to_string(), 13, 14));
    assert_eq!(failure("rpc { proc p() -> ; }"), ("Expected type".to_string(), 18, 19));
    assert_eq!(
        failure("rpc { proc p() -> T }"),
        ("Expected ';' after return type".to_string(), 18, 19)
    );
    assert_eq!(
        failure("rpc { enum }"),
        ("Expected '}' or proc. Got: Keyword(Enum)".to_string(), 6, 10)
    );
    assert_eq!(
        failure("rpc { p(); }"),
        ("Expected '}' or proc. Got: Ident(\"p\")".to_string(), 6, 7)
    );
}

#[test]
fn parameters_are_separated_by_commas() {
    assert_eq!(failure("rpc { proc p(a T); }"), ("Expected '->' after ident".to_string(), 13, 14));
    assert_eq!(
        failure("rpc { proc p(a -> T b -> U); }"),
        ("Expected ',' or ')'. Got: Ident(\"b\")".to_string(), 20, 21)
    );
    assert_eq!(
        failure("rpc { proc p(a -> T,); }"),
        ("Expected ident. Got: Ascii(CloseParen)".to_string(), 20, 21)
    );
    assert_eq!(
        failure("rpc { proc p(,a -> T); }"),
        ("Expected ident or ')'. Got: Ascii(Comma)".to_string(), 13, 14)
    );
    assert_eq!(
        failure("rpc { proc p(a -> T,, b -> T); }"),
        ("Expected ident. Got: Ascii(Comma)".to_string(), 20, 21)
    );
    assert_eq!(failure("rpc { proc p(a -> T"), ("Expected token after".to_string(), 18, 19));
    assert_eq!(failure("rpc { proc p("), ("Expected token after".to_string(), 12, 13));
}

#[test]
fn a_procedure_stands_in_a_block() {
    assert_eq!(
        failure("proc p();"),
        ("This is a bug. Proc shouldn't be parsed here.".to_string(), 0, 4)
    );
}

#[test]
fn other_tokens_are_unexpected() {
    assert_eq!(failure("foo"), ("Unexpected token: Ident(\"foo\")".to_string(), 0, 3));
    assert_eq!(failure("enum A {} }"), ("Unexpected token: Ascii(CloseBrace)".to_string(), 10, 11));
    assert_eq!(failure("@int8"), ("Unexpected token: Type(Int(Int8))".to_string(), 0, 5));
    assert_eq!(failure("12"), ("Unexpected token: Number(12)".to_string(), 0, 2));
    assert_eq!(failure("->"), ("Unexpected token: Arrow".to_string(), 0, 2));
}

#[test]
fn what_was_declared_before_a_failure_stays() {
    let mut parser = parser_for("enum A {} struct S {} 5");
    assert!(parser.parse().is_err());
    assert_eq!(parser.enums.len(), 1);
    assert_eq!(parser.structs.len(), 1);
}

#[test]
fn tokens_can_be_given_by_hand() {
    let tokens = vec![
        Spanned::new(Token::Comment("c".to_string()), 0..1),
        Spanned::new(Token::Keyword(KeywordToken::Enum), 10..14),
        Spanned::new(Token::Ident("E".to_string()), 15..16),
        Spanned::new(Token::Ascii(AsciiToken::OpenBrace), 17..18),
        Spanned::new(Token::Ident("V".to_string()), 19..20),
        Spanned::new(Token::Arrow, 21..23),
        Spanned::new(Token::Number(-5), 24..26),
        Spanned::new(Token::Ascii(AsciiToken::SemiColon), 26..27),
        Spanned::new(Token::Ascii(AsciiToken::CloseBrace), 28..29),
    ];
    assert_eq!(copy_token(&tokens[6]), tokens[6]);
    let mut parser = Parser::new(tokens);
    assert_eq!(parser.tokens.len(), 8);
    parser.parse().unwrap();
    assert_eq!(parser.enums[0].variants[0].value, -5);
    assert_eq!(parser.token_idx, 8);
}
