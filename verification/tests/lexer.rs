use olympus::lexer::{is_char, lookup_punctuation, parse_tag, Lexer};
use olympus::spanned::{CodeSource, ErrorColor, OlympusError, Spanned};
use olympus::token::{
    lookup_builtin, lookup_keyword, same_text, AsciiToken, IntToken, KeywordToken, Token,
    TypeToken,
};
use std::rc::Rc;

fn lexer_for(src: &str) -> Lexer {
    Lexer::new(Rc::new(CodeSource { file_name: "test.olympus".to_string(), src: src.to_string() }))
}

fn lex(src: &str) -> Result<Vec<Spanned<Token>>, OlympusError> {
    let mut lexer = lexer_for(src);
    lexer.lex()?;
    Ok(lexer.tokens)
}

fn values(src: &str) -> Vec<Token> {
    lex(src).unwrap().into_iter().map(|token| token.value).collect()
}

fn failure(src: &str) -> (String, usize, usize) {
    let err = lex(src).unwrap_err();
    assert_eq!(err.labels.len(), 1);
    assert_eq!(err.labels[0].message, err.subject);
    assert_eq!(err.labels[0].color, ErrorColor::Red);
    assert!(err.labels[0].span.end <= src.len());
    (err.subject, err.labels[0].span.start, err.labels[0].span.end)
}

#[test]
fn empty_source_has_no_tokens() {
    assert!(values("").is_empty());
    assert!(values(" \t\r\n  ").is_empty());
}

#[test]
fn punctuation_maps_one_to_one() {
    assert_eq!(
        values("{}()[];,"),
        vec![
            Token::Ascii(AsciiToken::OpenBrace),
            Token::Ascii(AsciiToken::CloseBrace),
            Token::Ascii(AsciiToken::OpenParen),
            Token::Ascii(AsciiToken::CloseParen),
            Token::Ascii(AsciiToken::OpenBracket),
            Token::Ascii(AsciiToken::CloseBracket),
            Token::Ascii(AsciiToken::SemiColon),
            Token::Ascii(AsciiToken::Comma),
        ]
    );
}

#[test]
fn arrow_is_one_token() {
    let tokens = lex("a->b").unwrap();
    assert_eq!(tokens.len(), 3);
    assert_eq!(tokens[1], Spanned::new(Token::Arrow, 1..3));
}

#[test]
fn a_lone_minus_is_unexpected() {
    assert_eq!(failure("a - b"), ("Unexpected character: -".to_string(), 2, 3));
    assert_eq!(failure("-"), ("Unexpected character: -".to_string(), 0, 1));
}

#[test]
fn keywords_are_reserved() {
    assert_eq!(
        values("enum struct rpc proc import enums Enum"),
        vec![
            Token::Keyword(KeywordToken::Enum),
            Token::Keyword(KeywordToken::Struct),
            Token::Keyword(KeywordToken::Rpc),
            Token::Keyword(KeywordToken::Proc),
            Token::Keyword(KeywordToken::Import),
            Token::Ident("enums".to_string()),
            Token::Ident("Enum".to_string()),
        ]
    );
}

#[test]
fn identifiers_may_hold_digits_and_underscores() {
    assert_eq!(
        values("_a1 after_action x9_"),
        vec![
            Token::Ident("_a1".to_string()),
            Token::Ident("after_action".to_string()),
            Token::Ident("x9_".to_string()),
        ]
    );
}

#[test]
fn builtin_types() {
    assert_eq!(
        values("@int8 @uint8 @int16 @uint16 @int32 @uint32 @int64 @uint64"),
        vec![
            Token::Type(TypeToken::Int(IntToken::Int8)),
            Token::Type(TypeToken::Int(IntToken::UInt8)),
            Token::Type(TypeToken::Int(IntToken::Int16)),
            Token::Type(TypeToken::Int(IntToken::UInt16)),
            Token::Type(TypeToken::Int(IntToken::Int32)),
            Token::Type(TypeToken::Int(IntToken::UInt32)),
            Token::Type(TypeToken::Int(IntToken::Int64)),
            Token::Type(TypeToken::Int(IntToken::UInt64)),
        ]
    );
    assert_eq!(
        values("@varint8 @varuint8 @varint16 @varuint16 @varint32 @varuint32 @varint64 @varuint64"),
        vec![
            Token::Type(TypeToken::VariableInt(IntToken::Int8)),
            Token::Type(TypeToken::VariableInt(IntToken::UInt8)),
            Token::Type(TypeToken::VariableInt(IntToken::Int16)),
            Token::Type(TypeToken::VariableInt(IntToken::UInt16)),
            Token::Type(TypeToken::VariableInt(IntToken::Int32)),
            Token::Type(TypeToken::VariableInt(IntToken::UInt32)),
            Token::Type(TypeToken::VariableInt(IntToken::Int64)),
            Token::Type(TypeToken::VariableInt(IntToken::UInt64)),
        ]
    );
    assert_eq!(
        values("@string @array @option"),
        vec![
            Token::Type(TypeToken::String),
            Token::Type(TypeToken::Array),
            Token::Type(TypeToken::Option),
        ]
    );
}

#[test]
fn a_builtin_spans_its_at_sign() {
    let tokens = lex("  @varuint64;").unwrap();
    assert_eq!(tokens[0], Spanned::new(Token::Type(TypeToken::VariableInt(IntToken::UInt64)), 2..12));
    assert_eq!(tokens[1], Spanned::new(Token::Ascii(AsciiToken::SemiColon), 12..13));
}

#[test]
fn an_unknown_builtin_fails() {
    assert_eq!(failure("x -> @float;"), ("Unrecognized builtin".to_string(), 5, 11));
    assert_eq!(failure("@Int8"), ("Unrecognized builtin".to_string(), 0, 5));
}

#[test]
fn an_at_sign_needs_a_name() {
    assert_eq!(failure("@"), ("Unexpected character: @".to_string(), 0, 1));
    assert_eq!(failure("@ int8"), ("Unexpected character: @".to_string(), 0, 1));
    assert_eq!(failure("@8"), ("Unexpected character: @".to_string(), 0, 1));
}

#[test]
fn numbers_fit_sixteen_bits() {
    assert_eq!(values("0 7 0042 32767"), vec![
        Token::Number(0),
        Token::Number(7),
        Token::Number(42),
        Token::Number(32767),
    ]);
    assert_eq!(failure("x 32768"), ("Max enum tag is 32767".to_string(), 2, 7));
    assert_eq!(failure("99999999999999999999999999"), ("Max enum tag is 32767".to_string(), 0, 26));
}

#[test]
fn a_number_ends_where_its_digits_end() {
    assert_eq!(values("12ab"), vec![Token::Number(12), Token::Ident("ab".to_string())]);
    assert_eq!(values("1;"), vec![Token::Number(1), Token::Ascii(AsciiToken::SemiColon)]);
}

#[test]
fn digits_of_other_scripts_are_no_numbers() {
    assert_eq!(failure("٣"), ("Unexpected character: ٣".to_string(), 0, 2));
    assert_eq!(failure("²"), ("Unexpected character: ²".to_string(), 0, 2));
}

#[test]
fn comments_run_to_the_end_of_the_line() {
    let tokens = lex("# hello world\nfoo").unwrap();
    assert_eq!(tokens.len(), 2);
    assert_eq!(tokens[0], Spanned::new(Token::Comment("hello world".to_string()), 0..13));
    assert_eq!(tokens[1], Spanned::new(Token::Ident("foo".to_string()), 14..17));
}

#[test]
fn one_space_is_stripped_from_a_comment() {
    assert_eq!(values("#x"), vec![Token::Comment("x".to_string())]);
    assert_eq!(values("# x"), vec![Token::Comment("x".to_string())]);
    assert_eq!(values("#  x"), vec![Token::Comment(" x".to_string())]);
    assert_eq!(values("#"), vec![Token::Comment(String::new())]);
    assert_eq!(values("# "), vec![Token::Comment(String::new())]);
    assert_eq!(values("#\n#"), vec![Token::Comment(String::new()), Token::Comment(String::new())]);
}

#[test]
fn a_comment_may_hold_anything() {
    let tokens = lex("# ü ✓ @ - $\r\nx").unwrap();
    assert_eq!(tokens[0].value, Token::Comment("ü ✓ @ - $".to_string()));
    assert_eq!(tokens[0].span, 0..14);
    assert_eq!(tokens[1], Spanned::new(Token::Ident("x".to_string()), 16..17));
}

#[test]
fn other_characters_fail_with_their_span() {
    assert_eq!(failure("a $"), ("Unexpected character: $".to_string(), 2, 3));
    assert_eq!(failure("é"), ("Unexpected character: é".to_string(), 0, 2));
    assert_eq!(failure("ab ✓ cd"), ("Unexpected character: ✓".to_string(), 3, 6));
}

#[test]
fn a_cluster_is_read_as_a_whole() {
    let src = "e\u{301}";
    assert_eq!(failure(src), (format!("Unexpected character: {src}"), 0, 3));
    let src = "🇩🇪x";
    assert_eq!(failure(src), ("Unexpected character: 🇩🇪".to_string(), 0, 8));
}

#[test]
fn tokens_before_a_failure_stay() {
    let mut lexer = lexer_for("enum Action { $");
    assert!(lexer.lex().is_err());
    assert_eq!(lexer.tokens.len(), 3);
    assert_eq!(lexer.tokens[2], Spanned::new(Token::Ascii(AsciiToken::OpenBrace), 12..13));
}

#[test]
fn the_lexer_counts_lines_and_bytes() {
    let mut lexer = lexer_for("a\nb #é\r\n\nc");
    assert_eq!(lexer.curr_point.line, 1);
    assert_eq!(lexer.curr_point.file_idx, 0);
    lexer.lex().unwrap();
    assert!(lexer.is_eof());
    assert_eq!(lexer.curr_point.line, 4);
    assert_eq!(lexer.curr_point.file_idx, 11);
    assert_eq!(lexer.curr_point.segment_idx, 9);
    assert_eq!(lexer.tokens[2], Spanned::new(Token::Comment("é".to_string()), 4..7));
    assert_eq!(lexer.tokens[3], Spanned::new(Token::Ident("c".to_string()), 10..11));
}

#[test]
fn one_step_at_a_time() {
    let mut lexer = lexer_for("ab c");
    assert_eq!(lexer.peek(), Some("a".to_string()));
    assert_eq!(lexer.pop(), Some("a".to_string()));
    assert_eq!(lexer.pop_if(|g| g == "x"), None);
    assert_eq!(lexer.pop_if(|g| g == "b"), Some("b".to_string()));
    assert_eq!(lexer.pop_if_all(|c| c.is_ascii_alphabetic()), None);
    lexer.skip_whitespace();
    let start = lexer.curr_point;
    assert_eq!(lexer.pop_ident(None), Some("c".to_string()));
    assert_eq!(lexer.get_span(&start), 3..4);
    assert_eq!(lexer.pop(), None);
    assert_eq!(lexer.pop_ident(None), None);
    assert_eq!(lexer.pop_ident(Some("x")), Some("x".to_string()));
    lexer.add(Token::Arrow, &start);
    assert_eq!(lexer.tokens, vec![Spanned::new(Token::Arrow, 3..4)]);
}

#[test]
fn identifier_characters() {
    assert!(Lexer::is_ident_chr_first('a'));
    assert!(Lexer::is_ident_chr_first('Z'));
    assert!(Lexer::is_ident_chr_first('_'));
    assert!(!Lexer::is_ident_chr_first('0'));
    assert!(!Lexer::is_ident_chr_first('é'));
    assert!(Lexer::is_ident_chr_rest('0'));
    assert!(Lexer::is_ident_chr_rest('_'));
    assert!(!Lexer::is_ident_chr_rest('-'));
}

#[test]
fn lookups() {
    assert!(is_char("{", '{'));
    assert!(!is_char("{{", '{'));
    assert!(!is_char("", '{'));
    assert_eq!(lookup_punctuation(","), Some(AsciiToken::Comma));
    assert_eq!(lookup_punctuation("."), None);
    assert_eq!(lookup_keyword("rpc"), Some(KeywordToken::Rpc));
    assert_eq!(lookup_keyword("Rpc"), None);
    assert_eq!(lookup_builtin("option"), Some(TypeToken::Option));
    assert_eq!(lookup_builtin("@option"), None);
    assert!(same_text("héllo", "héllo"));
    assert!(!same_text("héllo", "hello"));
    assert!(!same_text("a", "ab"));
    assert_eq!(parse_tag("00123"), Some(123));
    assert_eq!(parse_tag("32767"), Some(32767));
    assert_eq!(parse_tag("32768"), None);
    assert_eq!(parse_tag(""), Some(0));
    assert_eq!(parse_tag("12a"), None);
    assert_eq!(parse_tag("-1"), None);
    assert_eq!(parse_tag("99999x"), None);
    assert_eq!(parse_tag("٣"), None);
}

#[test]
fn tokens_are_shown_by_variant() {
    assert_eq!(Token::Arrow.describe(), "Arrow");
    assert_eq!(Token::Ident("foo".to_string()).describe(), "Ident(\"foo\")");
    assert_eq!(Token::Comment("a b".to_string()).describe(), "Comment(\"a b\")");
    assert_eq!(Token::Number(-12).describe(), "Number(-12)");
    assert_eq!(Token::Number(i16::MIN).describe(), "Number(-32768)");
    assert_eq!(Token::Number(0).describe(), "Number(0)");
    assert_eq!(Token::Keyword(KeywordToken::Proc).describe(), "Keyword(Proc)");
    assert_eq!(Token::Ascii(AsciiToken::SemiColon).describe(), "Ascii(SemiColon)");
    assert_eq!(Token::Type(TypeToken::Int(IntToken::UInt16)).describe(), "Type(Int(UInt16))");
    assert_eq!(
        Token::Type(TypeToken::VariableInt(IntToken::Int64)).describe(),
        "Type(VariableInt(Int64))"
    );
    assert_eq!(Token::Type(TypeToken::Array).describe(), "Type(Array)");
    for token in [
        Token::Arrow,
        Token::Ident("foo".to_string()),
        Token::Number(7),
        Token::Keyword(KeywordToken::Import),
        Token::Type(TypeToken::String),
        Token::Ascii(AsciiToken::OpenBracket),
    ] {
        assert_eq!(token.describe(), format!("{token:?}"));
        assert_eq!(token.duplicate(), token);
    }
}

#[test]
fn token_kinds_convert_to_tokens() {
    assert_eq!(Token::from(AsciiToken::Comma), Token::Ascii(AsciiToken::Comma));
    assert_eq!(Token::from(KeywordToken::Rpc), Token::Keyword(KeywordToken::Rpc));
    assert_eq!(Token::from(IntToken::Int32), Token::Type(TypeToken::Int(IntToken::Int32)));
    assert_eq!(Token::from(TypeToken::Option), Token::Type(TypeToken::Option));
    let token: Token = TypeToken::VariableInt(IntToken::UInt8).into();
    assert_eq!(token, Token::Type(TypeToken::VariableInt(IntToken::UInt8)));
}

#[test]
fn the_example_file_lexes() {
    let src = "enum Action {\n  Delete -> 1;\n  SecureDelete -> 2;\n  Encrypt -> 3;\n}\n\nstruct File {\n  path -> @string;\n  size -> @varuint64;\n  content -> @array[@uint8];\n}\n\nrpc {\n  proc getServerVersion() -> @int8;\n  proc getFile(path -> @string, after_action -> @option[Action]) -> File;\n  proc deleteFile(path -> @string);\n}\n";
    let tokens = lex(src).unwrap();
    assert_eq!(tokens.len(), 70);
    assert_eq!(tokens[0], Spanned::new(Token::Keyword(KeywordToken::Enum), 0..4));
    assert_eq!(tokens[1], Spanned::new(Token::Ident("Action".to_string()), 5..11));
    for token in &tokens {
        assert!(token.span.start < token.span.end);
        assert!(token.span.end <= src.len());
        let text = &src[token.span.clone()];
        match &token.value {
            Token::Ident(name) => assert_eq!(text, name),
            Token::Arrow => assert_eq!(text, "->"),
            Token::Number(number) => assert_eq!(text, number.to_string()),
            Token::Type(_) => assert!(text.starts_with('@')),
            _ => {}
        }
    }
}
