//! The parser of the interface-definition language.
//!
//! ```text
//! file   := ( enum | struct | rpc | import )*
//! import := 'import' Ident ';'
//! enum   := 'enum' Ident '{' ( Ident '->' Number ';' )* '}'
//! struct := 'struct' Ident '{' ( Ident '->' Type ';' )* '}'
//! rpc    := 'rpc' '{' ( 'proc' Ident '(' Params? ')' ( '->' Type )? ';' )* '}'
//! Params := Ident '->' Type ( ',' Ident '->' Type )*
//! Type   := '@int8' .. '@uint64' | '@varint8' .. '@varuint64' | '@string'
//!         | '@array' '[' Type ']' | '@option' '[' Type ']' | Ident
//! ```
//!
//! Comments are dropped before parsing. The first failure ends parsing; what
//! was declared before it stays.

use crate::ast::{
    fields_within, file_within, procedures_within, span_within, variants_within, EnumView,
    FieldView, FileView, ParsedBultin, ParsedEnum, ParsedEnumVariant, ParsedProcedure,
    ParsedProcedureParam, ParsedRpcContainer, ParsedStruct, ParsedStructField, ParsedTypeKind,
    ProcedureView, StructView, TypeView, VariantView,
};
use crate::spanned::{copy_span, simple_error, ErrorView, OlympusError, Spanned};
use crate::token::{
    describe, AsciiToken, KeywordToken, SpannedToken, Token, TokenView, TypeToken,
};
use std::ops::Range;
use vstd::prelude::*;

verus! {

/// The tokens that the grammar asks for by name.
#[derive(Debug, Clone, Copy, PartialEq, Eq, Structural)]
pub enum Mark {
    Arrow,
    Ascii(AsciiToken),
}

/// True when the token is the one that the mark names.
pub open spec fn is_mark(token: TokenView, mark: Mark) -> bool {
    match mark {
        Mark::Arrow => token == TokenView::Arrow,
        Mark::Ascii(ascii) => token == TokenView::Ascii(ascii),
    }
}

/// The tokens without the comments.
pub open spec fn significant(tokens: Seq<Spanned<TokenView>>) -> Seq<Spanned<TokenView>>
    decreases tokens.len(),
{
    if tokens.len() == 0 {
        Seq::empty()
    } else if tokens.last().value is Comment {
        significant(tokens.drop_last())
    } else {
        significant(tokens.drop_last()).push(tokens.last())
    }
}

/// The span of token `i`, or the empty span at the start where there is no such token.
pub open spec fn span_at(toks: Seq<Spanned<TokenView>>, i: int) -> Range<usize> {
    if 0 <= i < toks.len() {
        toks[i].span
    } else {
        Range { start: 0, end: 0 }
    }
}

/// What parsing a piece of syntax gives: the piece and the position behind
/// it, or the diagnostic.
pub type Parsed<T> = Result<(T, int), ErrorView>;

pub open spec fn fail<T>(message: Seq<char>, span: Range<usize>) -> Result<T, ErrorView> {
    Err(simple_error(message, span))
}

/// The marked token is asked for at position `p`. Where the tokens have run
/// out, the failure points two tokens back; where another token stands, it
/// points at the token before.
pub open spec fn expect(toks: Seq<Spanned<TokenView>>, p: int, mark: Mark, message: Seq<char>) -> Result<
    int,
    ErrorView,
> {
    if p < 0 || p >= toks.len() {
        fail("Expected token after"@, span_at(toks, p - 2))
    } else if !is_mark(toks[p].value, mark) {
        fail(message, span_at(toks, p - 1))
    } else {
        Ok(p + 1)
    }
}

/// An identifier is asked for at position `p`.
pub open spec fn expect_ident(toks: Seq<Spanned<TokenView>>, p: int, message: Seq<char>) -> Parsed<
    Spanned<Seq<char>>,
> {
    if 0 <= p < toks.len() && toks[p].value is Ident {
        Ok((Spanned { value: toks[p].value->Ident_0, span: toks[p].span }, p + 1))
    } else {
        fail(message, span_at(toks, p - 1))
    }
}

/// A number is asked for at position `p`.
pub open spec fn expect_number(toks: Seq<Spanned<TokenView>>, p: int, message: Seq<char>) -> Parsed<
    i16,
> {
    if 0 <= p < toks.len() && toks[p].value is Number {
        Ok((toks[p].value->Number_0, p + 1))
    } else {
        fail(message, span_at(toks, p - 1))
    }
}

/// The type in square brackets behind `@array` or `@option`, from position
/// `p` on. An array or option that stands directly inside the brackets has
/// the span of the token before the brackets.
pub open spec fn parse_generic(toks: Seq<Spanned<TokenView>>, p: int) -> Parsed<Spanned<TypeView>>
    decreases toks.len() - p,
{
    match expect(toks, p, Mark::Ascii(AsciiToken::OpenBracket), "Expected generic type"@) {
        Err(e) => Err(e),
        Ok(q) => {
            if q >= toks.len() {
                fail("Expected generic type"@, span_at(toks, q - 1))
            } else {
                let inner: Parsed<Spanned<TypeView>> = match toks[q].value {
                    TokenView::Ident(name) => Ok(
                        (Spanned { value: TypeView::External(name), span: toks[q].span }, q + 1),
                    ),
                    TokenView::Type(TypeToken::Int(width)) => Ok(
                        (Spanned { value: TypeView::Int(width), span: toks[q].span }, q + 1),
                    ),
                    TokenView::Type(TypeToken::VariableInt(width)) => Ok(
                        (Spanned { value: TypeView::VariableInt(width), span: toks[q].span }, q + 1),
                    ),
                    TokenView::Type(TypeToken::String) => Ok(
                        (Spanned { value: TypeView::String, span: toks[q].span }, q + 1),
                    ),
                    TokenView::Type(TypeToken::Array) => match parse_generic(toks, q + 1) {
                        Ok((elem, r)) => Ok(
                            (
                                Spanned {
                                    value: TypeView::Array(Box::new(elem)),
                                    span: span_at(toks, p - 1),
                                },
                                r,
                            ),
                        ),
                        Err(e) => Err(e),
                    },
                    TokenView::Type(TypeToken::Option) => match parse_generic(toks, q + 1) {
                        Ok((elem, r)) => Ok(
                            (
                                Spanned {
                                    value: TypeView::Option(Box::new(elem)),
                                    span: span_at(toks, p - 1),
                                },
                                r,
                            ),
                        ),
                        Err(e) => Err(e),
                    },
                    _ => fail("Expected type"@, toks[q].span),
                };
                match inner {
                    Err(e) => Err(e),
                    Ok((ty, r)) => match expect(
                        toks,
                        r,
                        Mark::Ascii(AsciiToken::CloseBracket),
                        "Expected ']' after generic type"@,
                    ) {
                        Err(e) => Err(e),
                        Ok(s) => Ok((ty, s)),
                    },
                }
            }
        },
    }
}

/// The type that starts with the token at position `p`.
pub open spec fn type_from(toks: Seq<Spanned<TokenView>>, p: int) -> Parsed<Spanned<TypeView>> {
    match toks[p].value {
        TokenView::Ident(name) => Ok(
            (Spanned { value: TypeView::External(name), span: toks[p].span }, p + 1),
        ),
        TokenView::Type(TypeToken::Int(width)) => Ok(
            (Spanned { value: TypeView::Int(width), span: toks[p].span }, p + 1),
        ),
        TokenView::Type(TypeToken::VariableInt(width)) => Ok(
            (Spanned { value: TypeView::VariableInt(width), span: toks[p].span }, p + 1),
        ),
        TokenView::Type(TypeToken::String) => Ok(
            (Spanned { value: TypeView::String, span: toks[p].span }, p + 1),
        ),
        TokenView::Type(TypeToken::Array) => match parse_generic(toks, p + 1) {
            Ok((elem, r)) => Ok(
                (Spanned { value: TypeView::Array(Box::new(elem)), span: toks[p].span }, r),
            ),
            Err(e) => Err(e),
        },
        TokenView::Type(TypeToken::Option) => match parse_generic(toks, p + 1) {
            Ok((elem, r)) => Ok(
                (Spanned { value: TypeView::Option(Box::new(elem)), span: toks[p].span }, r),
            ),
            Err(e) => Err(e),
        },
        _ => fail("Expected type"@, toks[p].span),
    }
}

/// A type is asked for at position `p`.
pub open spec fn parse_type(toks: Seq<Spanned<TokenView>>, p: int) -> Parsed<Spanned<TypeView>> {
    if p < 0 || p >= toks.len() {
        fail("Expected type"@, span_at(toks, p))
    } else {
        type_from(toks, p)
    }
}

/// A type ends behind where it starts, and inside the tokens.
pub proof fn lemma_generic_advances(toks: Seq<Spanned<TokenView>>, p: int)
    requires
        0 <= p,
    ensures
        parse_generic(toks, p) matches Ok((_, q)) ==> p < q <= toks.len(),
    decreases toks.len() - p,
{
    if p < toks.len() && p + 1 < toks.len() {
        match toks[p + 1].value {
            TokenView::Type(TypeToken::Array) => lemma_generic_advances(toks, p + 2),
            TokenView::Type(TypeToken::Option) => lemma_generic_advances(toks, p + 2),
            _ => {},
        }
    }
}

/// A type ends behind where it starts, and inside the tokens.
pub proof fn lemma_type_advances(toks: Seq<Spanned<TokenView>>, p: int)
    requires
        0 <= p,
    ensures
        parse_type(toks, p) matches Ok((_, q)) ==> p < q <= toks.len(),
{
    lemma_generic_advances(toks, p + 1);
}

/// The rest of an enum variant, whose name stands at position `p`.
pub open spec fn parse_variant(toks: Seq<Spanned<TokenView>>, p: int) -> Parsed<VariantView> {
    match expect(toks, p + 1, Mark::Arrow, "Expected '->' after Enum Ident"@) {
        Err(e) => Err(e),
        Ok(q) => match expect_number(toks, q, "Expected enum tag"@) {
            Err(e) => Err(e),
            Ok((value, r)) => match expect(
                toks,
                r,
                Mark::Ascii(AsciiToken::SemiColon),
                "Expected ';' after Enum Value"@,
            ) {
                Err(e) => Err(e),
                Ok(s) => Ok(
                    (
                        VariantView {
                            ident: Spanned { value: toks[p].value->Ident_0, span: toks[p].span },
                            value,
                        },
                        s,
                    ),
                ),
            },
        },
    }
}

/// The variants of an enum up to its closing brace, from position `p` on,
/// behind the variants `acc`.
pub open spec fn parse_variants(
    toks: Seq<Spanned<TokenView>>,
    p: int,
    acc: Seq<VariantView>,
) -> Parsed<Seq<VariantView>>
    decreases toks.len() - p,
{
    if p < 0 || p >= toks.len() {
        fail("Expected token after"@, span_at(toks, p - 1))
    } else {
        match toks[p].value {
            TokenView::Ident(_) => match parse_variant(toks, p) {
                Err(e) => Err(e),
                Ok((variant, q)) => parse_variants(toks, q, acc.push(variant)),
            },
            TokenView::Ascii(AsciiToken::CloseBrace) => Ok((acc, p + 1)),
            other => fail("Expected '}' or Ident. Got: "@ + describe(other), toks[p].span),
        }
    }
}

/// An enum declaration, from behind its keyword at position `p` on.
pub open spec fn parse_enum(toks: Seq<Spanned<TokenView>>, p: int) -> Parsed<EnumView> {
    match expect_ident(toks, p, "Expected Ident for enum"@) {
        Err(e) => Err(e),
        Ok((ident, q)) => match expect(
            toks,
            q,
            Mark::Ascii(AsciiToken::OpenBrace),
            "Expected '{' after Enum Ident"@,
        ) {
            Err(e) => Err(e),
            Ok(r) => match parse_variants(toks, r, Seq::empty()) {
                Err(e) => Err(e),
                Ok((variants, s)) => Ok((EnumView { ident, variants }, s)),
            },
        },
    }
}

/// The rest of a struct field, whose name stands at position `p`.
pub open spec fn parse_field(toks: Seq<Spanned<TokenView>>, p: int) -> Parsed<FieldView> {
    match expect(toks, p + 1, Mark::Arrow, "Expected '->' after ident"@) {
        Err(e) => Err(e),
        Ok(q) => match parse_type(toks, q) {
            Err(e) => Err(e),
            Ok((kind, r)) => match expect(
                toks,
                r,
                Mark::Ascii(AsciiToken::SemiColon),
                "Expected ';' after type"@,
            ) {
                Err(e) => Err(e),
                Ok(s) => Ok(
                    (
                        FieldView {
                            ident: Spanned { value: toks[p].value->Ident_0, span: toks[p].span },
                            kind,
                        },
                        s,
                    ),
                ),
            },
        },
    }
}

/// A field ends behind its name, and inside the tokens.
pub proof fn lemma_field_advances(toks: Seq<Spanned<TokenView>>, p: int)
    requires
        0 <= p,
    ensures
        parse_field(toks, p) matches Ok((_, q)) ==> p < q <= toks.len(),
{
    lemma_type_advances(toks, p + 2);
}

/// The fields of a struct up to its closing brace, from position `p` on,
/// behind the fields `acc`.
pub open spec fn parse_fields(toks: Seq<Spanned<TokenView>>, p: int, acc: Seq<FieldView>) -> Parsed<
    Seq<FieldView>,
>
    decreases toks.len() - p,
{
    if p < 0 || p >= toks.len() {
        fail("Expected token after"@, span_at(toks, p - 1))
    } else {
        match toks[p].value {
            TokenView::Ident(_) => match parse_field(toks, p) {
                Err(e) => Err(e),
                Ok((field, q)) => {
                    proof {
                        lemma_field_advances(toks, p);
                    }
                    parse_fields(toks, q, acc.push(field))
                },
            },
            TokenView::Ascii(AsciiToken::CloseBrace) => Ok((acc, p + 1)),
            other => fail("Expected '}' or ident. Got: "@ + describe(other), toks[p].span),
        }
    }
}

/// A struct declaration, from behind its keyword at position `p` on.
pub open spec fn parse_struct(toks: Seq<Spanned<TokenView>>, p: int) -> Parsed<StructView> {
    match expect_ident(toks, p, "Expected Ident for data"@) {
        Err(e) => Err(e),
        Ok((ident, q)) => match expect(
            toks,
            q,
            Mark::Ascii(AsciiToken::OpenBrace),
            "Expected '{' after ident"@,
        ) {
            Err(e) => Err(e),
            Ok(r) => match parse_fields(toks, r, Seq::empty()) {
                Err(e) => Err(e),
                Ok((fields, s)) => Ok((StructView { ident, fields }, s)),
            },
        },
    }
}

/// The rest of a parameter, whose name stands at position `p`.
pub open spec fn parse_param(toks: Seq<Spanned<TokenView>>, p: int) -> Parsed<FieldView> {
    match expect(toks, p + 1, Mark::Arrow, "Expected '->' after ident"@) {
        Err(e) => Err(e),
        Ok(q) => match parse_type(toks, q) {
            Err(e) => Err(e),
            Ok((kind, r)) => Ok(
                (
                    FieldView {
                        ident: Spanned { value: toks[p].value->Ident_0, span: toks[p].span },
                        kind,
                    },
                    r,
                ),
            ),
        },
    }
}

/// A parameter ends behind its name, and inside the tokens.
pub proof fn lemma_param_advances(toks: Seq<Spanned<TokenView>>, p: int)
    requires
        0 <= p,
    ensures
        parse_param(toks, p) matches Ok((_, q)) ==> p < q <= toks.len(),
{
    lemma_type_advances(toks, p + 2);
}

/// The parameters of a procedure up to the closing bracket, from position
/// `p` on, behind the parameters `acc`. The closing bracket may stand at `p`
/// only where no parameter came before; behind a parameter stands a comma
/// or the closing bracket.
pub open spec fn parse_params(toks: Seq<Spanned<TokenView>>, p: int, acc: Seq<FieldView>) -> Parsed<
    Seq<FieldView>,
>
    decreases toks.len() - p,
{
    if p < 0 || p >= toks.len() {
        fail("Expected token after"@, span_at(toks, p - 1))
    } else {
        match toks[p].value {
            TokenView::Ident(_) => match parse_param(toks, p) {
                Err(e) => Err(e),
                Ok((param, q)) => {
                    if q < 0 || q >= toks.len() {
                        fail("Expected token after"@, span_at(toks, q - 1))
                    } else {
                        match toks[q].value {
                            TokenView::Ascii(AsciiToken::Comma) => {
                                proof {
                                    lemma_param_advances(toks, p);
                                }
                                parse_params(toks, q + 1, acc.push(param))
                            },
                            TokenView::Ascii(AsciiToken::CloseParen) => Ok((acc.push(param), q + 1)),
                            other => fail(
                                "Expected ',' or ')'. Got: "@ + describe(other),
                                toks[q].span,
                            ),
                        }
                    }
                },
            },
            TokenView::Ascii(AsciiToken::CloseParen) => if acc.len() == 0 {
                Ok((acc, p + 1))
            } else {
                fail("Expected ident. Got: "@ + describe(toks[p].value), toks[p].span)
            },
            other => if acc.len() == 0 {
                fail("Expected ident or ')'. Got: "@ + describe(other), toks[p].span)
            } else {
                fail("Expected ident. Got: "@ + describe(other), toks[p].span)
            },
        }
    }
}

/// A parameter list ends behind where it starts, and inside the tokens.
pub proof fn lemma_params_advance(toks: Seq<Spanned<TokenView>>, p: int, acc: Seq<FieldView>)
    requires
        0 <= p,
    ensures
        parse_params(toks, p, acc) matches Ok((_, q)) ==> p < q <= toks.len(),
    decreases toks.len() - p,
{
    if p < toks.len() && toks[p].value is Ident {
        lemma_param_advances(toks, p);
        if let Ok((param, q)) = parse_param(toks, p) {
            if q < toks.len() && toks[q].value == TokenView::Ascii(AsciiToken::Comma) {
                lemma_params_advance(toks, q + 1, acc.push(param));
            }
        }
    }
}

/// What a procedure returns, from behind its parameters at position `p` on.
/// Without an arrow it returns nothing, and that type has the span of the
/// token before the semicolon.
pub open spec fn parse_return(toks: Seq<Spanned<TokenView>>, p: int) -> Parsed<Spanned<TypeView>> {
    if 0 <= p < toks.len() && toks[p].value == TokenView::Ascii(AsciiToken::SemiColon) {
        Ok((Spanned { value: TypeView::Nothing, span: span_at(toks, p - 1) }, p + 1))
    } else {
        match expect(toks, p, Mark::Arrow, "Expected '->' after params"@) {
            Err(e) => Err(e),
            Ok(q) => match parse_type(toks, q) {
                Err(e) => Err(e),
                Ok((kind, r)) => match expect(
                    toks,
                    r,
                    Mark::Ascii(AsciiToken::SemiColon),
                    "Expected ';' after return type"@,
                ) {
                    Err(e) => Err(e),
                    Ok(s) => Ok((kind, s)),
                },
            },
        }
    }
}

/// A procedure, from behind its keyword at position `p` on.
pub open spec fn parse_proc(toks: Seq<Spanned<TokenView>>, p: int) -> Parsed<ProcedureView> {
    match expect_ident(toks, p, "Expected ident"@) {
        Err(e) => Err(e),
        Ok((ident, q)) => match expect(
            toks,
            q,
            Mark::Ascii(AsciiToken::OpenParen),
            "Expected '(' after ident"@,
        ) {
            Err(e) => Err(e),
            Ok(r) => match parse_params(toks, r, Seq::empty()) {
                Err(e) => Err(e),
                Ok((params, s)) => match parse_return(toks, s) {
                    Err(e) => Err(e),
                    Ok((return_kind, t)) => Ok((ProcedureView { ident, params, return_kind }, t)),
                },
            },
        },
    }
}

/// A procedure ends behind where it starts, and inside the tokens.
pub proof fn lemma_proc_advances(toks: Seq<Spanned<TokenView>>, p: int)
    requires
        0 <= p,
    ensures
        parse_proc(toks, p) matches Ok((_, q)) ==> p < q <= toks.len(),
{
    lemma_params_advance(toks, p + 2, Seq::empty());
    if let Ok((_, s)) = parse_params(toks, p + 2, Seq::empty()) {
        lemma_type_advances(toks, s + 1);
    }
}

/// The procedures of an `rpc` block up to its closing brace, from position
/// `p` on, behind the procedures `acc`.
pub open spec fn parse_procs(
    toks: Seq<Spanned<TokenView>>,
    p: int,
    acc: Seq<ProcedureView>,
) -> Parsed<Seq<ProcedureView>>
    decreases toks.len() - p,
{
    if p < 0 || p >= toks.len() {
        fail("Expected token after"@, span_at(toks, p - 1))
    } else {
        match toks[p].value {
            TokenView::Keyword(KeywordToken::Proc) => match parse_proc(toks, p + 1) {
                Err(e) => Err(e),
                Ok((procedure, q)) => {
                    proof {
                        lemma_proc_advances(toks, p + 1);
                    }
                    parse_procs(toks, q, acc.push(procedure))
                },
            },
            TokenView::Ascii(AsciiToken::CloseBrace) => Ok((acc, p + 1)),
            other => fail("Expected '}' or proc. Got: "@ + describe(other), toks[p].span),
        }
    }
}

/// An `rpc` block, from behind its keyword at position `p` on.
pub open spec fn parse_rpc(toks: Seq<Spanned<TokenView>>, p: int) -> Parsed<Seq<ProcedureView>> {
    match expect(toks, p, Mark::Ascii(AsciiToken::OpenBrace), "Expected '{' after server"@) {
        Err(e) => Err(e),
        Ok(q) => parse_procs(toks, q, Seq::empty()),
    }
}

/// An import, from behind its keyword at position `p` on.
pub open spec fn parse_import(toks: Seq<Spanned<TokenView>>, p: int) -> Parsed<Spanned<Seq<char>>> {
    match expect_ident(toks, p, "Expected Ident for import"@) {
        Err(e) => Err(e),
        Ok((ident, q)) => match expect(
            toks,
            q,
            Mark::Ascii(AsciiToken::SemiColon),
            "Expected ';' after import"@,
        ) {
            Err(e) => Err(e),
            Ok(r) => Ok((ident, r)),
        },
    }
}

/// What parsing gives: the declarations read, and the diagnostic that ended
/// parsing if there was one.
pub struct ParseOutcome {
    pub file: FileView,
    pub error: Option<ErrorView>,
}

/// One declaration, which starts at position `p`, added to `file`.
pub open spec fn parse_item(toks: Seq<Spanned<TokenView>>, p: int, file: FileView) -> Parsed<
    FileView,
> {
    match toks[p].value {
        TokenView::Comment(_) => Ok((file, p + 1)),
        TokenView::Keyword(KeywordToken::Enum) => match parse_enum(toks, p + 1) {
            Err(e) => Err(e),
            Ok((parsed, q)) => Ok((FileView { enums: file.enums.push(parsed), ..file }, q)),
        },
        TokenView::Keyword(KeywordToken::Struct) => match parse_struct(toks, p + 1) {
            Err(e) => Err(e),
            Ok((parsed, q)) => Ok((FileView { structs: file.structs.push(parsed), ..file }, q)),
        },
        TokenView::Keyword(KeywordToken::Rpc) => match parse_rpc(toks, p + 1) {
            Err(e) => Err(e),
            Ok((procedures, q)) => Ok(
                (FileView { procedures: file.procedures + procedures, ..file }, q),
            ),
        },
        TokenView::Keyword(KeywordToken::Proc) => fail(
            "This is a bug. Proc shouldn't be parsed here."@,
            toks[p].span,
        ),
        TokenView::Keyword(KeywordToken::Import) => match parse_import(toks, p + 1) {
            Err(e) => Err(e),
            Ok((ident, q)) => Ok((FileView { imports: file.imports.push(ident), ..file }, q)),
        },
        other => fail("Unexpected token: "@ + describe(other), toks[p].span),
    }
}

/// The declarations from position `p` to the end of the tokens, added to `file`.
pub open spec fn parse_items(toks: Seq<Spanned<TokenView>>, p: int, file: FileView) -> ParseOutcome
    decreases toks.len() - p,
{
    if p < 0 || p >= toks.len() {
        ParseOutcome { file, error: None }
    } else {
        match parse_item(toks, p, file) {
            Err(e) => ParseOutcome { file, error: Some(e) },
            Ok((next, q)) => if p < q <= toks.len() {
                parse_items(toks, q, next)
            } else {
                ParseOutcome { file: next, error: None }
            },
        }
    }
}

/// The file that declares nothing.
pub open spec fn empty_file() -> FileView {
    FileView {
        imports: Seq::empty(),
        enums: Seq::empty(),
        structs: Seq::empty(),
        procedures: Seq::empty(),
    }
}

/// What parsing a whole token sequence gives.
pub open spec fn parse_file(tokens: Seq<Spanned<TokenView>>) -> ParseOutcome {
    parse_items(significant(tokens), 0, empty_file())
}

#[derive(Debug)]
pub struct Parser {
    pub tokens: Vec<SpannedToken>,
    pub token_idx: usize,
    pub imports: Vec<Spanned<String>>,
    pub enums: Vec<ParsedEnum>,
    pub structs: Vec<ParsedStruct>,
    pub rpc_container: ParsedRpcContainer,
}

/// A copy of a spanned token.
pub fn copy_token(token: &SpannedToken) -> (copy: SpannedToken)
    ensures
        copy.deep_view() == token.deep_view(),
{
    Spanned { value: token.value.duplicate(), span: copy_span(&token.span) }
}

/// The exec form of [`is_mark`].
fn matches_mark(token: &Token, mark: Mark) -> (same: bool)
    ensures
        same == is_mark(token.deep_view(), mark),
{
    match (token, mark) {
        (Token::Arrow, Mark::Arrow) => true,
        (Token::Ascii(found), Mark::Ascii(wanted)) => *found == wanted,
        _ => false,
    }
}

/// `prefix` followed by how the token is shown.
fn unexpected(prefix: &str, token: &Token) -> (message: String)
    ensures
        message@ == prefix@ + describe(token.deep_view()),
{
    let mut message = String::from_str(prefix);
    message.append(token.describe().as_str());
    message
}

impl Parser {
    /// The tokens that are parsed: those given to `new`, without the comments.
    pub open spec fn toks(&self) -> Seq<Spanned<TokenView>> {
        self.tokens.deep_view()
    }

    /// The position of the next token.
    pub open spec fn pos(&self) -> int {
        self.token_idx as int
    }

    /// The declarations read so far.
    pub open spec fn file(&self) -> FileView {
        FileView {
            imports: self.imports.deep_view(),
            enums: self.enums.deep_view(),
            structs: self.structs.deep_view(),
            procedures: self.rpc_container.procedures.deep_view(),
        }
    }

    /// The position lies inside the tokens or directly behind them.
    pub open spec fn wf(&self) -> bool {
        self.token_idx <= self.tokens.len()
    }

    /// True when `next` is this parser further on in the same tokens, with
    /// the same declarations.
    pub open spec fn stepped(&self, next: &Parser) -> bool {
        &&& next.wf()
        &&& next.toks() == self.toks()
        &&& next.file() == self.file()
        &&& self.pos() <= next.pos() <= self.toks().len()
    }

    /// A parser at the start of the tokens, with nothing declared.
    pub fn new(tokens: Vec<SpannedToken>) -> (parser: Self)
        ensures
            parser.wf(),
            parser.toks() == significant(tokens.deep_view()),
            parser.pos() == 0,
            parser.file() == empty_file(),
    {
        let mut kept: Vec<SpannedToken> = Vec::new();
        let mut i: usize = 0;
        assert(tokens.deep_view().take(0) =~= Seq::empty());
        while i < tokens.len()
            invariant
                i <= tokens.len(),
                kept.deep_view() == significant(tokens.deep_view().take(i as int)),
            decreases tokens.len() - i,
        {
            let ghost before = kept.deep_view();
            proof {
                let next = tokens.deep_view().take(i + 1);
                assert(next.drop_last() =~= tokens.deep_view().take(i as int));
                assert(next.last() == tokens[i as int].deep_view());
            }
            match &tokens[i].value {
                Token::Comment(_) => {},
                _ => {
                    kept.push(copy_token(&tokens[i]));
                    assert(kept.deep_view() =~= before.push(tokens[i as int].deep_view()));
                },
            }
            i += 1;
        }
        assert(tokens.deep_view().take(i as int) =~= tokens.deep_view());
        let parser = Self {
            tokens: kept,
            token_idx: 0,
            imports: Vec::new(),
            enums: Vec::new(),
            structs: Vec::new(),
            rpc_container: ParsedRpcContainer { procedures: Vec::new() },
        };
        assert(parser.file().imports =~= Seq::empty());
        assert(parser.file().enums =~= Seq::empty());
        assert(parser.file().structs =~= Seq::empty());
        assert(parser.file().procedures =~= Seq::empty());
        parser
    }

    /// The next token, if any.
    fn peek(&self) -> (next: Option<SpannedToken>)
        requires
            self.wf(),
        ensures
            match next {
                Some(token) => self.pos() < self.toks().len() && token.deep_view()
                    == self.toks()[self.pos()],
                None => self.pos() == self.toks().len(),
            },
    {
        if self.token_idx < self.tokens.len() {
            Some(copy_token(&self.tokens[self.token_idx]))
        } else {
            None
        }
    }

    /// Takes the next token, if any.
    fn pop(&mut self) -> (next: Option<SpannedToken>)
        requires
            old(self).wf(),
        ensures
            old(self).stepped(final(self)),
            match next {
                Some(token) => {
                    &&& old(self).pos() < old(self).toks().len()
                    &&& token.deep_view() == old(self).toks()[old(self).pos()]
                    &&& final(self).pos() == old(self).pos() + 1
                },
                None => old(self).pos() == old(self).toks().len() && final(self).pos() == old(self).pos(),
            },
    {
        let next = self.peek();
        if next.is_some() {
            self.token_idx += 1;
        }
        next
    }

    /// The span of the token `offset` places from the one last taken.
    fn get_span(&self, offset: isize) -> (span: Range<usize>)
        requires
            self.wf(),
        ensures
            span == span_at(self.toks(), self.pos() - 1 + offset),
    {
        let idx: i128 = self.token_idx as i128 - 1 + offset as i128;
        if 0 <= idx && idx < self.tokens.len() as i128 {
            copy_span(&self.tokens[idx as usize].span)
        } else {
            0..0
        }
    }

    /// Takes the next token, which has to be the marked one.
    fn pop_must_match(&mut self, mark: Mark, error: &str) -> (res: Result<SpannedToken, OlympusError>)
        requires
            old(self).wf(),
        ensures
            old(self).stepped(final(self)),
            match expect(old(self).toks(), old(self).pos(), mark, error@) {
                Ok(q) => res is Ok && final(self).pos() == q,
                Err(e) => res matches Err(err) && err@ == e,
            },
    {
        let next = match self.peek() {
            Some(next) => next,
            None => {
                return Err(OlympusError::error("Expected token after", self.get_span(-1)));
            },
        };
        if !matches_mark(&next.value, mark) {
            return Err(OlympusError::error(error, self.get_span(0)));
        }
        self.token_idx += 1;
        Ok(next)
    }

    /// Takes the next token, which has to be an identifier.
    fn next_ident(&mut self, error: &str) -> (res: Result<Spanned<String>, OlympusError>)
        requires
            old(self).wf(),
        ensures
            old(self).stepped(final(self)),
            match expect_ident(old(self).toks(), old(self).pos(), error@) {
                Ok((ident, q)) => res matches Ok(found) && found.deep_view() == ident && final(self).pos() == q,
                Err(e) => res matches Err(err) && err@ == e,
            },
    {
        match self.peek() {
            Some(Spanned { value: Token::Ident(name), span }) => {
                self.token_idx += 1;
                Ok(Spanned::new(name, span))
            },
            _ => Err(OlympusError::error(error, self.get_span(0))),
        }
    }

    /// Takes the next token, which has to be a number.
    fn next_number(&mut self, error: &str) -> (res: Result<i16, OlympusError>)
        requires
            old(self).wf(),
        ensures
            old(self).stepped(final(self)),
            match expect_number(old(self).toks(), old(self).pos(), error@) {
                Ok((value, q)) => res == Ok::<i16, OlympusError>(value) && final(self).pos() == q,
                Err(e) => res matches Err(err) && err@ == e,
            },
    {
        match self.peek() {
            Some(Spanned { value: Token::Number(value), .. }) => {
                self.token_idx += 1;
                Ok(value)
            },
            _ => Err(OlympusError::error(error, self.get_span(0))),
        }
    }

    /// Reads every declaration up to the end of the tokens, or up to the
    /// first failure.
    pub fn parse(&mut self) -> (res: Result<(), OlympusError>)
        requires
            old(self).wf(),
        ensures
            final(self).wf(),
            final(self).toks() == old(self).toks(),
            ({
                let out = parse_items(old(self).toks(), old(self).pos(), old(self).file());
                &&& final(self).file() == out.file
                &&& match res {
                    Ok(_) => out.error is None && final(self).pos() == old(self).toks().len(),
                    Err(err) => out.error == Some(err@),
                }
            }),
    {
        let ghost toks = self.toks();
        let ghost total = parse_items(toks, self.pos(), self.file());
        while self.token_idx < self.tokens.len()
            invariant
                self.wf(),
                self.toks() == toks,
                toks == old(self).toks(),
                total == parse_items(toks, old(self).pos(), old(self).file()),
                parse_items(toks, self.pos(), self.file()) == total,
            decreases toks.len() - self.pos(),
        {
            let ghost p = self.pos();
            let ghost file = self.file();
            let token = match self.pop() {
                Some(token) => token,
                None => {
                    return Ok(());
                },
            };
            match &token.value {
                Token::Comment(_) => {},
                Token::Keyword(keyword) => match keyword {
                    KeywordToken::Enum => {
                        proof {
                            lemma_enum_advances(toks, p + 1);
                        }
                        self.parse_enum()?
                    },
                    KeywordToken::Struct => {
                        proof {
                            lemma_struct_advances(toks, p + 1);
                        }
                        self.parse_data()?
                    },
                    KeywordToken::Rpc => {
                        proof {
                            lemma_procs_advance(toks, p + 2, Seq::empty());
                        }
                        self.parse_server()?
                    },
                    KeywordToken::Proc => {
                        return Err(
                            OlympusError::error(
                                "This is a bug. Proc shouldn't be parsed here.",
                                self.get_span(0),
                            ),
                        );
                    },
                    KeywordToken::Import => {
                        let ident = self.next_ident("Expected Ident for import")?;
                        self.pop_must_match(
                            Mark::Ascii(AsciiToken::SemiColon),
                            "Expected ';' after import",
                        )?;
                        self.imports.push(ident);
                        assert(self.file().imports =~= file.imports.push(ident.deep_view()));
                    },
                },
                other => {
                    return Err(
                        OlympusError::error(
                            unexpected("Unexpected token: ", other).as_str(),
                            self.get_span(0),
                        ),
                    );
                },
            }
        }
        Ok(())
    }

    /// Reads the variants of an enum up to its closing brace.
    fn enum_gather_variants(&mut self) -> (res: Result<Vec<ParsedEnumVariant>, OlympusError>)
        requires
            old(self).wf(),
        ensures
            old(self).stepped(final(self)),
            match parse_variants(old(self).toks(), old(self).pos(), Seq::empty()) {
                Ok((variants, q)) => res matches Ok(found) && found.deep_view() == variants
                    && final(self).pos() == q,
                Err(e) => res matches Err(err) && err@ == e,
            },
    {
        let ghost toks = self.toks();
        let mut res: Vec<ParsedEnumVariant> = Vec::new();
        assert(res.deep_view() =~= Seq::empty());
        loop
            invariant
                old(self).stepped(self),
                toks == self.toks(),
                parse_variants(toks, self.pos(), res.deep_view()) == parse_variants(
                    toks,
                    old(self).pos(),
                    Seq::empty(),
                ),
            decreases toks.len() - self.pos(),
        {
            let ghost acc = res.deep_view();
            let token = match self.pop() {
                Some(token) => token,
                None => {
                    return Err(OlympusError::error("Expected token after", self.get_span(0)));
                },
            };
            match token.value {
                Token::Ident(ident) => {
                    self.pop_must_match(Mark::Arrow, "Expected '->' after Enum Ident")?;
                    let value = self.next_number("Expected enum tag")?;
                    self.pop_must_match(
                        Mark::Ascii(AsciiToken::SemiColon),
                        "Expected ';' after Enum Value",
                    )?;
                    let variant = ParsedEnumVariant { ident: Spanned::new(ident, token.span), value };
                    res.push(variant);
                    assert(res.deep_view() =~= acc.push(variant.deep_view()));
                },
                Token::Ascii(AsciiToken::CloseBrace) => {
                    return Ok(res);
                },
                other => {
                    return Err(
                        OlympusError::error(
                            unexpected("Expected '}' or Ident. Got: ", &other).as_str(),
                            self.get_span(0),
                        ),
                    );
                },
            }
        }
    }

    /// Reads an enum declaration, whose keyword has just been taken.
    fn parse_enum(&mut self) -> (res: Result<(), OlympusError>)
        requires
            old(self).wf(),
        ensures
            final(self).wf(),
            final(self).toks() == old(self).toks(),
            match parse_enum(old(self).toks(), old(self).pos()) {
                Ok((parsed, q)) => {
                    &&& res is Ok
                    &&& final(self).pos() == q
                    &&& final(self).file() == (FileView {
                        enums: old(self).file().enums.push(parsed),
                        ..old(self).file()
                    })
                },
                Err(e) => res matches Err(err) && err@ == e && final(self).file() == old(self).file(),
            },
    {
        let ident = self.next_ident("Expected Ident for enum")?;
        self.pop_must_match(Mark::Ascii(AsciiToken::OpenBrace), "Expected '{' after Enum Ident")?;
        let variants = self.enum_gather_variants()?;
        let parsed = ParsedEnum { ident, variants };
        self.enums.push(parsed);
        assert(self.file().enums =~= old(self).file().enums.push(parsed.deep_view()));
        Ok(())
    }

    /// Reads the type in square brackets behind `@array` or `@option`.
    fn parse_generic_type(&mut self) -> (res: Result<Spanned<ParsedTypeKind>, OlympusError>)
        requires
            old(self).wf(),
        ensures
            old(self).stepped(final(self)),
            match parse_generic(old(self).toks(), old(self).pos()) {
                Ok((ty, q)) => res matches Ok(found) && found.deep_view() == ty && final(self).pos() == q,
                Err(e) => res matches Err(err) && err@ == e,
            },
        decreases old(self).toks().len() - old(self).pos(),
    {
        let this_span = self.get_span(0);
        self.pop_must_match(Mark::Ascii(AsciiToken::OpenBracket), "Expected generic type")?;
        let array_type = match self.pop() {
            Some(token) => token,
            None => {
                return Err(OlympusError::error("Expected generic type", self.get_span(0)));
            },
        };
        let value = match array_type.value {
            Token::Ident(ident) => Spanned::new(ParsedTypeKind::External(ident), array_type.span),
            Token::Type(TypeToken::Int(width)) => Spanned::new(
                ParsedTypeKind::Builtin(ParsedBultin::Int(width)),
                array_type.span,
            ),
            Token::Type(TypeToken::VariableInt(width)) => Spanned::new(
                ParsedTypeKind::Builtin(ParsedBultin::VariableInt(width)),
                array_type.span,
            ),
            Token::Type(TypeToken::String) => Spanned::new(
                ParsedTypeKind::Builtin(ParsedBultin::String),
                array_type.span,
            ),
            Token::Type(TypeToken::Array) => {
                let elem = self.parse_generic_type()?;
                Spanned::new(ParsedTypeKind::Builtin(ParsedBultin::Array(Box::new(elem))), this_span)
            },
            Token::Type(TypeToken::Option) => {
                let elem = self.parse_generic_type()?;
                Spanned::new(
                    ParsedTypeKind::Builtin(ParsedBultin::Option(Box::new(elem))),
                    this_span,
                )
            },
            _ => {
                return Err(OlympusError::error("Expected type", self.get_span(0)));
            },
        };
        self.pop_must_match(
            Mark::Ascii(AsciiToken::CloseBracket),
            "Expected ']' after generic type",
        )?;
        Ok(value)
    }

    /// Reads the type that starts with `kind_token`, which has just been taken.
    fn parse_type(&mut self, kind_token: SpannedToken) -> (res: Result<
        Spanned<ParsedTypeKind>,
        OlympusError,
    >)
        requires
            old(self).wf(),
            1 <= old(self).pos(),
            kind_token.deep_view() == old(self).toks()[old(self).pos() - 1],
        ensures
            old(self).stepped(final(self)),
            match type_from(old(self).toks(), old(self).pos() - 1) {
                Ok((ty, q)) => res matches Ok(found) && found.deep_view() == ty && final(self).pos() == q,
                Err(e) => res matches Err(err) && err@ == e,
            },
    {
        match kind_token.value {
            Token::Ident(ident) => Ok(
                Spanned::new(ParsedTypeKind::External(ident), kind_token.span),
            ),
            Token::Type(TypeToken::Int(width)) => Ok(
                Spanned::new(ParsedTypeKind::Builtin(ParsedBultin::Int(width)), kind_token.span),
            ),
            Token::Type(TypeToken::VariableInt(width)) => Ok(
                Spanned::new(
                    ParsedTypeKind::Builtin(ParsedBultin::VariableInt(width)),
                    kind_token.span,
                ),
            ),
            Token::Type(TypeToken::String) => Ok(
                Spanned::new(ParsedTypeKind::Builtin(ParsedBultin::String), kind_token.span),
            ),
            Token::Type(TypeToken::Array) => {
                let elem = self.parse_generic_type()?;
                Ok(
                    Spanned::new(
                        ParsedTypeKind::Builtin(ParsedBultin::Array(Box::new(elem))),
                        kind_token.span,
                    ),
                )
            },
            Token::Type(TypeToken::Option) => {
                let elem = self.parse_generic_type()?;
                Ok(
                    Spanned::new(
                        ParsedTypeKind::Builtin(ParsedBultin::Option(Box::new(elem))),
                        kind_token.span,
                    ),
                )
            },
            _ => Err(OlympusError::error("Expected type", kind_token.span)),
        }
    }

    /// Takes the next token and reads the type that starts with it.
    fn read_type(&mut self) -> (res: Result<Spanned<ParsedTypeKind>, OlympusError>)
        requires
            old(self).wf(),
        ensures
            old(self).stepped(final(self)),
            match parse_type(old(self).toks(), old(self).pos()) {
                Ok((ty, q)) => res matches Ok(found) && found.deep_view() == ty && final(self).pos() == q,
                Err(e) => res matches Err(err) && err@ == e,
            },
    {
        let kind = match self.pop() {
            Some(kind) => kind,
            None => {
                return Err(OlympusError::error("Expected type", self.get_span(1)));
            },
        };
        self.parse_type(kind)
    }

    /// Reads the fields of a struct up to its closing brace.
    fn data_gather_fields(&mut self) -> (res: Result<Vec<ParsedStructField>, OlympusError>)
        requires
            old(self).wf(),
        ensures
            old(self).stepped(final(self)),
            match parse_fields(old(self).toks(), old(self).pos(), Seq::empty()) {
                Ok((fields, q)) => res matches Ok(found) && found.deep_view() == fields && final(self).pos() == q,
                Err(e) => res matches Err(err) && err@ == e,
            },
    {
        let ghost toks = self.toks();
        let mut res: Vec<ParsedStructField> = Vec::new();
        assert(res.deep_view() =~= Seq::empty());
        loop
            invariant
                old(self).stepped(self),
                toks == self.toks(),
                parse_fields(toks, self.pos(), res.deep_view()) == parse_fields(
                    toks,
                    old(self).pos(),
                    Seq::empty(),
                ),
            decreases toks.len() - self.pos(),
        {
            let ghost acc = res.deep_view();
            let ghost p = self.pos();
            let token = match self.pop() {
                Some(token) => token,
                None => {
                    return Err(OlympusError::error("Expected token after", self.get_span(0)));
                },
            };
            match token.value {
                Token::Ident(ident) => {
                    proof {
                        lemma_field_advances(toks, p);
                    }
                    self.pop_must_match(Mark::Arrow, "Expected '->' after ident")?;
                    let kind = self.read_type()?;
                    self.pop_must_match(
                        Mark::Ascii(AsciiToken::SemiColon),
                        "Expected ';' after type",
                    )?;
                    let field = ParsedStructField { ident: Spanned::new(ident, token.span), kind };
                    res.push(field);
                    assert(res.deep_view() =~= acc.push(field.deep_view()));
                },
                Token::Ascii(AsciiToken::CloseBrace) => {
                    return Ok(res);
                },
                other => {
                    return Err(
                        OlympusError::error(
                            unexpected("Expected '}' or ident. Got: ", &other).as_str(),
                            self.get_span(0),
                        ),
                    );
                },
            }
        }
    }

    /// Reads a struct declaration, whose keyword has just been taken.
    fn parse_data(&mut self) -> (res: Result<(), OlympusError>)
        requires
            old(self).wf(),
        ensures
            final(self).wf(),
            final(self).toks() == old(self).toks(),
            match parse_struct(old(self).toks(), old(self).pos()) {
                Ok((parsed, q)) => {
                    &&& res is Ok
                    &&& final(self).pos() == q
                    &&& final(self).file() == (FileView {
                        structs: old(self).file().structs.push(parsed),
                        ..old(self).file()
                    })
                },
                Err(e) => res matches Err(err) && err@ == e && final(self).file() == old(self).file(),
            },
    {
        let ident = self.next_ident("Expected Ident for data")?;
        self.pop_must_match(Mark::Ascii(AsciiToken::OpenBrace), "Expected '{' after ident")?;
        let fields = self.data_gather_fields()?;
        let parsed = ParsedStruct { ident, fields };
        self.structs.push(parsed);
        assert(self.file().structs =~= old(self).file().structs.push(parsed.deep_view()));
        Ok(())
    }

    /// Reads the parameters of a procedure up to the closing bracket.
    fn gather_params(&mut self) -> (res: Result<Vec<ParsedProcedureParam>, OlympusError>)
        requires
            old(self).wf(),
        ensures
            old(self).stepped(final(self)),
            match parse_params(old(self).toks(), old(self).pos(), Seq::empty()) {
                Ok((params, q)) => res matches Ok(found) && found.deep_view() == params && final(self).pos() == q,
                Err(e) => res matches Err(err) && err@ == e,
            },
    {
        let ghost toks = self.toks();
        let mut params: Vec<ParsedProcedureParam> = Vec::new();
        assert(params.deep_view() =~= Seq::empty());
        loop
            invariant
                old(self).stepped(self),
                toks == self.toks(),
                parse_params(toks, self.pos(), params.deep_view()) == parse_params(
                    toks,
                    old(self).pos(),
                    Seq::empty(),
                ),
            decreases toks.len() - self.pos(),
        {
            let ghost acc = params.deep_view();
            let ghost p = self.pos();
            let token = match self.pop() {
                Some(token) => token,
                None => {
                    return Err(OlympusError::error("Expected token after", self.get_span(0)));
                },
            };
            match token.value {
                Token::Ident(ident) => {
                    proof {
                        lemma_param_advances(toks, p);
                    }
                    self.pop_must_match(Mark::Arrow, "Expected '->' after ident")?;
                    let kind = self.read_type()?;
                    let param = ParsedProcedureParam { ident: Spanned::new(ident, token.span), kind };
                    params.push(param);
                    assert(params.deep_view() =~= acc.push(param.deep_view()));
                    let next = match self.pop() {
                        Some(next) => next,
                        None => {
                            return Err(
                                OlympusError::error("Expected token after", self.get_span(0)),
                            );
                        },
                    };
                    match next.value {
                        Token::Ascii(AsciiToken::Comma) => {},
                        Token::Ascii(AsciiToken::CloseParen) => {
                            return Ok(params);
                        },
                        other => {
                            return Err(
                                OlympusError::error(
                                    unexpected("Expected ',' or ')'. Got: ", &other).as_str(),
                                    self.get_span(0),
                                ),
                            );
                        },
                    }
                },
                Token::Ascii(AsciiToken::CloseParen) => {
                    if params.len() == 0 {
                        return Ok(params);
                    }
                    return Err(
                        OlympusError::error(
                            unexpected(
                                "Expected ident. Got: ",
                                &Token::Ascii(AsciiToken::CloseParen),
                            ).as_str(),
                            self.get_span(0),
                        ),
                    );
                },
                other => {
                    let prefix = if params.len() == 0 {
                        "Expected ident or ')'. Got: "
                    } else {
                        "Expected ident. Got: "
                    };
                    return Err(
                        OlympusError::error(
                            unexpected(prefix, &other).as_str(),
                            self.get_span(0),
                        ),
                    );
                },
            }
        }
    }

    /// Reads what a procedure returns, and the semicolon that ends it.
    fn read_return(&mut self) -> (res: Result<Spanned<ParsedTypeKind>, OlympusError>)
        requires
            old(self).wf(),
        ensures
            old(self).stepped(final(self)),
            match parse_return(old(self).toks(), old(self).pos()) {
                Ok((ty, q)) => res matches Ok(found) && found.deep_view() == ty && final(self).pos() == q,
                Err(e) => res matches Err(err) && err@ == e,
            },
    {
        let ends = match self.peek() {
            Some(next) => matches_mark(&next.value, Mark::Ascii(AsciiToken::SemiColon)),
            None => false,
        };
        if ends {
            self.token_idx += 1;
            Ok(
                Spanned::new(
                    ParsedTypeKind::Builtin(ParsedBultin::Nothing),
                    self.get_span(-1),
                ),
            )
        } else {
            self.pop_must_match(Mark::Arrow, "Expected '->' after params")?;
            let return_kind = self.read_type()?;
            self.pop_must_match(
                Mark::Ascii(AsciiToken::SemiColon),
                "Expected ';' after return type",
            )?;
            Ok(return_kind)
        }
    }

    /// Reads a procedure, whose keyword has just been taken.
    fn read_procedure(&mut self) -> (res: Result<ParsedProcedure, OlympusError>)
        requires
            old(self).wf(),
        ensures
            old(self).stepped(final(self)),
            match parse_proc(old(self).toks(), old(self).pos()) {
                Ok((procedure, q)) => res matches Ok(found) && found.deep_view() == procedure
                    && final(self).pos() == q,
                Err(e) => res matches Err(err) && err@ == e,
            },
    {
        let ident = self.next_ident("Expected ident")?;
        self.pop_must_match(Mark::Ascii(AsciiToken::OpenParen), "Expected '(' after ident")?;
        let params = self.gather_params()?;
        let return_kind = self.read_return()?;
        Ok(ParsedProcedure { ident, params, return_kind })
    }

    /// Reads the procedures of an `rpc` block up to its closing brace.
    fn server_gather_procudures(&mut self) -> (res: Result<Vec<ParsedProcedure>, OlympusError>)
        requires
            old(self).wf(),
        ensures
            old(self).stepped(final(self)),
            match parse_procs(old(self).toks(), old(self).pos(), Seq::empty()) {
                Ok((procedures, q)) => res matches Ok(found) && found.deep_view() == procedures
                    && final(self).pos() == q,
                Err(e) => res matches Err(err) && err@ == e,
            },
    {
        let ghost toks = self.toks();
        let mut res: Vec<ParsedProcedure> = Vec::new();
        assert(res.deep_view() =~= Seq::empty());
        loop
            invariant
                old(self).stepped(self),
                toks == self.toks(),
                parse_procs(toks, self.pos(), res.deep_view()) == parse_procs(
                    toks,
                    old(self).pos(),
                    Seq::empty(),
                ),
            decreases toks.len() - self.pos(),
        {
            let ghost acc = res.deep_view();
            let ghost p = self.pos();
            let token = match self.pop() {
                Some(token) => token,
                None => {
                    return Err(OlympusError::error("Expected token after", self.get_span(0)));
                },
            };
            match token.value {
                Token::Keyword(KeywordToken::Proc) => {
                    proof {
                        lemma_proc_advances(toks, p + 1);
                    }
                    let procedure = self.read_procedure()?;
                    res.push(procedure);
                    assert(res.deep_view() =~= acc.push(procedure.deep_view()));
                },
                Token::Ascii(AsciiToken::CloseBrace) => {
                    return Ok(res);
                },
                other => {
                    return Err(
                        OlympusError::error(
                            unexpected("Expected '}' or proc. Got: ", &other).as_str(),
                            self.get_span(0),
                        ),
                    );
                },
            }
        }
    }

    /// Reads an `rpc` block, whose keyword has just been taken.
    fn parse_server(&mut self) -> (res: Result<(), OlympusError>)
        requires
            old(self).wf(),
        ensures
            final(self).wf(),
            final(self).toks() == old(self).toks(),
            match parse_rpc(old(self).toks(), old(self).pos()) {
                Ok((procedures, q)) => {
                    &&& res is Ok
                    &&& final(self).pos() == q
                    &&& final(self).file() == (FileView {
                        procedures: old(self).file().procedures + procedures,
                        ..old(self).file()
                    })
                },
                Err(e) => res matches Err(err) && err@ == e && final(self).file() == old(self).file(),
            },
    {
        self.pop_must_match(Mark::Ascii(AsciiToken::OpenBrace), "Expected '{' after server")?;
        let mut procedures = self.server_gather_procudures()?;
        let ghost added = procedures.deep_view();
        self.rpc_container.procedures.append(&mut procedures);
        assert(self.file().procedures =~= old(self).file().procedures + added);
        Ok(())
    }
}

/// The variants of an enum end behind where they start, and inside the tokens.
pub proof fn lemma_variants_advance(toks: Seq<Spanned<TokenView>>, p: int, acc: Seq<VariantView>)
    requires
        0 <= p,
    ensures
        parse_variants(toks, p, acc) matches Ok((_, q)) ==> p < q <= toks.len(),
    decreases toks.len() - p,
{
    if p < toks.len() && toks[p].value is Ident {
        if let Ok((variant, q)) = parse_variant(toks, p) {
            lemma_variants_advance(toks, q, acc.push(variant));
        }
    }
}

/// An enum ends behind where it starts, and inside the tokens.
pub proof fn lemma_enum_advances(toks: Seq<Spanned<TokenView>>, p: int)
    requires
        0 <= p,
    ensures
        parse_enum(toks, p) matches Ok((_, q)) ==> p < q <= toks.len(),
{
    lemma_variants_advance(toks, p + 2, Seq::empty());
}

/// The fields of a struct end behind where they start, and inside the tokens.
pub proof fn lemma_fields_advance(toks: Seq<Spanned<TokenView>>, p: int, acc: Seq<FieldView>)
    requires
        0 <= p,
    ensures
        parse_fields(toks, p, acc) matches Ok((_, q)) ==> p < q <= toks.len(),
    decreases toks.len() - p,
{
    if p < toks.len() && toks[p].value is Ident {
        lemma_field_advances(toks, p);
        if let Ok((field, q)) = parse_field(toks, p) {
            lemma_fields_advance(toks, q, acc.push(field));
        }
    }
}

/// A struct ends behind where it starts, and inside the tokens.
pub proof fn lemma_struct_advances(toks: Seq<Spanned<TokenView>>, p: int)
    requires
        0 <= p,
    ensures
        parse_struct(toks, p) matches Ok((_, q)) ==> p < q <= toks.len(),
{
    lemma_fields_advance(toks, p + 2, Seq::empty());
}

/// The procedures of a block end behind where they start, and inside the tokens.
pub proof fn lemma_procs_advance(toks: Seq<Spanned<TokenView>>, p: int, acc: Seq<ProcedureView>)
    requires
        0 <= p,
    ensures
        parse_procs(toks, p, acc) matches Ok((_, q)) ==> p < q <= toks.len(),
    decreases toks.len() - p,
{
    if p < toks.len() && toks[p].value == TokenView::Keyword(KeywordToken::Proc) {
        lemma_proc_advances(toks, p + 1);
        if let Ok((procedure, q)) = parse_proc(toks, p + 1) {
            lemma_procs_advance(toks, q, acc.push(procedure));
        }
    }
}

/// True when the diagnostic has one label, and that label has the span of
/// a token or the empty span at the start.
pub open spec fn positioned(e: ErrorView, toks: Seq<Spanned<TokenView>>) -> bool {
    e.labels.len() == 1 && exists|i: int| e.labels[0].span == #[trigger] span_at(toks, i)
}

proof fn lemma_at(toks: Seq<Spanned<TokenView>>, p: int)
    requires
        0 <= p < toks.len(),
    ensures
        toks[p].span == span_at(toks, p),
{
}

proof fn lemma_expect_pos(toks: Seq<Spanned<TokenView>>, p: int, mark: Mark, message: Seq<char>)
    ensures
        expect(toks, p, mark, message) matches Err(e) ==> positioned(e, toks),
        expect_ident(toks, p, message) matches Err(e) ==> positioned(e, toks),
        expect_number(toks, p, message) matches Err(e) ==> positioned(e, toks),
{
    let _ = span_at(toks, p - 1);
    let _ = span_at(toks, p - 2);
}

proof fn lemma_generic_pos(toks: Seq<Spanned<TokenView>>, p: int)
    requires
        0 <= p,
    ensures
        parse_generic(toks, p) matches Err(e) ==> positioned(e, toks),
    decreases toks.len() - p,
{
    lemma_expect_pos(toks, p, Mark::Ascii(AsciiToken::OpenBracket), "Expected generic type"@);
    if p < toks.len() {
        let q = p + 1;
        let _ = span_at(toks, q - 1);
        if q < toks.len() {
            lemma_at(toks, q);
            match toks[q].value {
                TokenView::Type(TypeToken::Array) => lemma_generic_pos(toks, q + 1),
                TokenView::Type(TypeToken::Option) => lemma_generic_pos(toks, q + 1),
                _ => {},
            }
            lemma_expects_pos(toks);
        }
    }
}

proof fn lemma_type_pos(toks: Seq<Spanned<TokenView>>, p: int)
    requires
        0 <= p,
    ensures
        parse_type(toks, p) matches Err(e) ==> positioned(e, toks),
{
    let _ = span_at(toks, p);
    lemma_generic_pos(toks, p + 1);
}

/// Every failure of `expect` and its kin points at a token.
proof fn lemma_expects_pos(toks: Seq<Spanned<TokenView>>)
    ensures
        forall|p: int, mark: Mark, message: Seq<char>| #[trigger]
            expect(toks, p, mark, message) matches Err(e) ==> positioned(e, toks),
        forall|p: int, message: Seq<char>| #[trigger]
            expect_ident(toks, p, message) matches Err(e) ==> positioned(e, toks),
        forall|p: int, message: Seq<char>| #[trigger]
            expect_number(toks, p, message) matches Err(e) ==> positioned(e, toks),
{
    assert forall|p: int, mark: Mark, message: Seq<char>| #[trigger]
        expect(toks, p, mark, message) is Err implies positioned(
        expect(toks, p, mark, message)->Err_0,
        toks,
    ) by {
        lemma_expect_pos(toks, p, mark, message);
    }
    assert forall|p: int, message: Seq<char>| #[trigger]
        expect_ident(toks, p, message) is Err implies positioned(
        expect_ident(toks, p, message)->Err_0,
        toks,
    ) by {
        lemma_expect_pos(toks, p, Mark::Arrow, message);
    }
    assert forall|p: int, message: Seq<char>| #[trigger]
        expect_number(toks, p, message) is Err implies positioned(
        expect_number(toks, p, message)->Err_0,
        toks,
    ) by {
        lemma_expect_pos(toks, p, Mark::Arrow, message);
    }
}

proof fn lemma_variants_pos(toks: Seq<Spanned<TokenView>>, p: int, acc: Seq<VariantView>)
    requires
        0 <= p,
    ensures
        parse_variants(toks, p, acc) matches Err(e) ==> positioned(e, toks),
    decreases toks.len() - p,
{
    lemma_expects_pos(toks);
    let _ = span_at(toks, p - 1);
    if p < toks.len() {
        lemma_at(toks, p);
        if toks[p].value is Ident {
            if let Ok((variant, q)) = parse_variant(toks, p) {
                lemma_variants_pos(toks, q, acc.push(variant));
            }
        }
    }
}

proof fn lemma_fields_pos(toks: Seq<Spanned<TokenView>>, p: int, acc: Seq<FieldView>)
    requires
        0 <= p,
    ensures
        parse_fields(toks, p, acc) matches Err(e) ==> positioned(e, toks),
    decreases toks.len() - p,
{
    lemma_expects_pos(toks);
    let _ = span_at(toks, p - 1);
    if p < toks.len() {
        lemma_at(toks, p);
        if toks[p].value is Ident {
            lemma_type_pos(toks, p + 2);
            lemma_field_advances(toks, p);
            if let Ok((field, q)) = parse_field(toks, p) {
                lemma_fields_pos(toks, q, acc.push(field));
            }
        }
    }
}

proof fn lemma_params_pos(toks: Seq<Spanned<TokenView>>, p: int, acc: Seq<FieldView>)
    requires
        0 <= p,
    ensures
        parse_params(toks, p, acc) matches Err(e) ==> positioned(e, toks),
    decreases toks.len() - p,
{
    lemma_expects_pos(toks);
    let _ = span_at(toks, p - 1);
    if p < toks.len() {
        lemma_at(toks, p);
        if toks[p].value is Ident {
            lemma_type_pos(toks, p + 2);
            lemma_param_advances(toks, p);
            if let Ok((param, q)) = parse_param(toks, p) {
                let _ = span_at(toks, q - 1);
                if q < toks.len() {
                    lemma_at(toks, q);
                    if toks[q].value == TokenView::Ascii(AsciiToken::Comma) {
                        lemma_params_pos(toks, q + 1, acc.push(param));
                    }
                }
            }
        }
    }
}

proof fn lemma_proc_pos(toks: Seq<Spanned<TokenView>>, p: int)
    requires
        0 <= p,
    ensures
        parse_proc(toks, p) matches Err(e) ==> positioned(e, toks),
{
    lemma_expects_pos(toks);
    lemma_params_pos(toks, p + 2, Seq::empty());
    lemma_params_advance(toks, p + 2, Seq::empty());
    if let Ok((_, s)) = parse_params(toks, p + 2, Seq::empty()) {
        lemma_type_pos(toks, s + 1);
    }
}

proof fn lemma_procs_pos(toks: Seq<Spanned<TokenView>>, p: int, acc: Seq<ProcedureView>)
    requires
        0 <= p,
    ensures
        parse_procs(toks, p, acc) matches Err(e) ==> positioned(e, toks),
    decreases toks.len() - p,
{
    let _ = span_at(toks, p - 1);
    if p < toks.len() {
        lemma_at(toks, p);
        if toks[p].value == TokenView::Keyword(KeywordToken::Proc) {
            lemma_proc_pos(toks, p + 1);
            lemma_proc_advances(toks, p + 1);
            if let Ok((procedure, q)) = parse_proc(toks, p + 1) {
                lemma_procs_pos(toks, q, acc.push(procedure));
            }
        }
    }
}

proof fn lemma_item_pos(toks: Seq<Spanned<TokenView>>, p: int, file: FileView)
    requires
        0 <= p < toks.len(),
    ensures
        parse_item(toks, p, file) matches Err(e) ==> positioned(e, toks),
{
    lemma_expects_pos(toks);
    lemma_at(toks, p);
    lemma_variants_pos(toks, p + 3, Seq::empty());
    lemma_fields_pos(toks, p + 3, Seq::empty());
    lemma_procs_pos(toks, p + 2, Seq::empty());
}

/// A failure of the parser points at a token, or at the start of the source.
pub proof fn lemma_parse_positioned(toks: Seq<Spanned<TokenView>>, p: int, file: FileView)
    requires
        0 <= p,
    ensures
        parse_items(toks, p, file).error matches Some(e) ==> positioned(e, toks),
    decreases toks.len() - p,
{
    if p < toks.len() {
        lemma_item_pos(toks, p, file);
        if let Ok((next, q)) = parse_item(toks, p, file) {
            if p < q <= toks.len() {
                lemma_parse_positioned(toks, q, next);
            }
        }
    }
}

/// True when every token lies inside the first `len` bytes of the source.
pub open spec fn tokens_within(tokens: Seq<Spanned<TokenView>>, len: int) -> bool {
    forall|i: int|
        0 <= i < tokens.len() ==> (#[trigger] tokens[i]).span.start <= tokens[i].span.end <= len
}

proof fn lemma_significant_within(tokens: Seq<Spanned<TokenView>>, len: int)
    requires
        tokens_within(tokens, len),
    ensures
        tokens_within(significant(tokens), len),
    decreases tokens.len(),
{
    if tokens.len() > 0 {
        assert(tokens_within(tokens.drop_last(), len)) by {
            assert forall|i: int| 0 <= i < tokens.drop_last().len() implies (
            #[trigger] tokens.drop_last()[i]).span.start <= tokens.drop_last()[i].span.end
                <= len by {
                assert(tokens.drop_last()[i] == tokens[i]);
            }
        }
        lemma_significant_within(tokens.drop_last(), len);
    }
}

proof fn lemma_variants_within(
    toks: Seq<Spanned<TokenView>>,
    p: int,
    acc: Seq<VariantView>,
    len: int,
)
    requires
        0 <= p,
        tokens_within(toks, len),
        variants_within(acc, len),
    ensures
        parse_variants(toks, p, acc) matches Ok((variants, _)) ==> variants_within(variants, len),
    decreases toks.len() - p,
{
    if p < toks.len() && toks[p].value is Ident {
        if let Ok((variant, q)) = parse_variant(toks, p) {
            let next = acc.push(variant);
            assert forall|i: int| 0 <= i < next.len() implies span_within(
                (#[trigger] next[i]).ident,
                len,
            ) by {
                if i < acc.len() {
                    assert(next[i] == acc[i]);
                }
            }
            lemma_variants_within(toks, q, next, len);
        }
    }
}

proof fn lemma_fields_within(toks: Seq<Spanned<TokenView>>, p: int, acc: Seq<FieldView>, len: int)
    requires
        0 <= p,
        tokens_within(toks, len),
        fields_within(acc, len),
    ensures
        parse_fields(toks, p, acc) matches Ok((fields, _)) ==> fields_within(fields, len),
    decreases toks.len() - p,
{
    if p < toks.len() && toks[p].value is Ident {
        lemma_field_advances(toks, p);
        if let Ok((field, q)) = parse_field(toks, p) {
            let next = acc.push(field);
            assert forall|i: int| 0 <= i < next.len() implies span_within(
                (#[trigger] next[i]).ident,
                len,
            ) by {
                if i < acc.len() {
                    assert(next[i] == acc[i]);
                }
            }
            lemma_fields_within(toks, q, next, len);
        }
    }
}

proof fn lemma_params_within(toks: Seq<Spanned<TokenView>>, p: int, acc: Seq<FieldView>, len: int)
    requires
        0 <= p,
        tokens_within(toks, len),
        fields_within(acc, len),
    ensures
        parse_params(toks, p, acc) matches Ok((params, _)) ==> fields_within(params, len),
    decreases toks.len() - p,
{
    if p < toks.len() && toks[p].value is Ident {
        lemma_param_advances(toks, p);
        if let Ok((param, q)) = parse_param(toks, p) {
            let next = acc.push(param);
            assert forall|i: int| 0 <= i < next.len() implies span_within(
                (#[trigger] next[i]).ident,
                len,
            ) by {
                if i < acc.len() {
                    assert(next[i] == acc[i]);
                }
            }
            if q < toks.len() && toks[q].value == TokenView::Ascii(AsciiToken::Comma) {
                lemma_params_within(toks, q + 1, next, len);
            }
        }
    }
}

proof fn lemma_procs_within(
    toks: Seq<Spanned<TokenView>>,
    p: int,
    acc: Seq<ProcedureView>,
    len: int,
)
    requires
        0 <= p,
        tokens_within(toks, len),
        procedures_within(acc, len),
    ensures
        parse_procs(toks, p, acc) matches Ok((procedures, _)) ==> procedures_within(
            procedures,
            len,
        ),
    decreases toks.len() - p,
{
    if p < toks.len() && toks[p].value == TokenView::Keyword(KeywordToken::Proc) {
        lemma_proc_advances(toks, p + 1);
        if let Ok((procedure, q)) = parse_proc(toks, p + 1) {
            assert(fields_within(Seq::<FieldView>::empty(), len));
            lemma_params_within(toks, p + 3, Seq::empty(), len);
            let next = acc.push(procedure);
            assert forall|i: int| 0 <= i < next.len() implies span_within(
                (#[trigger] next[i]).ident,
                len,
            ) && fields_within(next[i].params, len) by {
                if i < acc.len() {
                    assert(next[i] == acc[i]);
                }
            }
            lemma_procs_within(toks, q, next, len);
        }
    }
}

proof fn lemma_item_within(toks: Seq<Spanned<TokenView>>, p: int, file: FileView, len: int)
    requires
        0 <= p < toks.len(),
        tokens_within(toks, len),
        file_within(file, len),
    ensures
        parse_item(toks, p, file) matches Ok((next, _)) ==> file_within(next, len),
{
    assert(variants_within(Seq::<VariantView>::empty(), len));
    assert(fields_within(Seq::<FieldView>::empty(), len));
    assert(procedures_within(Seq::<ProcedureView>::empty(), len));
    lemma_variants_within(toks, p + 3, Seq::empty(), len);
    lemma_fields_within(toks, p + 3, Seq::empty(), len);
    lemma_procs_within(toks, p + 2, Seq::empty(), len);
    if let Ok((next, _)) = parse_item(toks, p, file) {
        match toks[p].value {
            TokenView::Keyword(KeywordToken::Enum) => {
                let parsed = parse_enum(toks, p + 1)->Ok_0.0;
                assert forall|i: int| 0 <= i < next.enums.len() implies span_within(
                    (#[trigger] next.enums[i]).ident,
                    len,
                ) && variants_within(next.enums[i].variants, len) by {
                    if i < file.enums.len() {
                        assert(next.enums[i] == file.enums[i]);
                    }
                }
            },
            TokenView::Keyword(KeywordToken::Struct) => {
                assert forall|i: int| 0 <= i < next.structs.len() implies span_within(
                    (#[trigger] next.structs[i]).ident,
                    len,
                ) && fields_within(next.structs[i].fields, len) by {
                    if i < file.structs.len() {
                        assert(next.structs[i] == file.structs[i]);
                    }
                }
            },
            TokenView::Keyword(KeywordToken::Rpc) => {
                let added = parse_rpc(toks, p + 1)->Ok_0.0;
                assert forall|i: int| 0 <= i < next.procedures.len() implies span_within(
                    (#[trigger] next.procedures[i]).ident,
                    len,
                ) && fields_within(next.procedures[i].params, len) by {
                    if i < file.procedures.len() {
                        assert(next.procedures[i] == file.procedures[i]);
                    } else {
                        assert(next.procedures[i] == added[i - file.procedures.len()]);
                    }
                }
            },
            _ => {},
        }
    }
}

proof fn lemma_items_within(toks: Seq<Spanned<TokenView>>, p: int, file: FileView, len: int)
    requires
        0 <= p,
        tokens_within(toks, len),
        file_within(file, len),
    ensures
        file_within(parse_items(toks, p, file).file, len),
    decreases toks.len() - p,
{
    if p < toks.len() {
        lemma_item_within(toks, p, file, len);
        if let Ok((next, q)) = parse_item(toks, p, file) {
            if p < q <= toks.len() {
                lemma_items_within(toks, q, next, len);
            }
        }
    }
}

/// Every name that the parser reads lies inside the source whose tokens
/// it was given.
pub proof fn lemma_parsed_within(tokens: Seq<Spanned<TokenView>>, len: int)
    requires
        tokens_within(tokens, len),
    ensures
        file_within(parse_file(tokens).file, len),
{
    lemma_significant_within(tokens, len);
    lemma_items_within(significant(tokens), 0, empty_file(), len);
}

/// A failure of the parser lies inside the source whose tokens it was given.
pub proof fn lemma_parse_within(tokens: Seq<Spanned<TokenView>>, len: int)
    requires
        0 <= len,
        tokens_within(tokens, len),
    ensures
        parse_file(tokens).error matches Some(e) ==> e.within(len),
{
    let toks = significant(tokens);
    lemma_significant_within(tokens, len);
    lemma_parse_positioned(toks, 0, empty_file());
    if let Some(e) = parse_file(tokens).error {
        let i = choose|i: int| e.labels[0].span == #[trigger] span_at(toks, i);
        if 0 <= i < toks.len() {
            assert(toks[i].span.start <= toks[i].span.end <= len);
        }
    }
}

} // verus!
