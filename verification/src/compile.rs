//! From source text to checked declarations, and on to generated code.

use crate::ast::FileView;
use crate::checks::{first_violation, lemma_violation_within, valid_file, verify_parser_outputs};
use crate::generator::rust::RustCodeGenerator;
use crate::generator::{generate_models, models_text};
use crate::lexer::{bytes_in, grapheme_clusters, lemma_lex_all, lex_all, Lexer};
use crate::naming::{CompileLanguage, NamingConventionConfig};
use crate::parser::{lemma_parse_within, lemma_parsed_within, parse_file, Parser};
use crate::spanned::{CodeSource, ErrorView, OlympusError};
use std::rc::Rc;
use vstd::prelude::*;
use vstd::utf8::encode_utf8;

verus! {

/// What checking a source text gives: the declarations of a file that
/// keeps every rule, or the first diagnostic of the lexer, else of the
/// parser, else of the semantic checks.
pub open spec fn checked(src: Seq<char>) -> Result<FileView, ErrorView> {
    let lexed = lex_all(grapheme_clusters(src), 0);
    match lexed.error {
        Some(e) => Err(e),
        None => {
            let parsed = parse_file(lexed.tokens);
            match parsed.error {
                Some(e) => Err(e),
                None => match first_violation(parsed.file) {
                    Some(e) => Err(e),
                    None => Ok(parsed.file),
                },
            }
        },
    }
}

/// Lexes, parses and checks a source text. There is a parser exactly
/// where there is no diagnostic, and its declarations keep every rule. A
/// diagnostic lies inside the source text.
pub fn verify_src(src: &str, filename: &str) -> (res: Result<Parser, OlympusError>)
    ensures
        match checked(src@) {
            Ok(file) => res matches Ok(parser) && parser.file() == file && valid_file(file),
            Err(e) => res matches Err(err) && err@ == e,
        },
        res matches Err(err) ==> err@.within(encode_utf8(src@).len() as int),
{
    let source = Rc::new(
        CodeSource { file_name: String::from_str(filename), src: String::from_str(src) },
    );
    let mut lexer = Lexer::new(source);
    let ghost gs = lexer.gs();
    proof {
        lemma_lex_all(gs, 0);
    }
    lexer.lex()?;
    assert(lexer.tokens.deep_view() =~= lex_all(gs, 0).tokens);
    proof {
        let len = bytes_in(gs, 0, gs.len() as int) as int;
        lemma_parse_within(lexer.tokens.deep_view(), len);
        lemma_parsed_within(lexer.tokens.deep_view(), len);
        lemma_violation_within(parse_file(lexer.tokens.deep_view()).file, len);
    }
    let mut parser = Parser::new(lexer.tokens);
    parser.parse()?;
    verify_parser_outputs(&parser)?;
    Ok(parser)
}

/// The models of a checked file in the given language.
pub fn generate(
    parser: &Parser,
    language: CompileLanguage,
    naming_convention_config: &NamingConventionConfig,
) -> (models_src: String)
    ensures
        models_src@ == models_text(&RustCodeGenerator, parser.file(), *naming_convention_config),
{
    match language {
        CompileLanguage::Rust => {
            let mut models_src = String::new();
            generate_models(&RustCodeGenerator, parser, &mut models_src, naming_convention_config);
            assert(models_src@ =~= models_text(
                &RustCodeGenerator,
                parser.file(),
                *naming_convention_config,
            ));
            models_src
        },
    }
}

} // verus!
