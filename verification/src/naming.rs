//! Naming conventions for generated code.
//!
//! Identifiers of a definition file are rewritten for the target language,
//! one convention for each kind of identifier. The case conversions are
//! those of the `heck` crate.

use vstd::prelude::*;

verus! {

/// The languages that code can be generated for.
#[derive(Debug, Clone, Copy, PartialEq, Eq, Structural)]
pub enum CompileLanguage {
    Rust,
}

#[derive(Debug, Clone, Copy, PartialEq, Eq, Structural)]
pub enum NamingConvention {
    Pascal,
    LowerCamel,
    Snake,
    ShoutySnake,
    Kebab,
    ShoutyKebab,
}

/// The convention for each kind of identifier.
#[derive(Debug, Clone, Copy, PartialEq, Eq, Structural)]
pub struct NamingConventionConfig {
    pub types: NamingConvention,
    pub struct_fields: NamingConvention,
    pub enum_variants: NamingConvention,
    pub procs: NamingConvention,
}

/// `heck`'s upper camel case of a text.
pub uninterp spec fn pascal_case(input: Seq<char>) -> Seq<char>;

/// `heck`'s lower camel case of a text.
pub uninterp spec fn lower_camel_case(input: Seq<char>) -> Seq<char>;

/// `heck`'s snake case of a text.
pub uninterp spec fn snake_case(input: Seq<char>) -> Seq<char>;

/// `heck`'s shouty snake case of a text.
pub uninterp spec fn shouty_snake_case(input: Seq<char>) -> Seq<char>;

/// `heck`'s kebab case of a text.
pub uninterp spec fn kebab_case(input: Seq<char>) -> Seq<char>;

/// `heck`'s shouty kebab case of a text.
pub uninterp spec fn shouty_kebab_case(input: Seq<char>) -> Seq<char>;

/// `heck::AsPascalCase`, written out: the text in upper camel case.
#[verifier::external_body]
fn to_pascal(input: &str) -> (output: String)
    ensures
        output@ == pascal_case(input@),
{
    heck::AsPascalCase(input).to_string()
}

/// `heck::AsLowerCamelCase`, written out: the text in lower camel case.
#[verifier::external_body]
fn to_lower_camel(input: &str) -> (output: String)
    ensures
        output@ == lower_camel_case(input@),
{
    heck::AsLowerCamelCase(input).to_string()
}

/// `heck::AsSnakeCase`, written out: the text in snake case.
#[verifier::external_body]
fn to_snake(input: &str) -> (output: String)
    ensures
        output@ == snake_case(input@),
{
    heck::AsSnakeCase(input).to_string()
}

/// `heck::AsShoutySnakeCase`, written out: the text in shouty snake case.
#[verifier::external_body]
fn to_shouty_snake(input: &str) -> (output: String)
    ensures
        output@ == shouty_snake_case(input@),
{
    heck::AsShoutySnakeCase(input).to_string()
}

/// `heck::AsKebabCase`, written out: the text in kebab case.
#[verifier::external_body]
fn to_kebab(input: &str) -> (output: String)
    ensures
        output@ == kebab_case(input@),
{
    heck::AsKebabCase(input).to_string()
}

/// `heck::AsShoutyKebabCase`, written out: the text in shouty kebab case.
#[verifier::external_body]
fn to_shouty_kebab(input: &str) -> (output: String)
    ensures
        output@ == shouty_kebab_case(input@),
{
    heck::AsShoutyKebabCase(input).to_string()
}

/// A text in the given convention.
pub open spec fn cased(conv: NamingConvention, input: Seq<char>) -> Seq<char> {
    match conv {
        NamingConvention::Pascal => pascal_case(input),
        NamingConvention::LowerCamel => lower_camel_case(input),
        NamingConvention::Snake => snake_case(input),
        NamingConvention::ShoutySnake => shouty_snake_case(input),
        NamingConvention::Kebab => kebab_case(input),
        NamingConvention::ShoutyKebab => shouty_kebab_case(input),
    }
}

impl NamingConventionConfig {
    /// The configuration for the four conventions given, or, where there is
    /// a global convention, the one that uses it for every kind.
    pub fn new(
        global: Option<NamingConvention>,
        types: NamingConvention,
        enum_variants: NamingConvention,
        struct_fields: NamingConvention,
        procs: NamingConvention,
    ) -> (config: Self)
        ensures
            config == match global {
                Some(all) => NamingConventionConfig {
                    types: all,
                    struct_fields: all,
                    enum_variants: all,
                    procs: all,
                },
                None => NamingConventionConfig { types, struct_fields, enum_variants, procs },
            },
    {
        match global {
            Some(all) => Self { types: all, struct_fields: all, enum_variants: all, procs: all },
            None => Self { types, struct_fields, enum_variants, procs },
        }
    }

    /// Rewrites a text in the given convention.
    pub fn apply(conv: NamingConvention, input: &str) -> (output: String)
        ensures
            output@ == cased(conv, input@),
    {
        match conv {
            NamingConvention::Pascal => to_pascal(input),
            NamingConvention::LowerCamel => to_lower_camel(input),
            NamingConvention::Snake => to_snake(input),
            NamingConvention::ShoutySnake => to_shouty_snake(input),
            NamingConvention::Kebab => to_kebab(input),
            NamingConvention::ShoutyKebab => to_shouty_kebab(input),
        }
    }

    pub fn apply_types(&self, input: &str) -> (output: String)
        ensures
            output@ == cased(self.types, input@),
    {
        Self::apply(self.types, input)
    }

    pub fn apply_enum_variants(&self, input: &str) -> (output: String)
        ensures
            output@ == cased(self.enum_variants, input@),
    {
        Self::apply(self.enum_variants, input)
    }

    pub fn apply_struct_fields(&self, input: &str) -> (output: String)
        ensures
            output@ == cased(self.struct_fields, input@),
    {
        Self::apply(self.struct_fields, input)
    }

    pub fn apply_procs(&self, input: &str) -> (output: String)
        ensures
            output@ == cased(self.procs, input@),
    {
        Self::apply(self.procs, input)
    }
}

} // verus!
