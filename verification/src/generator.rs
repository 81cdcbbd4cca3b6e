//! Code generation.
//!
//! A generator writes the bindings for a parsed file as source text of its
//! target language. What each piece of a file is turned into is given by
//! the generator's text functions; the methods append exactly that text.

use crate::ast::{
    EnumView, FileView, ParsedEnum, ParsedProcedure, ParsedRpcContainer, ParsedStruct,
    ProcedureView, StructView,
};
use crate::naming::NamingConventionConfig;
use crate::parser::Parser;
use vstd::prelude::*;

pub mod rust;

verus! {

/// The lines, with a line feed between each two.
pub open spec fn joined(lines: Seq<Seq<char>>) -> Seq<char>
    decreases lines.len(),
{
    if lines.len() == 0 {
        Seq::empty()
    } else if lines.len() == 1 {
        lines[0]
    } else {
        joined(lines.drop_last()) + "\n"@ + lines.last()
    }
}

/// Joins the lines with line feeds.
pub fn join_lines(lines: &Vec<String>) -> (text: String)
    ensures
        text@ == joined(lines.deep_view()),
{
    let ghost all = lines.deep_view();
    let mut text = String::new();
    let mut i: usize = 0;
    assert(all.take(0) =~= Seq::<Seq<char>>::empty());
    while i < lines.len()
        invariant
            i <= lines.len(),
            all == lines.deep_view(),
            text@ == joined(all.take(i as int)),
        decreases lines.len() - i,
    {
        proof {
            let next = all.take(i + 1);
            assert(next.drop_last() =~= all.take(i as int));
            assert(next.last() == lines[i as int]@);
        }
        if i > 0 {
            text.append("\n");
        }
        text.append(lines[i].as_str());
        proof {
            if i == 0 {
                assert(text@ =~= lines[0]@);
            }
        }
        i += 1;
    }
    assert(all.take(lines.len() as int) =~= all);
    text
}

pub trait CodeGenerator {
    /// What stands at the top of a generated file.
    spec fn file_header_text(&self) -> Seq<char>;

    /// What stands at the bottom of a generated file.
    spec fn file_footer_text(&self) -> Seq<char>;

    /// The declaration of an enum, with its decoder and encoder.
    spec fn enum_text(&self, parsed: EnumView, config: NamingConventionConfig) -> Seq<char>;

    /// The declaration of a struct, with its decoder and encoder.
    spec fn struct_text(&self, parsed: StructView, config: NamingConventionConfig) -> Seq<char>;

    /// The interface that a server implements: one operation for each procedure.
    spec fn server_text(&self, procedures: Seq<ProcedureView>, config: NamingConventionConfig) -> Seq<
        char,
    >;

    /// The function that registers each operation under the procedure's
    /// name as the definition file has it.
    spec fn registration_text(
        &self,
        procedures: Seq<ProcedureView>,
        config: NamingConventionConfig,
    ) -> Seq<char>;

    /// The struct that holds the parameters of a procedure, with its
    /// decoder and encoder; nothing for a procedure without parameters.
    spec fn params_text(&self, parsed: ProcedureView, config: NamingConventionConfig) -> Seq<char>;

    fn generate_file_header(&self, output: &mut String)
        ensures
            final(output)@ == old(output)@ + self.file_header_text(),
    ;

    fn generate_file_footer(&self, output: &mut String)
        ensures
            final(output)@ == old(output)@ + self.file_footer_text(),
    ;

    fn generate_enum(
        &self,
        parsed: &ParsedEnum,
        output: &mut String,
        naming_convention_config: &NamingConventionConfig,
    )
        ensures
            final(output)@ == old(output)@ + self.enum_text(
                parsed.deep_view(),
                *naming_convention_config,
            ),
    ;

    fn generate_struct(
        &self,
        parsed: &ParsedStruct,
        output: &mut String,
        naming_convention_config: &NamingConventionConfig,
    )
        ensures
            final(output)@ == old(output)@ + self.struct_text(
                parsed.deep_view(),
                *naming_convention_config,
            ),
    ;

    fn generate_abstract_server_impl(
        &self,
        parsed: &ParsedRpcContainer,
        output: &mut String,
        naming_convention_config: &NamingConventionConfig,
    )
        ensures
            final(output)@ == old(output)@ + self.server_text(
                parsed.procedures.deep_view(),
                *naming_convention_config,
            ),
    ;

    fn generate_server_registration_fn(
        &self,
        parsed: &ParsedRpcContainer,
        output: &mut String,
        naming_convention_config: &NamingConventionConfig,
    )
        ensures
            final(output)@ == old(output)@ + self.registration_text(
                parsed.procedures.deep_view(),
                *naming_convention_config,
            ),
    ;

    fn generate_procedure_params(
        &self,
        parsed: &ParsedProcedure,
        output: &mut String,
        naming_convention_config: &NamingConventionConfig,
    )
        ensures
            final(output)@ == old(output)@ + self.params_text(
                parsed.deep_view(),
                *naming_convention_config,
            ),
    ;
}

/// The text for the first `n` enums.
pub open spec fn enums_text<G: CodeGenerator + ?Sized>(
    generator: &G,
    enums: Seq<EnumView>,
    config: NamingConventionConfig,
    n: int,
) -> Seq<char>
    decreases n,
{
    if n <= 0 {
        Seq::empty()
    } else {
        enums_text(generator, enums, config, n - 1) + generator.enum_text(enums[n - 1], config)
    }
}

/// The text for the first `n` structs.
pub open spec fn structs_text<G: CodeGenerator + ?Sized>(
    generator: &G,
    structs: Seq<StructView>,
    config: NamingConventionConfig,
    n: int,
) -> Seq<char>
    decreases n,
{
    if n <= 0 {
        Seq::empty()
    } else {
        structs_text(generator, structs, config, n - 1) + generator.struct_text(
            structs[n - 1],
            config,
        )
    }
}

/// The parameter structs of the first `n` procedures.
pub open spec fn all_params_text<G: CodeGenerator + ?Sized>(
    generator: &G,
    procedures: Seq<ProcedureView>,
    config: NamingConventionConfig,
    n: int,
) -> Seq<char>
    decreases n,
{
    if n <= 0 {
        Seq::empty()
    } else {
        all_params_text(generator, procedures, config, n - 1) + generator.params_text(
            procedures[n - 1],
            config,
        )
    }
}

/// The models of a file.
pub open spec fn models_text<G: CodeGenerator + ?Sized>(
    generator: &G,
    file: FileView,
    config: NamingConventionConfig,
) -> Seq<char> {
    enums_text(generator, file.enums, config, file.enums.len() as int) + structs_text(
        generator,
        file.structs,
        config,
        file.structs.len() as int,
    ) + all_params_text(generator, file.procedures, config, file.procedures.len() as int)
}

/// Writes the models of a file: its enums, its structs, and the
/// parameter structs of its procedures, each in source order.
pub fn generate_models<G: CodeGenerator>(
    generator: &G,
    parser: &Parser,
    output: &mut String,
    naming_convention_config: &NamingConventionConfig,
)
    ensures
        final(output)@ == old(output)@ + models_text(
            generator,
            parser.file(),
            *naming_convention_config,
        ),
{
    let ghost before = output@;
    let ghost file = parser.file();
    let ghost config = *naming_convention_config;
    assert(before + Seq::<char>::empty() =~= before);
    let mut i: usize = 0;
    while i < parser.enums.len()
        invariant
            i <= parser.enums.len(),
            file == parser.file(),
            config == *naming_convention_config,
            output@ == before + enums_text(generator, file.enums, config, i as int),
        decreases parser.enums.len() - i,
    {
        let ghost sofar = output@;
        generator.generate_enum(&parser.enums[i], output, naming_convention_config);
        i += 1;
        assert(output@ =~= before + enums_text(generator, file.enums, config, i as int));
    }
    let ghost enums = enums_text(generator, file.enums, config, file.enums.len() as int);
    assert(before + enums + Seq::<char>::empty() =~= before + enums);
    let mut i: usize = 0;
    while i < parser.structs.len()
        invariant
            i <= parser.structs.len(),
            file == parser.file(),
            config == *naming_convention_config,
            output@ == before + enums + structs_text(generator, file.structs, config, i as int),
        decreases parser.structs.len() - i,
    {
        generator.generate_struct(&parser.structs[i], output, naming_convention_config);
        i += 1;
        assert(output@ =~= before + enums + structs_text(generator, file.structs, config, i as int));
    }
    let ghost structs = structs_text(generator, file.structs, config, file.structs.len() as int);
    assert(before + enums + structs + Seq::<char>::empty() =~= before + enums + structs);
    let procedures = &parser.rpc_container.procedures;
    let mut i: usize = 0;
    while i < procedures.len()
        invariant
            i <= procedures.len(),
            procedures.deep_view() == file.procedures,
            config == *naming_convention_config,
            output@ == before + enums + structs + all_params_text(
                generator,
                file.procedures,
                config,
                i as int,
            ),
        decreases procedures.len() - i,
    {
        generator.generate_procedure_params(&procedures[i], output, naming_convention_config);
        i += 1;
        assert(output@ =~= before + enums + structs + all_params_text(
            generator,
            file.procedures,
            config,
            i as int,
        ));
    }
    assert(output@ =~= before + models_text(generator, file, config));
}


} // verus!
