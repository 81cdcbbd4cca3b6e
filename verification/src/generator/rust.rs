//! The generator for Rust.

use crate::ast::{
    EnumView, FieldView, ParsedBultin, ParsedEnum, ParsedProcedure,
    ParsedProcedureParam, ParsedRpcContainer, ParsedStruct, ParsedStructField, ParsedTypeKind,
    ProcedureView, StructView, TypeView, VariantView,
};
use crate::generator::{join_lines, joined, CodeGenerator};
use crate::naming::{cased, NamingConventionConfig};
use crate::spanned::{copy_spanned, Spanned};
use crate::text::{int_text, render_int};
use crate::token::IntToken;
use vstd::prelude::*;

verus! {

pub struct RustCodeGenerator;

/// The Rust name of an integer type.
pub open spec fn int_type_text(width: IntToken) -> Seq<char> {
    match width {
        IntToken::Int8 => "i8"@,
        IntToken::Int16 => "i16"@,
        IntToken::Int32 => "i32"@,
        IntToken::Int64 => "i64"@,
        IntToken::UInt8 => "u8"@,
        IntToken::UInt16 => "u16"@,
        IntToken::UInt32 => "u32"@,
        IntToken::UInt64 => "u64"@,
    }
}

/// The Rust type for a type reference; nothing for the type "nothing".
pub open spec fn type_text(kind: TypeView, config: NamingConventionConfig) -> Seq<char>
    decreases kind,
{
    match kind {
        TypeView::Nothing => Seq::empty(),
        TypeView::Int(width) => int_type_text(width),
        TypeView::VariableInt(width) => "::olympus_net_common::Variable<"@ + int_type_text(width)
            + ">"@,
        TypeView::String => "String"@,
        TypeView::Array(inner) => "Vec<"@ + type_text(inner.value, config) + ">"@,
        TypeView::Option(inner) => "Option<"@ + type_text(inner.value, config) + ">"@,
        TypeView::External(name) => cased(config.types, name),
    }
}

pub open spec fn variant_decl_line(variant: VariantView, config: NamingConventionConfig) -> Seq<char> {
    "\t"@ + cased(config.enum_variants, variant.ident.value) + " = "@ + int_text(
        variant.value as int,
    ) + ","@
}

pub open spec fn variant_decl_lines(variants: Seq<VariantView>, config: NamingConventionConfig) -> Seq<
    Seq<char>,
> {
    variants.map_values(|variant: VariantView| variant_decl_line(variant, config))
}

/// The declaration of an enum: 16 bits wide, each variant with its tag, in
/// source order.
pub open spec fn enum_decl_text(parsed: EnumView, config: NamingConventionConfig) -> Seq<char> {
    "\n#[derive(Debug, Clone, Copy)]\n#[repr(u16)]\npub enum "@ + cased(
        config.types,
        parsed.ident.value,
    ) + " {\n"@ + joined(variant_decl_lines(parsed.variants, config)) + "\n}\n"@
}

pub open spec fn variant_match_line(variant: VariantView, config: NamingConventionConfig) -> Seq<
    char,
> {
    "\t\t\t"@ + int_text(variant.value as int) + " => Ok(Self::"@ + cased(
        config.enum_variants,
        variant.ident.value,
    ) + "),"@
}

pub open spec fn variant_match_lines(variants: Seq<VariantView>, config: NamingConventionConfig) -> Seq<
    Seq<char>,
> {
    variants.map_values(|variant: VariantView| variant_match_line(variant, config))
}

/// The decoder of an enum: it reads the tag as a big-endian `u16` and fails
/// on a tag that no variant has.
pub open spec fn enum_input_text(parsed: EnumView, config: NamingConventionConfig) -> Seq<char> {
    "\nimpl ::olympus_net_common::ProcedureInput for "@ + cased(config.types, parsed.ident.value)
        + " {\n    fn deserialize(input: &mut ::olympus_net_common::bytes::BytesMut) -> ::olympus_net_common::Result<Self> {\n        use ::olympus_net_common::bytes::Buf;\n        let tag = input.get_u16();\n        match tag {\n"@
        + joined(variant_match_lines(parsed.variants, config))
        + "\n            _ => Err(::olympus_net_common::error!(\"invalid tag: {tag}\")),\n        }\n    }\n}\n"@
}

/// The encoder of an enum: it writes the tag as a big-endian `u16`.
pub open spec fn enum_output_text(parsed: EnumView, config: NamingConventionConfig) -> Seq<char> {
    "\nimpl ::olympus_net_common::ProcedureOutput for "@ + cased(config.types, parsed.ident.value)
        + " {\n    fn serialize(&self) -> ::olympus_net_common::Result<::olympus_net_common::bytes::BytesMut> {\n        use ::olympus_net_common::bytes::BufMut;\n        let mut out = ::olympus_net_common::bytes::BytesMut::with_capacity(::std::mem::size_of::<u16>());\n        out.put_u16(*self as _);\n        Ok(out)\n    }\n}\n"@
}

pub open spec fn field_decl_line(field: FieldView, config: NamingConventionConfig) -> Seq<char> {
    "\tpub "@ + cased(config.struct_fields, field.ident.value) + ": "@ + type_text(
        field.kind.value,
        config,
    ) + ","@
}

pub open spec fn field_decl_lines(fields: Seq<FieldView>, config: NamingConventionConfig) -> Seq<
    Seq<char>,
> {
    fields.map_values(|field: FieldView| field_decl_line(field, config))
}

/// The declaration of a struct with the given name: its fields in source order.
pub open spec fn struct_decl_text(
    name: Seq<char>,
    fields: Seq<FieldView>,
    config: NamingConventionConfig,
) -> Seq<char> {
    "\n#[derive(Debug, Clone)]\npub struct "@ + cased(config.types, name) + " {\n"@ + joined(
        field_decl_lines(fields, config),
    ) + "\n}\n"@
}

pub open spec fn field_input_line(ident: Spanned<Seq<char>>, config: NamingConventionConfig) -> Seq<
    char,
> {
    "\t\t\t"@ + cased(config.struct_fields, ident.value)
        + ": ::olympus_net_common::ProcedureInput::deserialize(input)?,"@
}

pub open spec fn field_input_lines(
    idents: Seq<Spanned<Seq<char>>>,
    config: NamingConventionConfig,
) -> Seq<Seq<char>> {
    idents.map_values(|ident: Spanned<Seq<char>>| field_input_line(ident, config))
}

/// The decoder of a struct: it reads the fields in source order.
pub open spec fn struct_input_text(
    name: Seq<char>,
    idents: Seq<Spanned<Seq<char>>>,
    config: NamingConventionConfig,
) -> Seq<char> {
    "\nimpl ::olympus_net_common::ProcedureInput for "@ + cased(config.types, name)
        + " {\n    fn deserialize(input: &mut ::olympus_net_common::bytes::BytesMut) -> ::olympus_net_common::Result<Self> {\n        Ok(Self {\n"@
        + joined(field_input_lines(idents, config)) + "\n        })\n    }\n}\n"@
}

pub open spec fn field_output_line(ident: Spanned<Seq<char>>, config: NamingConventionConfig) -> Seq<
    char,
> {
    "\t\tout.extend(self."@ + cased(config.struct_fields, ident.value) + ".serialize()?);"@
}

pub open spec fn field_output_lines(
    idents: Seq<Spanned<Seq<char>>>,
    config: NamingConventionConfig,
) -> Seq<Seq<char>> {
    idents.map_values(|ident: Spanned<Seq<char>>| field_output_line(ident, config))
}

/// The encoder of a struct: it writes the fields in source order.
pub open spec fn struct_output_text(
    name: Seq<char>,
    idents: Seq<Spanned<Seq<char>>>,
    config: NamingConventionConfig,
) -> Seq<char> {
    "\nimpl ::olympus_net_common::ProcedureOutput for "@ + cased(config.types, name)
        + " {\n    fn serialize(&self) -> ::olympus_net_common::Result<::olympus_net_common::bytes::BytesMut> {\n        let mut out = ::olympus_net_common::bytes::BytesMut::new();\n"@
        + joined(field_output_lines(idents, config)) + "\n        Ok(out)\n    }\n}\n"@
}

/// The identifiers of fields, in order.
pub open spec fn idents_of(fields: Seq<FieldView>) -> Seq<Spanned<Seq<char>>> {
    fields.map_values(|field: FieldView| field.ident)
}

/// The name of the struct that holds a procedure's parameters.
pub open spec fn params_name(procedure: Seq<char>) -> Seq<char> {
    procedure + "Params"@
}

/// What a server operation returns.
pub open spec fn return_text(kind: TypeView, config: NamingConventionConfig) -> Seq<char> {
    if type_text(kind, config).len() == 0 {
        "::olympus_net_common::Result<()>"@
    } else {
        "::olympus_net_common::Result<"@ + type_text(kind, config) + ">"@
    }
}

/// The parameter of a server operation behind the context; nothing for a
/// procedure without parameters.
pub open spec fn operation_params_text(
    procedure: ProcedureView,
    config: NamingConventionConfig,
) -> Seq<char> {
    if procedure.params.len() == 0 {
        Seq::empty()
    } else {
        ", params: "@ + cased(config.types, params_name(procedure.ident.value))
    }
}

pub open spec fn operation_line(procedure: ProcedureView, config: NamingConventionConfig) -> Seq<
    char,
> {
    "\tasync fn "@ + cased(config.procs, procedure.ident.value) + "(context: Ctx"@
        + operation_params_text(procedure, config) + ") -> "@ + return_text(
        procedure.return_kind.value,
        config,
    ) + ";"@
}

pub open spec fn operation_lines(
    procedures: Seq<ProcedureView>,
    config: NamingConventionConfig,
) -> Seq<Seq<char>> {
    procedures.map_values(|procedure: ProcedureView| operation_line(procedure, config))
}

/// The line that registers one operation. The name in double quotes is
/// the procedure's name exactly as the definition file has it.
pub open spec fn registration_line(procedure: ProcedureView, config: NamingConventionConfig) -> Seq<
    char,
> {
    if procedure.params.len() == 0 {
        "\tserver.register_procedure(\""@ + procedure.ident.value + "\", |ctx, (): ()| I::"@
            + cased(config.procs, procedure.ident.value) + "(ctx)).await;\n"@
    } else {
        "\tserver.register_procedure(\""@ + procedure.ident.value + "\", I::"@ + cased(
            config.procs,
            procedure.ident.value,
        ) + ").await;\n"@
    }
}

/// The lines that register the first `n` operations.
pub open spec fn registration_lines(
    procedures: Seq<ProcedureView>,
    config: NamingConventionConfig,
    n: int,
) -> Seq<char>
    decreases n,
{
    if n <= 0 {
        Seq::empty()
    } else {
        registration_lines(procedures, config, n - 1) + registration_line(
            procedures[n - 1],
            config,
        )
    }
}

fn int_type_str(width: IntToken) -> (text: &'static str)
    ensures
        text@ == int_type_text(width),
{
    match width {
        IntToken::Int8 => "i8",
        IntToken::Int16 => "i16",
        IntToken::Int32 => "i32",
        IntToken::Int64 => "i64",
        IntToken::UInt8 => "u8",
        IntToken::UInt16 => "u16",
        IntToken::UInt32 => "u32",
        IntToken::UInt64 => "u64",
    }
}

/// The identifiers of struct fields.
fn field_idents(fields: &Vec<ParsedStructField>) -> (idents: Vec<Spanned<String>>)
    ensures
        idents.deep_view() == idents_of(fields.deep_view()),
{
    let mut idents: Vec<Spanned<String>> = Vec::new();
    let mut i: usize = 0;
    while i < fields.len()
        invariant
            i <= fields.len(),
            idents.len() == i,
            forall|k: int| 0 <= k < i ==> (#[trigger] idents[k]).deep_view() == fields[k].ident.deep_view(),
        decreases fields.len() - i,
    {
        idents.push(copy_spanned(&fields[i].ident));
        i += 1;
    }
    assert(idents.deep_view() =~= idents_of(fields.deep_view()));
    idents
}

/// The identifiers of parameters.
fn param_idents(params: &Vec<ParsedProcedureParam>) -> (idents: Vec<Spanned<String>>)
    ensures
        idents.deep_view() == idents_of(params.deep_view()),
{
    let mut idents: Vec<Spanned<String>> = Vec::new();
    let mut i: usize = 0;
    while i < params.len()
        invariant
            i <= params.len(),
            idents.len() == i,
            forall|k: int| 0 <= k < i ==> (#[trigger] idents[k]).deep_view() == params[k].ident.deep_view(),
        decreases params.len() - i,
    {
        idents.push(copy_spanned(&params[i].ident));
        i += 1;
    }
    assert(idents.deep_view() =~= idents_of(params.deep_view()));
    idents
}

impl RustCodeGenerator {
    pub fn generate_enum_decl(
        parsed: &ParsedEnum,
        output: &mut String,
        naming_convention_config: &NamingConventionConfig,
    )
        ensures
            final(output)@ == old(output)@ + enum_decl_text(
                parsed.deep_view(),
                *naming_convention_config,
            ),
    {
        let ghost config = *naming_convention_config;
        let ghost wanted = variant_decl_lines(parsed.variants.deep_view(), config);
        let mut lines: Vec<String> = Vec::new();
        let mut i: usize = 0;
        while i < parsed.variants.len()
            invariant
                i <= parsed.variants.len(),
                config == *naming_convention_config,
                wanted == variant_decl_lines(parsed.variants.deep_view(), config),
                lines.len() == i,
                forall|k: int| 0 <= k < i ==> (#[trigger] lines[k])@ == wanted[k],
            decreases parsed.variants.len() - i,
        {
            let variant = &parsed.variants[i];
            let mut line = String::from_str("\t");
            line.append(naming_convention_config.apply_enum_variants(variant.ident.value.as_str()).as_str());
            line.append(" = ");
            line.append(render_int(variant.value as i32).as_str());
            line.append(",");
            assert(line@ =~= wanted[i as int]);
            lines.push(line);
            i += 1;
        }
        assert(lines.deep_view() =~= wanted);
        let ghost before = output@;
        output.append("\n#[derive(Debug, Clone, Copy)]\n#[repr(u16)]\npub enum ");
        output.append(naming_convention_config.apply_types(parsed.ident.value.as_str()).as_str());
        output.append(" {\n");
        output.append(join_lines(&lines).as_str());
        output.append("\n}\n");
        assert(output@ =~= before + enum_decl_text(parsed.deep_view(), config));
    }

    pub fn generate_enum_input_impl(
        parsed: &ParsedEnum,
        output: &mut String,
        naming_convention_config: &NamingConventionConfig,
    )
        ensures
            final(output)@ == old(output)@ + enum_input_text(
                parsed.deep_view(),
                *naming_convention_config,
            ),
    {
        let ghost config = *naming_convention_config;
        let ghost wanted = variant_match_lines(parsed.variants.deep_view(), config);
        let mut lines: Vec<String> = Vec::new();
        let mut i: usize = 0;
        while i < parsed.variants.len()
            invariant
                i <= parsed.variants.len(),
                config == *naming_convention_config,
                wanted == variant_match_lines(parsed.variants.deep_view(), config),
                lines.len() == i,
                forall|k: int| 0 <= k < i ==> (#[trigger] lines[k])@ == wanted[k],
            decreases parsed.variants.len() - i,
        {
            let variant = &parsed.variants[i];
            let mut line = String::from_str("\t\t\t");
            line.append(render_int(variant.value as i32).as_str());
            line.append(" => Ok(Self::");
            line.append(naming_convention_config.apply_enum_variants(variant.ident.value.as_str()).as_str());
            line.append("),");
            assert(line@ =~= wanted[i as int]);
            lines.push(line);
            i += 1;
        }
        assert(lines.deep_view() =~= wanted);
        let ghost before = output@;
        output.append("\nimpl ::olympus_net_common::ProcedureInput for ");
        output.append(naming_convention_config.apply_types(parsed.ident.value.as_str()).as_str());
        output.append(
            " {\n    fn deserialize(input: &mut ::olympus_net_common::bytes::BytesMut) -> ::olympus_net_common::Result<Self> {\n        use ::olympus_net_common::bytes::Buf;\n        let tag = input.get_u16();\n        match tag {\n",
        );
        output.append(join_lines(&lines).as_str());
        output.append(
            "\n            _ => Err(::olympus_net_common::error!(\"invalid tag: {tag}\")),\n        }\n    }\n}\n",
        );
        assert(output@ =~= before + enum_input_text(parsed.deep_view(), config));
    }

    pub fn generate_enum_output_impl(
        parsed: &ParsedEnum,
        output: &mut String,
        naming_convention_config: &NamingConventionConfig,
    )
        ensures
            final(output)@ == old(output)@ + enum_output_text(
                parsed.deep_view(),
                *naming_convention_config,
            ),
    {
        let ghost before = output@;
        output.append("\nimpl ::olympus_net_common::ProcedureOutput for ");
        output.append(naming_convention_config.apply_types(parsed.ident.value.as_str()).as_str());
        output.append(
            " {\n    fn serialize(&self) -> ::olympus_net_common::Result<::olympus_net_common::bytes::BytesMut> {\n        use ::olympus_net_common::bytes::BufMut;\n        let mut out = ::olympus_net_common::bytes::BytesMut::with_capacity(::std::mem::size_of::<u16>());\n        out.put_u16(*self as _);\n        Ok(out)\n    }\n}\n",
        );
        assert(output@ =~= before + enum_output_text(parsed.deep_view(), *naming_convention_config));
    }

    /// The Rust type for a type reference.
    pub fn parsed_type_kind_to_rust(
        kind: &ParsedTypeKind,
        naming_convention_config: &NamingConventionConfig,
    ) -> (text: String)
        ensures
            text@ == type_text(kind.deep_view(), *naming_convention_config),
        decreases kind,
    {
        match kind {
            ParsedTypeKind::Builtin(ParsedBultin::Nothing) => String::new(),
            ParsedTypeKind::Builtin(ParsedBultin::Int(width)) => String::from_str(
                int_type_str(*width),
            ),
            ParsedTypeKind::Builtin(ParsedBultin::VariableInt(width)) => {
                let mut text = String::from_str("::olympus_net_common::Variable<");
                text.append(int_type_str(*width));
                text.append(">");
                text
            },
            ParsedTypeKind::Builtin(ParsedBultin::String) => String::from_str("String"),
            ParsedTypeKind::Builtin(ParsedBultin::Array(ty)) => {
                let mut text = String::from_str("Vec<");
                text.append(
                    Self::parsed_type_kind_to_rust(&ty.value, naming_convention_config).as_str(),
                );
                text.append(">");
                text
            },
            ParsedTypeKind::Builtin(ParsedBultin::Option(ty)) => {
                let mut text = String::from_str("Option<");
                text.append(
                    Self::parsed_type_kind_to_rust(&ty.value, naming_convention_config).as_str(),
                );
                text.append(">");
                text
            },
            ParsedTypeKind::External(ident) => naming_convention_config.apply_types(ident.as_str()),
        }
    }

    pub fn generate_struct_decl(
        parsed: &ParsedStruct,
        output: &mut String,
        naming_convention_config: &NamingConventionConfig,
    )
        ensures
            final(output)@ == old(output)@ + struct_decl_text(
                parsed.ident.value@,
                parsed.fields.deep_view(),
                *naming_convention_config,
            ),
    {
        let ghost config = *naming_convention_config;
        let ghost wanted = field_decl_lines(parsed.fields.deep_view(), config);
        let mut lines: Vec<String> = Vec::new();
        let mut i: usize = 0;
        while i < parsed.fields.len()
            invariant
                i <= parsed.fields.len(),
                config == *naming_convention_config,
                wanted == field_decl_lines(parsed.fields.deep_view(), config),
                lines.len() == i,
                forall|k: int| 0 <= k < i ==> (#[trigger] lines[k])@ == wanted[k],
            decreases parsed.fields.len() - i,
        {
            let field = &parsed.fields[i];
            let mut line = String::from_str("\tpub ");
            line.append(naming_convention_config.apply_struct_fields(field.ident.value.as_str()).as_str());
            line.append(": ");
            line.append(
                Self::parsed_type_kind_to_rust(&field.kind.value, naming_convention_config).as_str(),
            );
            line.append(",");
            assert(line@ =~= wanted[i as int]);
            lines.push(line);
            i += 1;
        }
        assert(lines.deep_view() =~= wanted);
        let ghost before = output@;
        output.append("\n#[derive(Debug, Clone)]\npub struct ");
        output.append(naming_convention_config.apply_types(parsed.ident.value.as_str()).as_str());
        output.append(" {\n");
        output.append(join_lines(&lines).as_str());
        output.append("\n}\n");
        assert(output@ =~= before + struct_decl_text(
            parsed.ident.value@,
            parsed.fields.deep_view(),
            config,
        ));
    }

    pub fn generate_struct_input_impl(
        ident: &str,
        fields: &Vec<Spanned<String>>,
        output: &mut String,
        naming_convention_config: &NamingConventionConfig,
    )
        ensures
            final(output)@ == old(output)@ + struct_input_text(
                ident@,
                fields.deep_view(),
                *naming_convention_config,
            ),
    {
        let ghost config = *naming_convention_config;
        let ghost wanted = field_input_lines(fields.deep_view(), config);
        let mut lines: Vec<String> = Vec::new();
        let mut i: usize = 0;
        while i < fields.len()
            invariant
                i <= fields.len(),
                config == *naming_convention_config,
                wanted == field_input_lines(fields.deep_view(), config),
                lines.len() == i,
                forall|k: int| 0 <= k < i ==> (#[trigger] lines[k])@ == wanted[k],
            decreases fields.len() - i,
        {
            let mut line = String::from_str("\t\t\t");
            line.append(naming_convention_config.apply_struct_fields(fields[i].value.as_str()).as_str());
            line.append(": ::olympus_net_common::ProcedureInput::deserialize(input)?,");
            assert(line@ =~= wanted[i as int]);
            lines.push(line);
            i += 1;
        }
        assert(lines.deep_view() =~= wanted);
        let ghost before = output@;
        output.append("\nimpl ::olympus_net_common::ProcedureInput for ");
        output.append(naming_convention_config.apply_types(ident).as_str());
        output.append(
            " {\n    fn deserialize(input: &mut ::olympus_net_common::bytes::BytesMut) -> ::olympus_net_common::Result<Self> {\n        Ok(Self {\n",
        );
        output.append(join_lines(&lines).as_str());
        output.append("\n        })\n    }\n}\n");
        assert(output@ =~= before + struct_input_text(ident@, fields.deep_view(), config));
    }

    pub fn generate_struct_output_impl(
        ident: &str,
        fields: &Vec<Spanned<String>>,
        output: &mut String,
        naming_convention_config: &NamingConventionConfig,
    )
        ensures
            final(output)@ == old(output)@ + struct_output_text(
                ident@,
                fields.deep_view(),
                *naming_convention_config,
            ),
    {
        let ghost config = *naming_convention_config;
        let ghost wanted = field_output_lines(fields.deep_view(), config);
        let mut lines: Vec<String> = Vec::new();
        let mut i: usize = 0;
        while i < fields.len()
            invariant
                i <= fields.len(),
                config == *naming_convention_config,
                wanted == field_output_lines(fields.deep_view(), config),
                lines.len() == i,
                forall|k: int| 0 <= k < i ==> (#[trigger] lines[k])@ == wanted[k],
            decreases fields.len() - i,
        {
            let mut line = String::from_str("\t\tout.extend(self.");
            line.append(naming_convention_config.apply_struct_fields(fields[i].value.as_str()).as_str());
            line.append(".serialize()?);");
            assert(line@ =~= wanted[i as int]);
            lines.push(line);
            i += 1;
        }
        assert(lines.deep_view() =~= wanted);
        let ghost before = output@;
        output.append("\nimpl ::olympus_net_common::ProcedureOutput for ");
        output.append(naming_convention_config.apply_types(ident).as_str());
        output.append(
            " {\n    fn serialize(&self) -> ::olympus_net_common::Result<::olympus_net_common::bytes::BytesMut> {\n        let mut out = ::olympus_net_common::bytes::BytesMut::new();\n",
        );
        output.append(join_lines(&lines).as_str());
        output.append("\n        Ok(out)\n    }\n}\n");
        assert(output@ =~= before + struct_output_text(ident@, fields.deep_view(), config));
    }

    /// The line of the server interface for one procedure.
    fn operation(procedure: &ParsedProcedure, naming_convention_config: &NamingConventionConfig) -> (line:
        String)
        ensures
            line@ == operation_line(procedure.deep_view(), *naming_convention_config),
    {
        let return_ty = Self::parsed_type_kind_to_rust(
            &procedure.return_kind.value,
            naming_convention_config,
        );
        let return_ty = if return_ty.as_str().unicode_len() == 0 {
            String::from_str("::olympus_net_common::Result<()>")
        } else {
            let mut text = String::from_str("::olympus_net_common::Result<");
            text.append(return_ty.as_str());
            text.append(">");
            text
        };
        let proc_params = if procedure.params.len() == 0 {
            String::new()
        } else {
            let mut name = procedure.ident.value.clone();
            name.append("Params");
            let mut text = String::from_str(", params: ");
            text.append(naming_convention_config.apply_types(name.as_str()).as_str());
            text
        };
        let mut line = String::from_str("\tasync fn ");
        line.append(naming_convention_config.apply_procs(procedure.ident.value.as_str()).as_str());
        line.append("(context: Ctx");
        line.append(proc_params.as_str());
        line.append(") -> ");
        line.append(return_ty.as_str());
        line.append(";");
        assert(line@ =~= operation_line(procedure.deep_view(), *naming_convention_config));
        line
    }
}

impl CodeGenerator for RustCodeGenerator {
    open spec fn file_header_text(&self) -> Seq<char> {
        "#![allow(unused_qualifications)]\n"@ + "#![allow(non_snake_case)]\n"@
    }

    open spec fn file_footer_text(&self) -> Seq<char> {
        Seq::empty()
    }

    open spec fn enum_text(&self, parsed: EnumView, config: NamingConventionConfig) -> Seq<char> {
        enum_decl_text(parsed, config) + enum_input_text(parsed, config) + enum_output_text(
            parsed,
            config,
        )
    }

    open spec fn struct_text(&self, parsed: StructView, config: NamingConventionConfig) -> Seq<char> {
        struct_decl_text(parsed.ident.value, parsed.fields, config) + struct_input_text(
            parsed.ident.value,
            idents_of(parsed.fields),
            config,
        ) + struct_output_text(parsed.ident.value, idents_of(parsed.fields), config)
    }

    open spec fn server_text(&self, procedures: Seq<ProcedureView>, config: NamingConventionConfig) -> Seq<
        char,
    > {
        "#[::olympus_net_common::async_trait]\n"@ + "pub trait "@ + cased(
            config.types,
            "ServerRpc"@,
        ) + "<Ctx: Clone + Send + Sync + 'static> {\n"@ + joined(
            operation_lines(procedures, config),
        ) + "\n}\n"@
    }

    open spec fn registration_text(
        &self,
        procedures: Seq<ProcedureView>,
        config: NamingConventionConfig,
    ) -> Seq<char> {
        "pub async fn "@ + cased(config.procs, "register_procedures"@)
            + "<C: Clone + Send + Sync + 'static, I: "@ + cased(config.types, "ServerRpc"@)
            + "<C> + 'static>(server: &mut ::olympus_server::OlympusServer<C>, _imp: I) {\n"@
            + registration_lines(procedures, config, procedures.len() as int) + "}\n"@
    }

    open spec fn params_text(&self, parsed: ProcedureView, config: NamingConventionConfig) -> Seq<
        char,
    > {
        if parsed.params.len() == 0 {
            Seq::empty()
        } else {
            let name = params_name(parsed.ident.value);
            struct_decl_text(name, parsed.params, config) + struct_input_text(
                name,
                idents_of(parsed.params),
                config,
            ) + struct_output_text(name, idents_of(parsed.params), config)
        }
    }

    fn generate_file_header(&self, output: &mut String) {
        output.append("#![allow(unused_qualifications)]\n");
        output.append("#![allow(non_snake_case)]\n");
        assert(output@ =~= old(output)@ + self.file_header_text());
    }

    fn generate_file_footer(&self, output: &mut String) {
        assert(output@ =~= old(output)@ + self.file_footer_text());
    }

    fn generate_enum(
        &self,
        parsed: &ParsedEnum,
        output: &mut String,
        naming_convention_config: &NamingConventionConfig,
    ) {
        Self::generate_enum_decl(parsed, output, naming_convention_config);
        Self::generate_enum_input_impl(parsed, output, naming_convention_config);
        Self::generate_enum_output_impl(parsed, output, naming_convention_config);
        assert(output@ =~= old(output)@ + self.enum_text(
            parsed.deep_view(),
            *naming_convention_config,
        ));
    }

    fn generate_struct(
        &self,
        parsed: &ParsedStruct,
        output: &mut String,
        naming_convention_config: &NamingConventionConfig,
    ) {
        let field_idents = field_idents(&parsed.fields);
        Self::generate_struct_decl(parsed, output, naming_convention_config);
        Self::generate_struct_input_impl(
            parsed.ident.value.as_str(),
            &field_idents,
            output,
            naming_convention_config,
        );
        Self::generate_struct_output_impl(
            parsed.ident.value.as_str(),
            &field_idents,
            output,
            naming_convention_config,
        );
        assert(output@ =~= old(output)@ + self.struct_text(
            parsed.deep_view(),
            *naming_convention_config,
        ));
    }

    fn generate_abstract_server_impl(
        &self,
        parsed: &ParsedRpcContainer,
        output: &mut String,
        naming_convention_config: &NamingConventionConfig,
    ) {
        let ghost config = *naming_convention_config;
        let ghost wanted = operation_lines(parsed.procedures.deep_view(), config);
        let mut lines: Vec<String> = Vec::new();
        let mut i: usize = 0;
        while i < parsed.procedures.len()
            invariant
                i <= parsed.procedures.len(),
                config == *naming_convention_config,
                wanted == operation_lines(parsed.procedures.deep_view(), config),
                lines.len() == i,
                forall|k: int| 0 <= k < i ==> (#[trigger] lines[k])@ == wanted[k],
            decreases parsed.procedures.len() - i,
        {
            lines.push(Self::operation(&parsed.procedures[i], naming_convention_config));
            i += 1;
        }
        assert(lines.deep_view() =~= wanted);
        output.append("#[::olympus_net_common::async_trait]\n");
        output.append("pub trait ");
        output.append(naming_convention_config.apply_types("ServerRpc").as_str());
        output.append("<Ctx: Clone + Send + Sync + 'static> {\n");
        output.append(join_lines(&lines).as_str());
        output.append("\n}\n");
        assert(output@ =~= old(output)@ + self.server_text(parsed.procedures.deep_view(), config));
    }

    fn generate_server_registration_fn(
        &self,
        parsed: &ParsedRpcContainer,
        output: &mut String,
        naming_convention_config: &NamingConventionConfig,
    ) {
        let ghost config = *naming_convention_config;
        let ghost procedures = parsed.procedures.deep_view();
        output.append("pub async fn ");
        output.append(naming_convention_config.apply_procs("register_procedures").as_str());
        output.append("<C: Clone + Send + Sync + 'static, I: ");
        output.append(naming_convention_config.apply_types("ServerRpc").as_str());
        output.append(
            "<C> + 'static>(server: &mut ::olympus_server::OlympusServer<C>, _imp: I) {\n",
        );
        let ghost head = output@;
        assert(head + Seq::<char>::empty() =~= head);
        let mut i: usize = 0;
        while i < parsed.procedures.len()
            invariant
                i <= parsed.procedures.len(),
                config == *naming_convention_config,
                procedures == parsed.procedures.deep_view(),
                output@ == head + registration_lines(procedures, config, i as int),
            decreases parsed.procedures.len() - i,
        {
            let procedure = &parsed.procedures[i];
            let ghost sofar = output@;
            output.append("\tserver.register_procedure(\"");
            output.append(procedure.ident.value.as_str());
            if procedure.params.len() == 0 {
                output.append("\", |ctx, (): ()| I::");
                output.append(
                    naming_convention_config.apply_procs(procedure.ident.value.as_str()).as_str(),
                );
                output.append("(ctx)).await;\n");
            } else {
                output.append("\", I::");
                output.append(
                    naming_convention_config.apply_procs(procedure.ident.value.as_str()).as_str(),
                );
                output.append(").await;\n");
            }
            assert(output@ =~= sofar + registration_line(procedures[i as int], config));
            i += 1;
            assert(output@ =~= head + registration_lines(procedures, config, i as int));
        }
        output.append("}\n");
        assert(output@ =~= old(output)@ + self.registration_text(procedures, config));
    }

    fn generate_procedure_params(
        &self,
        parsed: &ParsedProcedure,
        output: &mut String,
        naming_convention_config: &NamingConventionConfig,
    ) {
        if parsed.params.len() == 0 {
            assert(output@ =~= old(output)@ + self.params_text(
                parsed.deep_view(),
                *naming_convention_config,
            ));
            return ;
        }
        let mut struct_ident = parsed.ident.value.clone();
        struct_ident.append("Params");
        let decl = ParsedStruct {
            ident: Spanned::new(struct_ident.clone(), 0..0),
            fields: params_as_fields(&parsed.params),
        };
        let param_idents = param_idents(&parsed.params);
        Self::generate_struct_decl(&decl, output, naming_convention_config);
        Self::generate_struct_input_impl(
            struct_ident.as_str(),
            &param_idents,
            output,
            naming_convention_config,
        );
        Self::generate_struct_output_impl(
            struct_ident.as_str(),
            &param_idents,
            output,
            naming_convention_config,
        );
        assert(output@ =~= old(output)@ + self.params_text(
            parsed.deep_view(),
            *naming_convention_config,
        ));
    }
}

/// A copy of a type reference.
fn copy_kind(kind: &ParsedTypeKind) -> (copy: ParsedTypeKind)
    ensures
        copy.deep_view() == kind.deep_view(),
    decreases kind,
{
    match kind {
        ParsedTypeKind::Builtin(ParsedBultin::Nothing) => ParsedTypeKind::Builtin(
            ParsedBultin::Nothing,
        ),
        ParsedTypeKind::Builtin(ParsedBultin::Int(width)) => ParsedTypeKind::Builtin(
            ParsedBultin::Int(*width),
        ),
        ParsedTypeKind::Builtin(ParsedBultin::VariableInt(width)) => ParsedTypeKind::Builtin(
            ParsedBultin::VariableInt(*width),
        ),
        ParsedTypeKind::Builtin(ParsedBultin::String) => ParsedTypeKind::Builtin(
            ParsedBultin::String,
        ),
        ParsedTypeKind::Builtin(ParsedBultin::Array(inner)) => ParsedTypeKind::Builtin(
            ParsedBultin::Array(
                Box::new(
                    Spanned {
                        value: copy_kind(&inner.value),
                        span: inner.span.start..inner.span.end,
                    },
                ),
            ),
        ),
        ParsedTypeKind::Builtin(ParsedBultin::Option(inner)) => ParsedTypeKind::Builtin(
            ParsedBultin::Option(
                Box::new(
                    Spanned {
                        value: copy_kind(&inner.value),
                        span: inner.span.start..inner.span.end,
                    },
                ),
            ),
        ),
        ParsedTypeKind::External(name) => ParsedTypeKind::External(name.clone()),
    }
}

/// The parameters as the fields of a struct.
fn params_as_fields(params: &Vec<ParsedProcedureParam>) -> (fields: Vec<ParsedStructField>)
    ensures
        fields.deep_view() == params.deep_view(),
{
    let mut fields: Vec<ParsedStructField> = Vec::new();
    let mut i: usize = 0;
    while i < params.len()
        invariant
            i <= params.len(),
            fields.len() == i,
            forall|k: int| 0 <= k < i ==> (#[trigger] fields[k]).deep_view() == params[k].deep_view(),
        decreases params.len() - i,
    {
        let param = &params[i];
        fields.push(
            ParsedStructField {
                ident: copy_spanned(&param.ident),
                kind: Spanned {
                    value: copy_kind(&param.kind.value),
                    span: param.kind.span.start..param.kind.span.end,
                },
            },
        );
        i += 1;
    }
    assert(fields.deep_view() =~= params.deep_view());
    fields
}

} // verus!
