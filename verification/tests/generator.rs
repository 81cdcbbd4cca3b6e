use olympus::compile::{generate, verify_src};
use olympus::generator::rust::RustCodeGenerator;
use olympus::generator::{generate_models, join_lines, CodeGenerator};
use olympus::naming::{CompileLanguage, NamingConvention, NamingConventionConfig};
use olympus::parser::Parser;

const SOURCE: &str = "enum Action { Delete -> 1; SecureDelete -> 2; }\nstruct File { path -> @string; size -> @varuint64; content -> @array[@uint8]; afterAction -> @option[Action]; }\nrpc { proc getServerVersion() -> @int8; proc getFile(path -> @string, after_action -> @option[Action]) -> File; proc deleteFile(path -> @string); }\n";

const MODELS: &str = "\n#[derive(Debug, Clone, Copy)]\n#[repr(u16)]\npub enum Action {\n\tDelete = 1,\n\tSecureDelete = 2,\n}\n\nimpl ::olympus_net_common::ProcedureInput for Action {\n    fn deserialize(input: &mut ::olympus_net_common::bytes::BytesMut) -> ::olympus_net_common::Result<Self> {\n        use ::olympus_net_common::bytes::Buf;\n        let tag = input.get_u16();\n        match tag {\n\t\t\t1 => Ok(Self::Delete),\n\t\t\t2 => Ok(Self::SecureDelete),\n            _ => Err(::olympus_net_common::error!(\"invalid tag: {tag}\")),\n        }\n    }\n}\n\nimpl ::olympus_net_common::ProcedureOutput for Action {\n    fn serialize(&self) -> ::olympus_net_common::Result<::olympus_net_common::bytes::BytesMut> {\n        use ::olympus_net_common::bytes::BufMut;\n        let mut out = ::olympus_net_common::bytes::BytesMut::with_capacity(::std::mem::size_of::<u16>());\n        out.put_u16(*self as _);\n        Ok(out)\n    }\n}\n\n#[derive(Debug, Clone)]\npub struct File {\n\tpub path: String,\n\tpub size: ::olympus_net_common::Variable<u64>,\n\tpub content: Vec<u8>,\n\tpub after_action: Option<Action>,\n}\n\nimpl ::olympus_net_common::ProcedureInput for File {\n    fn deserialize(input: &mut ::olympus_net_common::bytes::BytesMut) -> ::olympus_net_common::Result<Self> {\n        Ok(Self {\n\t\t\tpath: ::olympus_net_common::ProcedureInput::deserialize(input)?,\n\t\t\tsize: ::olympus_net_common::ProcedureInput::deserialize(input)?,\n\t\t\tcontent: ::olympus_net_common::ProcedureInput::deserialize(input)?,\n\t\t\tafter_action: ::olympus_net_common::ProcedureInput::deserialize(input)?,\n        })\n    }\n}\n\nimpl ::olympus_net_common::ProcedureOutput for File {\n    fn serialize(&self) -> ::olympus_net_common::Result<::olympus_net_common::bytes::BytesMut> {\n        let mut out = ::olympus_net_common::bytes::BytesMut::new();\n\t\tout.extend(self.path.serialize()?);\n\t\tout.extend(self.size.serialize()?);\n\t\tout.extend(self.content.serialize()?);\n\t\tout.extend(self.after_action.serialize()?);\n        Ok(out)\n    }\n}\n\n#[derive(Debug, Clone)]\npub struct GetFileParams {\n\tpub path: String,\n\tpub after_action: Option<Action>,\n}\n\nimpl ::olympus_net_common::ProcedureInput for GetFileParams {\n    fn deserialize(input: &mut ::olympus_net_common::bytes::BytesMut) -> ::olympus_net_common::Result<Self> {\n        Ok(Self {\n\t\t\tpath: ::olympus_net_common::ProcedureInput::deserialize(input)?,\n\t\t\tafter_action: ::olympus_net_common::ProcedureInput::deserialize(input)?,\n        })\n    }\n}\n\nimpl ::olympus_net_common::ProcedureOutput for GetFileParams {\n    fn serialize(&self) -> ::olympus_net_common::Result<::olympus_net_common::bytes::BytesMut> {\n        let mut out = ::olympus_net_common::bytes::BytesMut::new();\n\t\tout.extend(self.path.serialize()?);\n\t\tout.extend(self.after_action.serialize()?);\n        Ok(out)\n    }\n}\n\n#[derive(Debug, Clone)]\npub struct DeleteFileParams {\n\tpub path: String,\n}\n\nimpl ::olympus_net_common::ProcedureInput for DeleteFileParams {\n    fn deserialize(input: &mut ::olympus_net_common::bytes::BytesMut) -> ::olympus_net_common::Result<Self> {\n        Ok(Self {\n\t\t\tpath: ::olympus_net_common::ProcedureInput::deserialize(input)?,\n        })\n    }\n}\n\nimpl ::olympus_net_common::ProcedureOutput for DeleteFileParams {\n    fn serialize(&self) -> ::olympus_net_common::Result<::olympus_net_common::bytes::BytesMut> {\n        let mut out = ::olympus_net_common::bytes::BytesMut::new();\n\t\tout.extend(self.path.serialize()?);\n        Ok(out)\n    }\n}\n";

const SERVER: &str = "#[::olympus_net_common::async_trait]\npub trait ServerRpc<Ctx: Clone + Send + Sync + 'static> {\n\tasync fn get_server_version(context: Ctx) -> ::olympus_net_common::Result<i8>;\n\tasync fn get_file(context: Ctx, params: GetFileParams) -> ::olympus_net_common::Result<File>;\n\tasync fn delete_file(context: Ctx, params: DeleteFileParams) -> ::olympus_net_common::Result<()>;\n}\n";

const REGISTRATION: &str = "pub async fn register_procedures<C: Clone + Send + Sync + 'static, I: ServerRpc<C> + 'static>(server: &mut ::olympus_server::OlympusServer<C>, _imp: I) {\n\tserver.register_procedure(\"getServerVersion\", |ctx, (): ()| I::get_server_version(ctx)).await;\n\tserver.register_procedure(\"getFile\", I::get_file).await;\n\tserver.register_procedure(\"deleteFile\", I::delete_file).await;\n}\n";

const SHOUTY_ENUM: &str = "\n#[derive(Debug, Clone, Copy)]\n#[repr(u16)]\npub enum ACTION {\n\tDELETE = 1,\n\tSECURE_DELETE = 2,\n}\n\nimpl ::olympus_net_common::ProcedureInput for ACTION {\n    fn deserialize(input: &mut ::olympus_net_common::bytes::BytesMut) -> ::olympus_net_common::Result<Self> {\n        use ::olympus_net_common::bytes::Buf;\n        let tag = input.get_u16();\n        match tag {\n\t\t\t1 => Ok(Self::DELETE),\n\t\t\t2 => Ok(Self::SECURE_DELETE),\n            _ => Err(::olympus_net_common::error!(\"invalid tag: {tag}\")),\n        }\n    }\n}\n\nimpl ::olympus_net_common::ProcedureOutput for ACTION {\n    fn serialize(&self) -> ::olympus_net_common::Result<::olympus_net_common::bytes::BytesMut> {\n        use ::olympus_net_common::bytes::BufMut;\n        let mut out = ::olympus_net_common::bytes::BytesMut::with_capacity(::std::mem::size_of::<u16>());\n        out.put_u16(*self as _);\n        Ok(out)\n    }\n}\n";

fn defaults() -> NamingConventionConfig {
    NamingConventionConfig::new(
        None,
        NamingConvention::Pascal,
        NamingConvention::Pascal,
        NamingConvention::Snake,
        NamingConvention::Snake,
    )
}

fn parser() -> Parser {
    verify_src(SOURCE, "file.olympus").unwrap()
}

#[test]
fn the_models_of_a_file() {
    assert_eq!(generate(&parser(), CompileLanguage::Rust, &defaults()), MODELS);
}

#[test]
fn models_are_appended() {
    let mut output = String::from("// head\n");
    generate_models(&RustCodeGenerator, &parser(), &mut output, &defaults());
    assert_eq!(output, format!("// head\n{MODELS}"));
}

#[test]
fn the_server_interface() {
    let mut output = String::new();
    RustCodeGenerator.generate_abstract_server_impl(&parser().rpc_container, &mut output, &defaults());
    assert_eq!(output, SERVER);
}

#[test]
fn the_registration_keeps_the_names_of_the_file() {
    let mut output = String::new();
    RustCodeGenerator.generate_server_registration_fn(
        &parser().rpc_container,
        &mut output,
        &defaults(),
    );
    assert_eq!(output, REGISTRATION);
    assert!(output.contains("\"getServerVersion\""));
    assert!(output.contains("\"getFile\""));
    assert!(output.contains("\"deleteFile\""));
    let shouty = NamingConventionConfig::new(
        Some(NamingConvention::ShoutySnake),
        NamingConvention::Pascal,
        NamingConvention::Pascal,
        NamingConvention::Snake,
        NamingConvention::Snake,
    );
    let mut output = String::new();
    RustCodeGenerator.generate_server_registration_fn(&parser().rpc_container, &mut output, &shouty);
    assert!(output.contains("server.register_procedure(\"getFile\", I::GET_FILE).await;"));
    assert!(output.starts_with("pub async fn REGISTER_PROCEDURES<"));
}

#[test]
fn identifiers_follow_the_conventions() {
    let shouty = NamingConventionConfig::new(
        Some(NamingConvention::ShoutySnake),
        NamingConvention::Pascal,
        NamingConvention::Pascal,
        NamingConvention::Snake,
        NamingConvention::Snake,
    );
    let mut output = String::new();
    RustCodeGenerator.generate_enum(&parser().enums[0], &mut output, &shouty);
    assert_eq!(output, SHOUTY_ENUM);
}

#[test]
fn the_pieces_of_an_enum() {
    let parser = parser();
    let mut decl = String::new();
    RustCodeGenerator::generate_enum_decl(&parser.enums[0], &mut decl, &defaults());
    assert_eq!(
        decl,
        "\n#[derive(Debug, Clone, Copy)]\n#[repr(u16)]\npub enum Action {\n\tDelete = 1,\n\tSecureDelete = 2,\n}\n"
    );
    let mut all = String::new();
    RustCodeGenerator::generate_enum_decl(&parser.enums[0], &mut all, &defaults());
    RustCodeGenerator::generate_enum_input_impl(&parser.enums[0], &mut all, &defaults());
    RustCodeGenerator::generate_enum_output_impl(&parser.enums[0], &mut all, &defaults());
    let mut whole = String::new();
    RustCodeGenerator.generate_enum(&parser.enums[0], &mut whole, &defaults());
    assert_eq!(all, whole);
    assert!(MODELS.starts_with(&whole));
}

#[test]
fn an_enum_without_variants() {
    let parser = verify_src("enum Empty {}", "e.olympus").unwrap();
    let mut decl = String::new();
    RustCodeGenerator::generate_enum_decl(&parser.enums[0], &mut decl, &defaults());
    assert_eq!(decl, "\n#[derive(Debug, Clone, Copy)]\n#[repr(u16)]\npub enum Empty {\n\n}\n");
}

#[test]
fn a_negative_tag() {
    let mut parser = verify_src("enum E { A -> 1; }", "e.olympus").unwrap();
    parser.enums[0].variants[0].value = -7;
    let mut decl = String::new();
    RustCodeGenerator::generate_enum_decl(&parser.enums[0], &mut decl, &defaults());
    assert!(decl.contains("\tA = -7,"));
}

#[test]
fn types_in_rust() {
    let parser = verify_src(
        "enum my_enum {} struct S { a -> @int8; b -> @uint16; c -> @int32; d -> @uint64; e -> @varint16; f -> @string; g -> @array[@option[@array[my_enum]]]; h -> @int16; i -> @uint8; j -> @uint32; k -> @int64; }",
        "s.olympus",
    )
    .unwrap();
    let texts: Vec<String> = parser.structs[0]
        .fields
        .iter()
        .map(|field| RustCodeGenerator::parsed_type_kind_to_rust(&field.kind.value, &defaults()))
        .collect();
    assert_eq!(
        texts,
        vec![
            "i8",
            "u16",
            "i32",
            "u64",
            "::olympus_net_common::Variable<i16>",
            "String",
            "Vec<Option<Vec<MyEnum>>>",
            "i16",
            "u8",
            "u32",
            "i64",
        ]
    );
    let procs = verify_src("rpc { proc p(); }", "p.olympus").unwrap();
    assert_eq!(
        RustCodeGenerator::parsed_type_kind_to_rust(
            &procs.rpc_container.procedures[0].return_kind.value,
            &defaults()
        ),
        ""
    );
}

#[test]
fn a_procedure_without_parameters_has_no_struct() {
    let parser = parser();
    let mut output = String::new();
    RustCodeGenerator.generate_procedure_params(
        &parser.rpc_container.procedures[0],
        &mut output,
        &defaults(),
    );
    assert_eq!(output, "");
    RustCodeGenerator.generate_procedure_params(
        &parser.rpc_container.procedures[2],
        &mut output,
        &defaults(),
    );
    assert!(output.starts_with("\n#[derive(Debug, Clone)]\npub struct DeleteFileParams {\n\tpub path: String,\n}\n"));
}

#[test]
fn header_and_footer() {
    let mut output = String::new();
    RustCodeGenerator.generate_file_header(&mut output);
    assert_eq!(output, "#![allow(unused_qualifications)]\n#![allow(non_snake_case)]\n");
    RustCodeGenerator.generate_file_footer(&mut output);
    assert_eq!(output, "#![allow(unused_qualifications)]\n#![allow(non_snake_case)]\n");
}

#[test]
fn lines_are_joined_by_line_feeds() {
    assert_eq!(join_lines(&vec![]), "");
    assert_eq!(join_lines(&vec!["a".to_string()]), "a");
    assert_eq!(join_lines(&vec!["a".to_string(), "".to_string(), "b".to_string()]), "a\n\nb");
}
