use olympus::naming::{NamingConvention, NamingConventionConfig};

#[test]
fn each_convention() {
    let cases = [
        (NamingConvention::Pascal, "GetFileNow"),
        (NamingConvention::LowerCamel, "getFileNow"),
        (NamingConvention::Snake, "get_file_now"),
        (NamingConvention::ShoutySnake, "GET_FILE_NOW"),
        (NamingConvention::Kebab, "get-file-now"),
        (NamingConvention::ShoutyKebab, "GET-FILE-NOW"),
    ];
    for (conv, expected) in cases {
        assert_eq!(NamingConventionConfig::apply(conv, "getFile_now"), expected);
        assert_eq!(NamingConventionConfig::apply(conv, "get_file_now"), expected);
    }
}

#[test]
fn each_kind_has_its_convention() {
    let config = NamingConventionConfig::new(
        None,
        NamingConvention::Pascal,
        NamingConvention::ShoutySnake,
        NamingConvention::Snake,
        NamingConvention::LowerCamel,
    );
    assert_eq!(config.apply_types("file_info"), "FileInfo");
    assert_eq!(config.apply_enum_variants("SecureDelete"), "SECURE_DELETE");
    assert_eq!(config.apply_struct_fields("afterAction"), "after_action");
    assert_eq!(config.apply_procs("get_server_version"), "getServerVersion");
}

#[test]
fn a_global_convention_overrides_the_others() {
    let config = NamingConventionConfig::new(
        Some(NamingConvention::Kebab),
        NamingConvention::Pascal,
        NamingConvention::Pascal,
        NamingConvention::Snake,
        NamingConvention::Snake,
    );
    assert_eq!(
        config,
        NamingConventionConfig {
            types: NamingConvention::Kebab,
            struct_fields: NamingConvention::Kebab,
            enum_variants: NamingConvention::Kebab,
            procs: NamingConvention::Kebab,
        }
    );
    assert_eq!(config.apply_types("GetFile"), "get-file");
}

#[test]
fn the_empty_name_stays_empty() {
    assert_eq!(NamingConventionConfig::apply(NamingConvention::Pascal, ""), "");
}
