use schema_dumper::model::{Class, Enum, EnumMember, Field, IntWidth, Module, Offset,
    SchemaModel};
use schema_dumper::render::json::{document_of, render_json};
use schema_dumper::render::flat::{entries_of, flat_file, render_flat, Constant};
use schema_dumper::render::nested::{cs, hpp, module_file, render_nested};
use schema_dumper::render::{render, render_all, ConfigError, Format, FormatSet, RenderConfig};

fn text(lines: &[&str]) -> Vec<u8> {
    let mut out = lines.join("\n");
    out.push('\n');
    out.into_bytes()
}

fn shown(bytes: &[u8]) -> String {
    String::from_utf8_lossy(bytes).into_owned()
}

fn contains(haystack: &[u8], needle: &[u8]) -> bool {
    haystack.windows(needle.len()).any(|w| w == needle)
}

fn client_module() -> Module {
    let mut module = Module::new(b"client.dll".to_vec());
    module
        .add_class(Class {
            name: b"C_Base".to_vec(),
            size: 0x20,
            parent: None,
            fields: vec![
                Field {
                    name: b"m_iHealth".to_vec(),
                    offset: 0x8,
                    declared_type: Some(b"int32".to_vec()),
                },
                Field { name: b"m_vec".to_vec(), offset: 0x10, declared_type: None },
            ],
        })
        .unwrap();
    module
        .add_class(Class {
            name: b"C-Base".to_vec(),
            size: 4,
            parent: Some(b"C_Base".to_vec()),
            fields: Vec::new(),
        })
        .unwrap();
    let mut color = Enum::new(b"Color".to_vec(), IntWidth::One);
    color.add_member(EnumMember { name: b"Red".to_vec(), value: 0 }).unwrap();
    color.add_member(EnumMember { name: b"Dark Red".to_vec(), value: -1 }).unwrap();
    module.add_enum(color).unwrap();
    module
        .add_offset(Offset {
            name: b"dwEntityList".to_vec(),
            value: 0x1a2b3c,
            comment: Some(b"from export".to_vec()),
        })
        .unwrap();
    module
}

fn client_model() -> SchemaModel {
    let mut model = SchemaModel::new();
    model.add_module(client_module()).unwrap();
    model
}

#[test]
fn a_header_nests_namespaces() {
    let expected = text(&[
        "#pragma once",
        "",
        "#include <cstddef>",
        "#include <cstdint>",
        "",
        "namespace client_dll { // client.dll",
        "  namespace C_Base { // size 0x20",
        "    constexpr std::ptrdiff_t m_iHealth = 0x8; // int32",
        "    constexpr std::ptrdiff_t m_vec = 0x10;",
        "  }",
        "  namespace C_Base_1 { // size 0x4, parent C_Base",
        "  }",
        "  enum class Color : std::int8_t {",
        "    Red = 0,",
        "    Dark_Red = -1,",
        "  };",
        "  constexpr std::ptrdiff_t dwEntityList = 0x00000000001A2B3C; // from export",
        "}",
    ]);
    let files = render(Format::Hpp, 2, &client_model());
    assert_eq!(files.len(), 1);
    assert_eq!(files[0].path, b"client_dll.hpp".to_vec());
    assert_eq!(shown(&files[0].content), shown(&expected));
}

#[test]
fn a_cs_file_nests_static_classes() {
    let expected = text(&[
        "public static class client_dll { // client.dll",
        "    public static class C_Base { // size 0x20",
        "        public const nint m_iHealth = 0x8; // int32",
        "        public const nint m_vec = 0x10;",
        "    }",
        "    public static class C_Base_1 { // size 0x4, parent C_Base",
        "    }",
        "    public enum Color : sbyte {",
        "        Red = 0,",
        "        Dark_Red = -1,",
        "    }",
        "    public const nint dwEntityList = 0x00000000001A2B3C; // from export",
        "}",
    ]);
    let files = render(Format::Cs, 4, &client_model());
    assert_eq!(files.len(), 1);
    assert_eq!(files[0].path, b"client_dll.cs".to_vec());
    assert_eq!(shown(&files[0].content), shown(&expected));
}

#[test]
fn a_rust_file_lists_flat_constants() {
    let expected = text(&[
        "// client.dll",
        "pub const C_Base: usize = 0x20; // class",
        "pub const C_Base__m_iHealth: usize = 0x8; // field : int32",
        "pub const C_Base__m_vec: usize = 0x10; // field",
        "pub const C_Base_1: usize = 0x4; // class : C_Base",
        "pub const Color: usize = 1; // enum",
        "pub const Color__Red: i64 = 0; // member",
        "pub const Color__Dark_Red: i64 = -1; // member",
        "pub const dwEntityList: u64 = 0x00000000001A2B3C; // offset : from export",
    ]);
    let files = render(Format::Rs, 1, &client_model());
    assert_eq!(files.len(), 1);
    assert_eq!(files[0].path, b"client_dll.rs".to_vec());
    assert_eq!(shown(&files[0].content), shown(&expected));
    let wide = render(Format::Rs, 8, &client_model());
    assert_eq!(wide[0].content, files[0].content);
    assert_eq!(flat_file(&client_module()), expected);
}

#[test]
fn the_constants_of_a_module_are_listed_in_order() {
    let entries = entries_of(&client_module());
    let names: Vec<Vec<u8>> = entries.iter().map(|e| e.name.clone()).collect();
    assert_eq!(
        names,
        vec![
            b"C_Base".to_vec(),
            b"C_Base::m_iHealth".to_vec(),
            b"C_Base::m_vec".to_vec(),
            b"C-Base".to_vec(),
            b"Color".to_vec(),
            b"Color::Red".to_vec(),
            b"Color::Dark Red".to_vec(),
            b"dwEntityList".to_vec(),
        ]
    );
    assert_eq!(entries[0].constant, Constant::ClassSize(0x20));
    assert_eq!(entries[1].constant, Constant::FieldOffset(0x8));
    assert_eq!(entries[1].note, Some(b"int32".to_vec()));
    assert_eq!(entries[3].note, Some(b"C_Base".to_vec()));
    assert_eq!(entries[4].constant, Constant::EnumWidth(1));
    assert_eq!(entries[6].constant, Constant::MemberValue(-1));
    assert_eq!(entries[7].constant, Constant::Address(0x1a2b3c));
    assert!(entries_of(&Module::new(b"m".to_vec())).is_empty());
}

#[test]
fn flat_constants_that_collide_are_told_apart() {
    let mut module = Module::new(b"m".to_vec());
    module
        .add_class(Class {
            name: b"A".to_vec(),
            size: 1,
            parent: None,
            fields: vec![Field { name: b"B::c".to_vec(), offset: 0, declared_type: None }],
        })
        .unwrap();
    module
        .add_class(Class {
            name: b"A::B".to_vec(),
            size: 2,
            parent: None,
            fields: vec![Field { name: b"c".to_vec(), offset: 4, declared_type: None }],
        })
        .unwrap();
    module.add_offset(Offset { name: b"A".to_vec(), value: 3, comment: None }).unwrap();
    let expected = text(&[
        "// m",
        "pub const A: usize = 0x1; // class",
        "pub const A__B__c: usize = 0x0; // field",
        "pub const A__B: usize = 0x2; // class",
        "pub const A__B__c_1: usize = 0x4; // field",
        "pub const A_1: u64 = 0x0000000000000003; // offset",
    ]);
    assert_eq!(shown(&flat_file(&module)), shown(&expected));
}

#[test]
fn an_empty_module_renders_a_flat_file_with_its_name_only() {
    let module = Module::new(b"a\nb".to_vec());
    assert_eq!(flat_file(&module), b"// a?b\n".to_vec());
    let mut model = SchemaModel::new();
    model.add_module(module).unwrap();
    let files = render_flat(&model);
    assert_eq!(files.len(), 1);
    assert_eq!(files[0].path, b"a_b.rs".to_vec());
}

#[test]
fn a_json_document_mirrors_the_tree() {
    let expected = text(&[
        "{",
        "  \"modules\": [",
        "    {",
        "      \"name\": \"client.dll\",",
        "      \"classes\": [",
        "        {",
        "          \"name\": \"C_Base\",",
        "          \"size\": 32,",
        "          \"parent\": null,",
        "          \"fields\": [",
        "            { \"name\": \"m_iHealth\", \"offset\": 8, \"type\": \"int32\" },",
        "            { \"name\": \"m_vec\", \"offset\": 16, \"type\": null }",
        "          ]",
        "        },",
        "        {",
        "          \"name\": \"C-Base\",",
        "          \"size\": 4,",
        "          \"parent\": \"C_Base\",",
        "          \"fields\": [",
        "          ]",
        "        }",
        "      ],",
        "      \"enums\": [",
        "        {",
        "          \"name\": \"Color\",",
        "          \"width\": 1,",
        "          \"members\": [",
        "            { \"name\": \"Red\", \"value\": 0 },",
        "            { \"name\": \"Dark Red\", \"value\": -1 }",
        "          ]",
        "        }",
        "      ],",
        "      \"offsets\": [",
        "        { \"name\": \"dwEntityList\", \"value\": 1715004, \"comment\": \"from export\" }",
        "      ]",
        "    }",
        "  ]",
        "}",
    ]);
    let files = render(Format::Json, 2, &client_model());
    assert_eq!(files.len(), 1);
    assert_eq!(files[0].path, b"schema.json".to_vec());
    assert_eq!(shown(&files[0].content), shown(&expected));
    assert_eq!(document_of(2, &client_model()), expected);
}

#[test]
fn an_empty_model_renders_an_empty_document_and_no_code_files() {
    let model = SchemaModel::new();
    let expected = text(&["{", "    \"modules\": [", "    ]", "}"]);
    let json = render_json(4, &model);
    assert_eq!(json.len(), 1);
    assert_eq!(shown(&json[0].content), shown(&expected));
    assert!(render(Format::Hpp, 4, &model).is_empty());
    assert!(render(Format::Cs, 4, &model).is_empty());
    assert!(render(Format::Rs, 4, &model).is_empty());
}

#[test]
fn an_empty_module_renders_an_empty_scope() {
    let module = Module::new(b"empty".to_vec());
    let expected = text(&["public static class empty { // empty", "}"]);
    assert_eq!(shown(&module_file(&cs(), 4, &module, b"empty")), shown(&expected));
}

#[test]
fn json_strings_are_escaped() {
    let mut module = Module::new(b"a\"b\\c".to_vec());
    module
        .add_offset(Offset {
            name: vec![b'x', 0x0a, 0x7f, 0xff, b'y'],
            value: 0,
            comment: Some(b"tab\there".to_vec()),
        })
        .unwrap();
    let mut model = SchemaModel::new();
    model.add_module(module).unwrap();
    let document = document_of(4, &model);
    assert!(contains(&document, b"\"name\": \"a\\\"b\\\\c\""));
    assert!(contains(
        &document,
        b"{ \"name\": \"x\\u000A\\u007F\\u00FFy\", \"value\": 0, \"comment\": \"tab\\u0009here\" }"
    ));
}

#[test]
fn comments_are_kept_on_one_line() {
    let mut module = Module::new(b"m".to_vec());
    module
        .add_class(Class {
            name: b"K".to_vec(),
            size: 0,
            parent: None,
            fields: vec![Field {
                name: b"f".to_vec(),
                offset: 0,
                declared_type: Some(b"a\nb\\".to_vec()),
            }],
        })
        .unwrap();
    let content = module_file(&hpp(), 4, &module, b"m");
    assert!(contains(&content, b"constexpr std::ptrdiff_t f = 0x0; // a?b?\n"));
}

#[test]
fn classes_enums_and_offsets_of_a_module_share_one_scope() {
    let mut module = Module::new(b"m".to_vec());
    module
        .add_class(Class { name: b"Foo".to_vec(), size: 1, parent: None, fields: Vec::new() })
        .unwrap();
    module.add_enum(Enum::new(b"Foo".to_vec(), IntWidth::Four)).unwrap();
    module.add_offset(Offset { name: b"Foo".to_vec(), value: 1, comment: None }).unwrap();
    let expected = text(&[
        "#pragma once",
        "",
        "#include <cstddef>",
        "#include <cstdint>",
        "",
        "namespace m { // m",
        "    namespace Foo { // size 0x1",
        "    }",
        "    enum class Foo_1 : std::int32_t {",
        "    };",
        "    constexpr std::ptrdiff_t Foo_2 = 0x0000000000000001;",
        "}",
    ]);
    assert_eq!(shown(&module_file(&hpp(), 4, &module, b"m")), shown(&expected));
}

#[test]
fn fields_of_one_class_get_distinct_identifiers() {
    let mut module = Module::new(b"m".to_vec());
    module
        .add_class(Class {
            name: b"K".to_vec(),
            size: 8,
            parent: None,
            fields: vec![
                Field { name: b"a b".to_vec(), offset: 0, declared_type: None },
                Field { name: b"a-b".to_vec(), offset: 4, declared_type: None },
            ],
        })
        .unwrap();
    let content = module_file(&cs(), 4, &module, b"m");
    assert!(contains(&content, b"        public const nint a_b = 0x0;\n"));
    assert!(contains(&content, b"        public const nint a_b_1 = 0x4;\n"));
}

#[test]
fn every_module_gets_a_file_of_its_own() {
    let mut model = SchemaModel::new();
    model.add_module(Module::new(b"client.dll".to_vec())).unwrap();
    model.add_module(Module::new(b"client_dll".to_vec())).unwrap();
    model.add_module(Module::new(b"engine2.dll".to_vec())).unwrap();
    let files = render_nested(&hpp(), 4, &model);
    let paths: Vec<Vec<u8>> = files.iter().map(|f| f.path.clone()).collect();
    assert_eq!(
        paths,
        vec![b"client_dll.hpp".to_vec(), b"client_dll_1.hpp".to_vec(), b"engine2_dll.hpp".to_vec()]
    );
    assert!(contains(&files[1].content, b"namespace client_dll_1 { // client_dll\n"));
}

#[test]
fn nothing_of_the_model_is_dropped() {
    let model = client_model();
    for format in [Format::Cs, Format::Hpp] {
        let files = render(format, 4, &model);
        let content = &files[0].content;
        for name in [
            &b"client_dll"[..],
            b"C_Base",
            b"C_Base_1",
            b"m_iHealth",
            b"m_vec",
            b"Color",
            b"Red",
            b"Dark_Red",
            b"dwEntityList",
        ] {
            assert!(contains(content, name), "{:?} lacks {}", format, shown(name));
        }
    }
    let flat = render(Format::Rs, 4, &model);
    for name in [
        &b"client.dll"[..],
        b"C_Base:",
        b"C_Base_1:",
        b"C_Base__m_iHealth:",
        b"C_Base__m_vec:",
        b"Color:",
        b"Color__Red:",
        b"Color__Dark_Red:",
        b"dwEntityList:",
    ] {
        assert!(contains(&flat[0].content, name), "rs lacks {}", shown(name));
    }
    let json = render(Format::Json, 4, &model);
    for name in [
        &b"\"client.dll\""[..],
        b"\"C_Base\"",
        b"\"C-Base\"",
        b"\"m_iHealth\"",
        b"\"m_vec\"",
        b"\"Color\"",
        b"\"Red\"",
        b"\"Dark Red\"",
        b"\"dwEntityList\"",
    ] {
        assert!(contains(&json[0].content, name), "json lacks {}", shown(name));
    }
}

#[test]
fn rendering_twice_gives_the_same_bytes() {
    let first = client_model();
    let second = client_model();
    for format in [Format::Cs, Format::Hpp, Format::Json, Format::Rs] {
        let a = render(format, 3, &first);
        let b = render(format, 3, &first);
        let c = render(format, 3, &second);
        assert_eq!(a.len(), b.len());
        assert_eq!(a.len(), c.len());
        for i in 0..a.len() {
            assert_eq!(a[i].path, b[i].path);
            assert_eq!(a[i].content, b[i].content);
            assert_eq!(a[i].path, c[i].path);
            assert_eq!(a[i].content, c[i].content);
        }
    }
}

#[test]
fn format_tags_are_recognized() {
    assert_eq!(Format::parse(b"cs"), Some(Format::Cs));
    assert_eq!(Format::parse(b"hpp"), Some(Format::Hpp));
    assert_eq!(Format::parse(b"header"), Some(Format::Hpp));
    assert_eq!(Format::parse(b"json"), Some(Format::Json));
    assert_eq!(Format::parse(b"rs"), Some(Format::Rs));
    assert_eq!(Format::parse(b"xml"), None);
    assert_eq!(Format::parse(b""), None);
    assert_eq!(Format::parse(b"JSON"), None);
    assert_eq!(Format::parse(b"cs "), None);
}

#[test]
fn the_tag_of_a_format_names_it() {
    assert_eq!(Format::Cs.tag(), "cs");
    assert_eq!(Format::Hpp.tag(), "hpp");
    assert_eq!(Format::Json.tag(), "json");
    assert_eq!(Format::Rs.tag(), "rs");
    for format in [Format::Cs, Format::Hpp, Format::Json, Format::Rs] {
        assert_eq!(Format::parse(format.tag().as_bytes()), Some(format));
    }
}

#[test]
fn no_two_files_of_a_run_share_a_path() {
    let mut model = SchemaModel::new();
    for name in [&b"schema"[..], b"schema.json", b"a.cs", b"a", b"a.rs", b"a_cs", b"", b"_"] {
        model.add_module(Module::new(name.to_vec())).unwrap();
    }
    let tags = vec![b"cs".to_vec(), b"hpp".to_vec(), b"json".to_vec(), b"rs".to_vec()];
    let config = RenderConfig::new(&tags, 4, Vec::new()).unwrap();
    let files = render_all(&model, &config);
    assert_eq!(files.len(), 3 * 8 + 1);
    for i in 0..files.len() {
        for j in 0..i {
            assert_ne!(files[i].path, files[j].path);
        }
    }
}

#[test]
fn a_format_set_holds_what_was_inserted() {
    let set = FormatSet::none();
    assert!(!set.contains(Format::Cs));
    let set = set.insert(Format::Json).insert(Format::Cs).insert(Format::Json);
    assert!(set.contains(Format::Cs));
    assert!(set.contains(Format::Json));
    assert!(!set.contains(Format::Hpp));
    assert!(!set.contains(Format::Rs));
    assert_eq!(set, FormatSet { cs: true, hpp: false, json: true, rs: false });
}

#[test]
fn a_configuration_takes_a_legal_request() {
    let tags = vec![b"json".to_vec(), b"header".to_vec(), b"json".to_vec()];
    let config = RenderConfig::new(&tags, 4, b"out".to_vec()).unwrap();
    assert_eq!(config.indent_width(), 4);
    assert_eq!(config.root_directory(), &b"out".to_vec());
    assert_eq!(config.formats(), FormatSet { cs: false, hpp: true, json: true, rs: false });
    let none = RenderConfig::new(&Vec::new(), 1, Vec::new()).unwrap();
    assert_eq!(none.formats(), FormatSet::none());
}

#[test]
fn a_configuration_refuses_an_indent_of_zero() {
    let tags = vec![b"json".to_vec()];
    assert!(matches!(RenderConfig::new(&tags, 0, b"out".to_vec()), Err(ConfigError::ZeroIndent)));
    let bad = vec![b"xml".to_vec()];
    assert!(matches!(RenderConfig::new(&bad, 0, b"out".to_vec()), Err(ConfigError::ZeroIndent)));
}

#[test]
fn a_configuration_points_at_the_first_unknown_tag() {
    let tags = vec![b"json".to_vec(), b"xml".to_vec(), b"cs".to_vec(), b"yaml".to_vec()];
    assert!(matches!(
        RenderConfig::new(&tags, 4, b"out".to_vec()),
        Err(ConfigError::UnknownFormat { position: 1 })
    ));
}

#[test]
fn all_configured_formats_are_rendered_in_a_fixed_order() {
    let model = client_model();
    let tags = vec![b"rs".to_vec(), b"json".to_vec(), b"cs".to_vec(), b"hpp".to_vec()];
    let config = RenderConfig::new(&tags, 4, b"out".to_vec()).unwrap();
    let files = render_all(&model, &config);
    let paths: Vec<Vec<u8>> = files.iter().map(|f| f.path.clone()).collect();
    assert_eq!(
        paths,
        vec![
            b"client_dll.cs".to_vec(),
            b"client_dll.hpp".to_vec(),
            b"schema.json".to_vec(),
            b"client_dll.rs".to_vec(),
        ]
    );
    let some = RenderConfig::new(&vec![b"hpp".to_vec()], 4, b"out".to_vec()).unwrap();
    let only = render_all(&model, &some);
    assert_eq!(only.len(), 1);
    assert_eq!(only[0].path, b"client_dll.hpp".to_vec());
    assert_eq!(only[0].content, files[1].content);
    let none = RenderConfig::new(&Vec::new(), 4, b"out".to_vec()).unwrap();
    assert!(render_all(&model, &none).is_empty());
}
