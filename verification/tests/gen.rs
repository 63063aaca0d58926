use cddl_gen::ast::{
    Cddl, GrpChoice, GrpEnt, GrpEntVal, Group, Member, MemberKeyVal, Rule, RuleVal, Type, Type1,
    Type2, TypeControl, Value,
};
use cddl_gen::gen::{caseify, filter_structs, gen_cargo, gen_extra, gen_lib, Language, Options,
    RenderError};
use cddl_gen::{flatten, link};

fn typename(name: &str) -> Type {
    Type(vec![Type1::Simple(Type2::Typename(name.to_string()))])
}

fn size_control(target: &str, width: u64) -> Type {
    Type(vec![Type1::Control(TypeControl {
        target: Type2::Typename(target.to_string()),
        arg: Type2::Value(Value::Uint(width)),
        op: "size".to_string(),
    })])
}

fn keyed(key: &str, value: Type) -> GrpEnt {
    GrpEnt {
        occur: None,
        val: GrpEntVal::Member(Member {
            key: Some(MemberKeyVal::Bareword(key.to_string())),
            value,
        }),
    }
}

fn map_rule(name: &str, entries: Vec<GrpEnt>) -> Rule {
    Rule {
        name: name.to_string(),
        val: RuleVal::AssignType(Type(vec![Type1::Simple(Type2::Mapping(Group(vec![GrpChoice(
            entries,
        )])))])),
    }
}

fn type_rule(name: &str, ty: Type) -> Rule {
    Rule {
        name: name.to_string(),
        val: RuleVal::AssignType(ty),
    }
}

fn rust_opts() -> Options {
    Options {
        language: Language::Rust,
        prefix: None,
        version: None,
    }
}

#[test]
fn render_struct_counts_fields_with_indices() {
    // A struct of N scalar fields renders to exactly N field declarations,
    // each annotated with its zero-based binary field index.
    let cddl = Cddl {
        rules: vec![map_rule(
            "colors",
            vec![
                keyed("car", size_control("uint", 1)),
                keyed("boat", size_control("uint", 1)),
                keyed("bike", size_control("uint", 2)),
            ],
        )],
    };
    let linked = link(&flatten(&cddl).unwrap()).unwrap();
    let out = gen_lib(&linked, &rust_opts()).unwrap();
    assert_eq!(
        out,
        "pub struct Colors {\n    #[n(0)] pub car: u8,\n    #[n(1)] pub boat: u8,\n    #[n(2)] pub bike: u16,\n}\n"
    );
    assert_eq!(3, out.matches("#[n(").count());
    assert_eq!(3, out.matches(",\n").count());
}

#[test]
fn render_consts_before_structs() {
    let cddl = Cddl {
        rules: vec![
            type_rule("boop", Type(vec![Type1::Simple(Type2::Value(Value::Uint(3)))])),
            map_rule("thing", vec![keyed("id", size_control("uint", 1))]),
        ],
    };
    let linked = link(&flatten(&cddl).unwrap()).unwrap();
    let out = gen_lib(&linked, &rust_opts()).unwrap();
    assert_eq!(
        out,
        "pub const BOOP: u32 = 3;\npub struct Thing {\n    #[n(0)] pub id: u8,\n}\n"
    );
}

#[test]
fn render_field_kinds() {
    // Fixed-length text, byte arrays and named struct references.
    let cddl = Cddl {
        rules: vec![
            map_rule("inner", vec![keyed("id", size_control("uint", 1))]),
            map_rule(
                "outer",
                vec![
                    keyed("name", size_control("tstr", 16)),
                    keyed("mac", {
                        Type(vec![Type1::Simple(Type2::Array(Group(vec![GrpChoice(vec![
                            GrpEnt {
                                occur: Some(cddl_gen::ast::Occur::Numbered(6, 6)),
                                val: GrpEntVal::Member(Member {
                                    key: None,
                                    value: typename("small"),
                                }),
                            },
                        ])])))])
                    }),
                    keyed("link", typename("inner")),
                ],
            ),
            type_rule("small", size_control("uint", 1)),
        ],
    };
    let linked = link(&flatten(&cddl).unwrap()).unwrap();
    let out = gen_lib(&linked, &rust_opts()).unwrap();
    assert!(out.contains("pub struct Outer {\n"));
    assert!(out.contains(
        "#[cbor(n(0), with = \"minicbor::bytes\")] #[serde(serialize_with = \"ser_bytes_as_str\")] #[serde(deserialize_with = \"de_str_as_bytes\")] pub name: [u8; 16],\n"
    ));
    assert!(out.contains("#[cbor(n(1), with = \"minicbor::bytes\")] pub mac: [u8; 6],\n"));
    assert!(out.contains("#[n(2)] pub link: Inner,\n"));
}

#[test]
fn render_typescript_accessors() {
    let cddl = Cddl {
        rules: vec![map_rule("thing", vec![keyed("id", size_control("uint", 1))])],
    };
    let linked = link(&flatten(&cddl).unwrap()).unwrap();
    let opts = Options {
        language: Language::Typescript,
        prefix: None,
        version: None,
    };
    let out = gen_lib(&linked, &opts).unwrap();
    assert!(out.contains("pub struct Thing {\n    #[n(0)] id: u8,\n}\n"));
    assert!(out.contains("#[wasm_bindgen]\nimpl Thing {\n"));
    assert!(out.contains(
        "#[wasm_bindgen(getter, js_name=id)] pub fn id(&self) -> u8 { self.id }"
    ));
    assert!(out.contains(
        "#[wasm_bindgen(setter, js_name=id)] pub fn set_id(&mut self, val: u8) { self.id = val }"
    ));
}

#[test]
fn render_with_prefix() {
    let cddl = Cddl {
        rules: vec![map_rule("thing", vec![keyed("id", size_control("uint", 1))])],
    };
    let linked = link(&flatten(&cddl).unwrap()).unwrap();
    let opts = Options {
        language: Language::C,
        prefix: Some("foo_".to_string()),
        version: None,
    };
    let out = gen_lib(&linked, &opts).unwrap();
    // The binding-flavor target keeps declaration-case names, prefixed
    // before the case conversion.
    assert!(out.contains("pub struct foo_thing {\n"));
}

#[test]
fn render_extra_header() {
    let cddl = Cddl {
        rules: vec![
            type_rule("boop", Type(vec![Type1::Simple(Type2::Value(Value::Uint(3)))])),
            map_rule(
                "colors",
                vec![
                    keyed("car", size_control("uint", 1)),
                    keyed("label", size_control("tstr", 8)),
                ],
            ),
        ],
    };
    let linked = link(&flatten(&cddl).unwrap()).unwrap();
    let opts = Options {
        language: Language::C,
        prefix: None,
        version: None,
    };
    let out = gen_extra(&linked, &opts).unwrap();
    assert_eq!(
        out,
        "#define BOOP 3\ntypedef struct {\n    uint8_t car;\n    char label[8];\n} colors;\n"
    );
}

#[test]
fn render_cargo_manifest() {
    let opts = Options {
        language: Language::C,
        prefix: None,
        version: None,
    };
    let out = gen_cargo("test", &opts).unwrap();
    assert_eq!(
        out,
        "[package]\nname = \"test\"\nversion = \"0.1.0\"\nedition = \"2021\"\n"
    );
    let opts = Options {
        language: Language::C,
        prefix: None,
        version: Some("0.3.0".to_string()),
    };
    let out = gen_cargo("test", &opts).unwrap();
    assert_eq!(
        out,
        "[package]\nname = \"test\"\nversion = \"0.3.0\"\nedition = \"2021\"\n"
    );
}

#[test]
fn caseify_requests() {
    let rust = rust_opts();
    assert_eq!(
        caseify("network-group", "struct", None, &rust).unwrap(),
        "NetworkGroup"
    );
    let c_prefixed = Options {
        language: Language::C,
        prefix: Some("foo_".to_string()),
        version: None,
    };
    assert_eq!(
        caseify("thing", "struct", None, &c_prefixed).unwrap(),
        "foo_thing"
    );
    assert_eq!(
        caseify("thing", "fn", Some("get"), &c_prefixed).unwrap(),
        "foo_get_thing"
    );
    assert_eq!(caseify("thing", "const", None, &rust).unwrap(), "THING");
    assert_eq!(
        caseify("thing-one", "lowerCamelCase", None, &rust).unwrap(),
        "thingOne"
    );
    assert_eq!(
        caseify("thing", "bogus", None, &rust),
        Err(RenderError::Case("bogus".to_string()))
    );
    assert_eq!(
        caseify("thing", "fn", None, &rust),
        Err(RenderError::Render("".to_string()))
    );
}

#[test]
fn render_literal_kinds() {
    let cddl = Cddl {
        rules: vec![
            type_rule("neg", Type(vec![Type1::Simple(Type2::Value(Value::Nint(-3)))])),
            type_rule(
                "site",
                Type(vec![Type1::Simple(Type2::Value(Value::Text("Site".to_string())))]),
            ),
            type_rule(
                "g",
                Type(vec![Type1::Simple(Type2::Value(Value::Text("G".to_string())))]),
            ),
        ],
    };
    let linked = link(&flatten(&cddl).unwrap()).unwrap();
    let out = gen_lib(&linked, &rust_opts()).unwrap();
    assert!(out.contains("pub const G: char = 'G';\n"));
    assert!(out.contains("pub const NEG: i32 = -3;\n"));
    assert!(out.contains("pub const SITE: &'static str = \"Site\";\n"));
}

#[test]
fn render_unsupported_literal_fails() {
    let cddl = Cddl {
        rules: vec![type_rule(
            "blob",
            Type(vec![Type1::Simple(Type2::Value(Value::Bytes(vec![1, 2])))]),
        )],
    };
    let linked = link(&flatten(&cddl).unwrap()).unwrap();
    assert_eq!(
        gen_lib(&linked, &rust_opts()),
        Err(RenderError::UnsupportedLiteral)
    );
}

#[test]
fn render_unimplemented_array_fails() {
    // An array over a 2-byte scalar has no rendering in this version.
    let cddl = Cddl {
        rules: vec![
            type_rule("wide", size_control("uint", 2)),
            map_rule("thing", vec![keyed("xs", {
                Type(vec![Type1::Simple(Type2::Array(Group(vec![GrpChoice(vec![GrpEnt {
                    occur: Some(cddl_gen::ast::Occur::Numbered(4, 4)),
                    val: GrpEntVal::Member(Member {
                        key: None,
                        value: typename("wide"),
                    }),
                }])])))])
            })]),
        ],
    };
    let linked = link(&flatten(&cddl).unwrap()).unwrap();
    assert_eq!(gen_lib(&linked, &rust_opts()), Err(RenderError::Unimplemented));
}

#[test]
fn filter_keeps_only_structs() {
    let cddl = Cddl {
        rules: vec![
            type_rule("boop", Type(vec![Type1::Simple(Type2::Value(Value::Uint(3)))])),
            type_rule("u8", size_control("uint", 1)),
            map_rule("thing", vec![keyed("id", typename("u8"))]),
        ],
    };
    let linked = link(&flatten(&cddl).unwrap()).unwrap();
    let structs = filter_structs(linked);
    assert_eq!(structs.len(), 1);
    assert!(structs.get("thing").is_some());
    assert!(structs.get("boop").is_none());
    assert!(structs.get("u8").is_none());
}
