use cddl_gen::ast::{
    Cddl, GrpChoice, GrpEnt, GrpEntVal, Group, Member, MemberKeyVal, Occur, Rule, RuleVal, Type,
    Type1, Type2, TypeControl, Value,
};
use cddl_gen::ivt::{Array, ConstrainedType, Group as IvtGroup, KeyVal, Literal, Node};
use cddl_gen::util::ValidateError;
use cddl_gen::validate::{Fields, LinkedArray, LinkedKeyVal, LinkedNode};
use cddl_gen::{flatten, link};

fn typename(name: &str) -> Type {
    Type(vec![Type1::Simple(Type2::Typename(name.to_string()))])
}

fn size_control(target: &str, width: u64) -> Type {
    Type(vec![Type1::Control(TypeControl {
        target: Type2::Typename(target.to_string()),
        arg: Type2::Value(Value::Uint(width)),
        op: "size".to_string(),
    })])
}

fn keyed(key: &str, value: Type) -> GrpEnt {
    GrpEnt {
        occur: None,
        val: GrpEntVal::Member(Member {
            key: Some(MemberKeyVal::Bareword(key.to_string())),
            value,
        }),
    }
}

fn bare(value: Type) -> GrpEnt {
    GrpEnt {
        occur: None,
        val: GrpEntVal::Member(Member { key: None, value }),
    }
}

fn group_of(entries: Vec<GrpEnt>) -> Group {
    Group(vec![GrpChoice(entries)])
}

fn type_rule(name: &str, ty: Type) -> Rule {
    Rule {
        name: name.to_string(),
        val: RuleVal::AssignType(ty),
    }
}

fn map_rule(name: &str, entries: Vec<GrpEnt>) -> Rule {
    type_rule(name, Type(vec![Type1::Simple(Type2::Mapping(group_of(entries)))]))
}

/// The schema shared by the flattening and linking assertions below.
fn test_schema() -> Cddl {
    Cddl {
        rules: vec![
            type_rule("u8", size_control("uint", 1)),
            type_rule("i8", size_control("int", 1)),
            type_rule("u16", size_control("uint", 2)),
            type_rule("i16", size_control("int", 2)),
            type_rule("u32", size_control("uint", 4)),
            type_rule("i32", size_control("int", 4)),
            type_rule("u64", size_control("uint", 8)),
            type_rule("i64", size_control("int", 8)),
            type_rule("is-dhcp", typename("bool")),
            map_rule(
                "colors",
                vec![keyed("car", typename("u8")), keyed("boat", typename("u8"))],
            ),
            Rule {
                name: "ip".to_string(),
                val: RuleVal::AssignGroup(GrpEnt {
                    occur: None,
                    val: GrpEntVal::Parenthesized(group_of(vec![
                        keyed("address", size_control("tstr", 16)),
                        keyed("port", typename("u16")),
                        keyed("dhcp", typename("is-dhcp")),
                    ])),
                }),
            },
            map_rule("local", vec![bare(typename("ip"))]),
            map_rule("local-nested", vec![keyed("network", typename("local"))]),
            type_rule(
                "mac",
                Type(vec![Type1::Simple(Type2::Array(group_of(vec![GrpEnt {
                    occur: Some(Occur::Numbered(6, 6)),
                    val: GrpEntVal::Member(Member {
                        key: None,
                        value: typename("small"),
                    }),
                }])))]),
            ),
            type_rule("small", size_control("uint", 1)),
            type_rule("lit", typename("boop")),
            type_rule("boop", Type(vec![Type1::Simple(Type2::Value(Value::Uint(3)))])),
            type_rule(
                "bar",
                Type(vec![Type1::Simple(Type2::Value(Value::Text("bar".to_string())))]),
            ),
        ],
    }
}

#[test]
fn parse() {
    let cddl = test_schema();
    let node = flatten(&cddl).unwrap();
    let linked = link(&node).unwrap();

    // Flattened primative types
    assert_eq!(node.get("u8"), Some(&Node::ConstrainedType(ConstrainedType::U8)));
    assert_eq!(node.get("i8"), Some(&Node::ConstrainedType(ConstrainedType::I8)));
    assert_eq!(node.get("u16"), Some(&Node::ConstrainedType(ConstrainedType::U16)));
    assert_eq!(node.get("i16"), Some(&Node::ConstrainedType(ConstrainedType::I16)));
    assert_eq!(node.get("u32"), Some(&Node::ConstrainedType(ConstrainedType::U32)));
    assert_eq!(node.get("i32"), Some(&Node::ConstrainedType(ConstrainedType::I32)));
    assert_eq!(node.get("u64"), Some(&Node::ConstrainedType(ConstrainedType::U64)));
    assert_eq!(node.get("i64"), Some(&Node::ConstrainedType(ConstrainedType::I64)));

    // A flattened struct
    assert_eq!(
        node.get("colors"),
        Some(&Node::Mapping(IvtGroup {
            members: vec![
                Node::KeyVal(KeyVal::new("car", Node::Foreign("u8".to_string()))),
                Node::KeyVal(KeyVal::new("boat", Node::Foreign("u8".to_string()))),
            ]
        }))
    );

    // A flattened linked struct
    assert_eq!(
        linked.get("colors"),
        Some(&LinkedNode::Struct(Fields {
            members: vec![
                LinkedKeyVal::new("car", LinkedNode::ConstrainedType(ConstrainedType::U8)),
                LinkedKeyVal::new("boat", LinkedNode::ConstrainedType(ConstrainedType::U8)),
            ]
        }))
    );

    // A flattened group
    assert_eq!(
        node.get("ip"),
        Some(&Node::Group(IvtGroup {
            members: vec![
                Node::KeyVal(KeyVal::new(
                    "address",
                    Node::ConstrainedType(ConstrainedType::Str(16))
                )),
                Node::KeyVal(KeyVal::new("port", Node::Foreign("u16".to_string()))),
                Node::KeyVal(KeyVal::new("dhcp", Node::Foreign("is-dhcp".to_string()))),
            ]
        }))
    );

    // A flattened linked group
    assert_eq!(
        linked.get("ip"),
        Some(&LinkedNode::Fields(Fields {
            members: vec![
                LinkedKeyVal::new("address", LinkedNode::ConstrainedType(ConstrainedType::Str(16))),
                LinkedKeyVal::new("port", LinkedNode::ConstrainedType(ConstrainedType::U16)),
                LinkedKeyVal::new("dhcp", LinkedNode::ConstrainedType(ConstrainedType::Bool)),
            ]
        }))
    );

    // A flattened struct with referened member group
    assert_eq!(
        node.get("local"),
        Some(&Node::Mapping(IvtGroup {
            members: vec![Node::Foreign("ip".to_string())]
        }))
    );

    // A flattened struct with linked member group
    assert_eq!(
        linked.get("local"),
        Some(&LinkedNode::Struct(Fields {
            members: vec![
                LinkedKeyVal::new("address", LinkedNode::ConstrainedType(ConstrainedType::Str(16))),
                LinkedKeyVal::new("port", LinkedNode::ConstrainedType(ConstrainedType::U16)),
                LinkedKeyVal::new("dhcp", LinkedNode::ConstrainedType(ConstrainedType::Bool)),
            ]
        }))
    );

    // A flattened struct with referened member struct
    assert_eq!(
        node.get("local-nested"),
        Some(&Node::Mapping(IvtGroup {
            members: vec![Node::KeyVal(KeyVal::new(
                "network",
                Node::Foreign("local".to_string())
            ))]
        }))
    );

    // A flattened struct with linked member struct
    assert_eq!(
        linked.get("local-nested"),
        Some(&LinkedNode::Struct(Fields {
            members: vec![LinkedKeyVal::new(
                "network",
                LinkedNode::ForeignStruct("local".to_string())
            )]
        }))
    );

    // A flattened array with referenced member
    assert_eq!(
        node.get("mac"),
        Some(&Node::Array(Array {
            ty: Box::new(Node::Foreign("small".to_string())),
            len: 6
        }))
    );

    // A flattened array with linked member
    assert_eq!(
        linked.get("mac"),
        Some(&LinkedNode::Array(LinkedArray {
            ty: Box::new(LinkedNode::ConstrainedType(ConstrainedType::U8)),
            len: 6
        }))
    );

    // flatten literal int
    assert_eq!(node.get("lit"), Some(&Node::Foreign("boop".to_string())));

    // flattened and linked literal int
    assert_eq!(linked.get("lit"), Some(&LinkedNode::Literal(Literal::UInt(3))));

    // flatten literal str
    assert_eq!(node.get("bar"), Some(&Node::Literal(Literal::Str("bar".to_string()))));

    // flattened and linked literal string
    assert_eq!(linked.get("bar"), Some(&LinkedNode::Literal(Literal::Str("bar".to_string()))));
}

#[test]
fn size_controls_cover_every_width() {
    let pairs = vec![
        ("uint", 1, ConstrainedType::U8),
        ("uint", 2, ConstrainedType::U16),
        ("uint", 4, ConstrainedType::U32),
        ("uint", 8, ConstrainedType::U64),
        ("int", 1, ConstrainedType::I8),
        ("int", 2, ConstrainedType::I16),
        ("int", 4, ConstrainedType::I32),
        ("int", 8, ConstrainedType::I64),
    ];
    for (prim, width, expect) in pairs {
        let cddl = Cddl {
            rules: vec![type_rule("x", size_control(prim, width))],
        };
        let nm = flatten(&cddl).unwrap();
        assert_eq!(nm.get("x"), Some(&Node::ConstrainedType(expect)));
    }
    // Text and byte strings take any length; other widths are rejected.
    let nm = flatten(&Cddl { rules: vec![type_rule("t", size_control("tstr", 40))] }).unwrap();
    assert_eq!(nm.get("t"), Some(&Node::ConstrainedType(ConstrainedType::Str(40))));
    let nm = flatten(&Cddl { rules: vec![type_rule("b", size_control("bstr", 7))] }).unwrap();
    assert_eq!(nm.get("b"), Some(&Node::ConstrainedType(ConstrainedType::Bytes(7))));
    let err = flatten(&Cddl { rules: vec![type_rule("x", size_control("uint", 3))] });
    assert_eq!(err, Err(ValidateError::InvalidControl));
}

#[test]
fn linking_keeps_every_rule_name() {
    let cddl = test_schema();
    let node = flatten(&cddl).unwrap();
    let linked = link(&node).unwrap();
    let mut names: Vec<String> = cddl.rules.iter().map(|r| r.name.clone()).collect();
    names.sort();
    assert_eq!(node.len(), names.len());
    assert_eq!(linked.len(), names.len());
    for n in names {
        assert!(node.get(&n).is_some());
        assert!(linked.get(&n).is_some());
    }
}

#[test]
fn splicing_matches_manual_inline() {
    // `local = { ip }` with `ip` a group resolves to the same struct as the
    // schema with ip's fields written inline.
    let spliced = {
        let cddl = Cddl {
            rules: vec![
                type_rule("u16", size_control("uint", 2)),
                Rule {
                    name: "ip".to_string(),
                    val: RuleVal::AssignGroup(GrpEnt {
                        occur: None,
                        val: GrpEntVal::Parenthesized(group_of(vec![
                            keyed("address", size_control("tstr", 16)),
                            keyed("port", typename("u16")),
                        ])),
                    }),
                },
                map_rule("local", vec![bare(typename("ip"))]),
            ],
        };
        let linked = link(&flatten(&cddl).unwrap()).unwrap();
        format!("{:?}", linked.get("local"))
    };
    let inlined = {
        let cddl = Cddl {
            rules: vec![
                type_rule("u16", size_control("uint", 2)),
                map_rule(
                    "local",
                    vec![
                        keyed("address", size_control("tstr", 16)),
                        keyed("port", typename("u16")),
                    ],
                ),
            ],
        };
        let linked = link(&flatten(&cddl).unwrap()).unwrap();
        format!("{:?}", linked.get("local"))
    };
    assert_eq!(spliced, inlined);
}

#[test]
fn array_boundary_lengths() {
    let exact = Cddl {
        rules: vec![
            type_rule("small", size_control("uint", 1)),
            type_rule(
                "arr",
                Type(vec![Type1::Simple(Type2::Array(group_of(vec![GrpEnt {
                    occur: Some(Occur::Numbered(3, 3)),
                    val: GrpEntVal::Member(Member {
                        key: None,
                        value: typename("small"),
                    }),
                }])))]),
            ),
        ],
    };
    let nm = flatten(&exact).unwrap();
    assert_eq!(
        nm.get("arr"),
        Some(&Node::Array(Array {
            len: 3,
            ty: Box::new(Node::Foreign("small".to_string()))
        }))
    );

    let range = Cddl {
        rules: vec![type_rule(
            "arr",
            Type(vec![Type1::Simple(Type2::Array(group_of(vec![GrpEnt {
                occur: Some(Occur::Numbered(2, 4)),
                val: GrpEntVal::Member(Member {
                    key: None,
                    value: typename("small"),
                }),
            }])))]),
        )],
    };
    assert_eq!(flatten(&range), Err(ValidateError::InvalidArraySize));
}

#[test]
fn undefined_reference_is_reported() {
    let cddl = Cddl {
        rules: vec![type_rule("thing", typename("undefined-thing"))],
    };
    let nm = flatten(&cddl).unwrap();
    assert_eq!(
        link(&nm),
        Err(ValidateError::ForeignKey("undefined-thing".to_string()))
    );
}

#[test]
fn self_reference_is_reported_as_cycle() {
    let cddl = Cddl {
        rules: vec![map_rule("a", vec![keyed("next", typename("a"))])],
    };
    let nm = flatten(&cddl).unwrap();
    assert_eq!(link(&nm), Err(ValidateError::Cycle("a".to_string())));
}

#[test]
fn flatten_error_cases() {
    // A type choice with zero alternatives.
    let empty = Cddl { rules: vec![type_rule("x", Type(vec![]))] };
    assert_eq!(flatten(&empty), Err(ValidateError::InvalidEnum0));

    // More than one alternative is a declared non-goal.
    let two = Cddl {
        rules: vec![type_rule(
            "x",
            Type(vec![
                Type1::Simple(Type2::Typename("a".to_string())),
                Type1::Simple(Type2::Typename("b".to_string())),
            ]),
        )],
    };
    assert_eq!(flatten(&two), Err(ValidateError::TodoEnums));

    // A primitive without a width.
    let bare_prim = Cddl { rules: vec![type_rule("x", typename("uint"))] };
    assert_eq!(flatten(&bare_prim), Err(ValidateError::InvalidUnconstrainedPrimative));

    // A float literal.
    let float = Cddl {
        rules: vec![type_rule("x", Type(vec![Type1::Simple(Type2::Value(Value::Float))]))],
    };
    assert_eq!(flatten(&float), Err(ValidateError::InvalidLiteral));

    // A range.
    let range = Cddl { rules: vec![type_rule("x", Type(vec![Type1::Range]))] };
    assert_eq!(
        flatten(&range),
        Err(ValidateError::UnsupportedCddl("range".to_string()))
    );

    // An unsupported control operator.
    let cbor_op = Cddl {
        rules: vec![type_rule(
            "x",
            Type(vec![Type1::Control(TypeControl {
                target: Type2::Typename("uint".to_string()),
                arg: Type2::Value(Value::Uint(1)),
                op: "lt".to_string(),
            })]),
        )],
    };
    assert_eq!(
        flatten(&cbor_op),
        Err(ValidateError::UnsupportedCddl("lt".to_string()))
    );

    // A size control on a non-primitive target.
    let on_name = Cddl {
        rules: vec![type_rule(
            "x",
            Type(vec![Type1::Control(TypeControl {
                target: Type2::Value(Value::Uint(1)),
                arg: Type2::Value(Value::Uint(1)),
                op: "size".to_string(),
            })]),
        )],
    };
    assert_eq!(flatten(&on_name), Err(ValidateError::InvalidControl));

    // A group member with a non-bareword key.
    let odd_key = Cddl {
        rules: vec![map_rule(
            "x",
            vec![GrpEnt {
                occur: None,
                val: GrpEntVal::Member(Member {
                    key: Some(MemberKeyVal::Other),
                    value: typename("y"),
                }),
            }],
        )],
    };
    assert_eq!(flatten(&odd_key), Err(ValidateError::InvalidGroupMissingKey));

    // A keyless member that is not a bare reference.
    let keyless = Cddl {
        rules: vec![map_rule("x", vec![bare(size_control("uint", 1))])],
    };
    assert_eq!(flatten(&keyless), Err(ValidateError::InvalidType));

    // An array with more than one member.
    let wide = Cddl {
        rules: vec![type_rule(
            "x",
            Type(vec![Type1::Simple(Type2::Array(group_of(vec![
                bare(typename("a")),
                bare(typename("b")),
            ])))]),
        )],
    };
    assert_eq!(flatten(&wide), Err(ValidateError::InvalidArray));
}

#[test]
fn later_rules_replace_earlier_ones() {
    let cddl = Cddl {
        rules: vec![
            type_rule("x", size_control("uint", 1)),
            type_rule("x", size_control("uint", 2)),
        ],
    };
    let nm = flatten(&cddl).unwrap();
    assert_eq!(nm.len(), 1);
    assert_eq!(nm.get("x"), Some(&Node::ConstrainedType(ConstrainedType::U16)));
}

#[test]
fn single_byte_text_is_a_character() {
    let cddl = Cddl {
        rules: vec![type_rule(
            "g",
            Type(vec![Type1::Simple(Type2::Value(Value::Text("G".to_string())))]),
        )],
    };
    let nm = flatten(&cddl).unwrap();
    assert_eq!(nm.get("g"), Some(&Node::Literal(Literal::Char('G'))));
}

#[test]
fn colors_with_direct_widths() {
    // Two 1-byte unsigned fields link to a struct with exactly those members.
    let cddl = Cddl {
        rules: vec![map_rule(
            "colors",
            vec![
                keyed("car", size_control("uint", 1)),
                keyed("boat", size_control("uint", 1)),
            ],
        )],
    };
    let linked = link(&flatten(&cddl).unwrap()).unwrap();
    assert_eq!(
        linked.get("colors"),
        Some(&LinkedNode::Struct(Fields {
            members: vec![
                LinkedKeyVal::new("car", LinkedNode::ConstrainedType(ConstrainedType::U8)),
                LinkedKeyVal::new("boat", LinkedNode::ConstrainedType(ConstrainedType::U8)),
            ]
        }))
    );
}

#[test]
fn error_messages_name_the_offender() {
    assert_eq!(
        ValidateError::ForeignKey("undefined-thing".to_string()).message(),
        "foreign key not defined [undefined-thing]"
    );
    assert_eq!(
        ValidateError::UnsupportedCddl("range".to_string()).message(),
        "CDDL not supported range"
    );
    assert_eq!(
        ValidateError::Cycle("a".to_string()).message(),
        "rule references itself [a]"
    );
    assert_eq!(ValidateError::InvalidArraySize.message(), "invalid array size");
}
