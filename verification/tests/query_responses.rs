use microcosm::config::{get_context, Context};
use microcosm::descriptor::{Annotation, AnnotationArg, AnnotationGroup, AnnotationParam,
    GenericParam, TypeDescriptor, TypeRef, VariantDescriptor, VariantShape, FieldDef};
use microcosm::ident::to_snake_case;
use microcosm::query_responses::{parse_query, parse_tuple, query_responses_derive_impl,
    QueryRegistryEntry, RegistryBody};

fn ty(path: &str) -> TypeRef {
    TypeRef { path: path.to_string() }
}

fn returns_ann(path: &str) -> Annotation {
    Annotation { path: "returns".to_string(), args: vec![AnnotationArg::Ty { ty: ty(path) }] }
}

fn struct_variant(name: &str, annotations: Vec<Annotation>) -> VariantDescriptor {
    VariantDescriptor {
        name: name.to_string(),
        shape: VariantShape::Struct { fields: vec![] },
        annotations,
    }
}

fn unit_variant(name: &str, annotations: Vec<Annotation>) -> VariantDescriptor {
    VariantDescriptor { name: name.to_string(), shape: VariantShape::Unit, annotations }
}

fn tuple_variant(name: &str, fields: Vec<&str>, annotations: Vec<Annotation>) -> VariantDescriptor {
    VariantDescriptor {
        name: name.to_string(),
        shape: VariantShape::Tuple { fields: fields.into_iter().map(ty).collect() },
        annotations,
    }
}

fn enum_desc(
    name: &str,
    annotations: Vec<AnnotationGroup>,
    variants: Vec<VariantDescriptor>,
) -> TypeDescriptor {
    TypeDescriptor { name: name.to_string(), generics: vec![], annotations, variants }
}

fn nested_group() -> AnnotationGroup {
    AnnotationGroup {
        path: "query_responses".to_string(),
        params: vec![AnnotationParam::Flag { name: "nested".to_string() }],
    }
}

fn test_context() -> Context {
    Context { is_nested: false, no_bounds_for: vec![] }
}

fn entry(key: &str, response: &str) -> QueryRegistryEntry {
    QueryRegistryEntry { key: key.to_string(), response: ty(response) }
}

#[test]
fn parse_context() {
    let input = enum_desc(
        "Test",
        vec![
            nested_group(),
            AnnotationGroup {
                path: "query_responses".to_string(),
                params: vec![AnnotationParam::IdentList {
                    name: "no_bounds_for".to_string(),
                    items: vec!["Item1".to_string(), "Item2".to_string()],
                }],
            },
        ],
        vec![],
    );
    let context = get_context(&input).unwrap();

    assert!(context.is_nested);
    assert_eq!(context.no_bounds_for, vec!["Item1".to_string(), "Item2".to_string()]);
}

#[test]
fn crate_rename() {
    let input = enum_desc(
        "QueryMsg",
        vec![],
        vec![
            struct_variant("Supply", vec![returns_ann("some_crate::AnotherType")]),
            struct_variant("Balance", vec![returns_ann("SomeType")]),
        ],
    );

    let result = query_responses_derive_impl(&input).unwrap();
    assert_eq!(result.target, "QueryMsg");
    assert_eq!(result.excluded_target, "wasm32");
    assert!(result.generics.is_empty());
    match result.body {
        RegistryBody::Flat { entries, .. } => {
            assert_eq!(
                entries,
                vec![entry("supply", "some_crate::AnotherType"), entry("balance", "SomeType")]
            );
        }
        RegistryBody::Nested { .. } => panic!("expected a flat registry"),
    }
}

#[test]
fn crate_rename_nested() {
    let input = enum_desc(
        "ContractQueryMsg",
        vec![nested_group()],
        vec![
            tuple_variant("Cw1", vec!["QueryMsg1"], vec![]),
            tuple_variant("Whitelist", vec!["whitelist::QueryMsg"], vec![]),
            tuple_variant("Cw1WhitelistContract", vec!["QueryMsg"], vec![]),
        ],
    );
    let result = query_responses_derive_impl(&input).unwrap();
    assert_eq!(result.target, "ContractQueryMsg");
    assert_eq!(result.excluded_target, "wasm32");
    match result.body {
        RegistryBody::Nested { subqueries } => {
            assert_eq!(
                subqueries,
                vec![ty("QueryMsg1"), ty("whitelist::QueryMsg"), ty("QueryMsg")]
            );
        }
        RegistryBody::Flat { .. } => panic!("expected a nested registry"),
    }
}

#[test]
fn happy_path() {
    let input = enum_desc(
        "QueryMsg",
        vec![],
        vec![
            struct_variant("Supply", vec![returns_ann("some_crate::AnotherType")]),
            struct_variant("Balance", vec![returns_ann("SomeType")]),
        ],
    );

    let result = query_responses_derive_impl(&input).unwrap();
    assert_eq!(result.target, "QueryMsg");
    match result.body {
        RegistryBody::Flat { entries, sorted_keys } => {
            assert_eq!(
                entries,
                vec![entry("supply", "some_crate::AnotherType"), entry("balance", "SomeType")]
            );
            assert_eq!(sorted_keys, vec!["balance".to_string(), "supply".to_string()]);
        }
        RegistryBody::Nested { .. } => panic!("expected a flat registry"),
    }
}

#[test]
fn empty_query_msg() {
    let input = enum_desc("QueryMsg", vec![], vec![]);

    let result = query_responses_derive_impl(&input).unwrap();
    assert_eq!(result.target, "QueryMsg");
    match result.body {
        RegistryBody::Flat { entries, sorted_keys } => {
            assert!(entries.is_empty());
            assert!(sorted_keys.is_empty());
        }
        RegistryBody::Nested { .. } => panic!("expected a flat registry"),
    }
}

#[test]
fn generics() {
    let plain_t = GenericParam { name: "T".to_string(), bounds: vec![], default: None };
    let input = TypeDescriptor {
        name: "QueryMsg".to_string(),
        generics: vec![plain_t.clone()],
        annotations: vec![],
        variants: vec![
            unit_variant("Foo", vec![returns_ann("bool")]),
            tuple_variant("Bar", vec!["T"], vec![returns_ann("u32")]),
        ],
    };

    let bounded_t = GenericParam {
        name: "T".to_string(),
        bounds: vec![ty("std::fmt::Debug"), ty("SomeTrait")],
        default: None,
    };
    let input2 = TypeDescriptor {
        name: "QueryMsg".to_string(),
        generics: vec![bounded_t],
        annotations: vec![],
        variants: vec![
            unit_variant("Foo", vec![returns_ann("bool")]),
            VariantDescriptor {
                name: "Bar".to_string(),
                shape: VariantShape::Struct {
                    fields: vec![FieldDef { name: "data".to_string(), ty: ty("T") }],
                },
                annotations: vec![returns_ann("u32")],
            },
        ],
    };

    let input3 = TypeDescriptor {
        name: "QueryMsg".to_string(),
        generics: vec![plain_t],
        annotations: vec![],
        variants: vec![
            unit_variant("Foo", vec![returns_ann("bool")]),
            VariantDescriptor {
                name: "Bar".to_string(),
                shape: VariantShape::Struct {
                    fields: vec![FieldDef { name: "data".to_string(), ty: ty("T") }],
                },
                annotations: vec![returns_ann("u32")],
            },
        ],
    };

    let expected_entries = vec![entry("foo", "bool"), entry("bar", "u32")];

    let result = query_responses_derive_impl(&input).unwrap();
    assert_eq!(
        result.generics,
        vec![GenericParam {
            name: "T".to_string(),
            bounds: vec![ty("::microcosm::schemars::JsonSchema")],
            default: None,
        }]
    );
    match result.body {
        RegistryBody::Flat { entries, .. } => assert_eq!(entries, expected_entries),
        RegistryBody::Nested { .. } => panic!("expected a flat registry"),
    }

    let result2 = query_responses_derive_impl(&input2).unwrap();
    assert_eq!(
        result2.generics,
        vec![GenericParam {
            name: "T".to_string(),
            bounds: vec![
                ty("std::fmt::Debug"),
                ty("SomeTrait"),
                ty("::microcosm::schemars::JsonSchema"),
            ],
            default: None,
        }]
    );
    match result2.body {
        RegistryBody::Flat { entries, .. } => assert_eq!(entries, expected_entries),
        RegistryBody::Nested { .. } => panic!("expected a flat registry"),
    }

    let result3 = query_responses_derive_impl(&input3).unwrap();
    assert_eq!(
        result3.generics,
        vec![GenericParam {
            name: "T".to_string(),
            bounds: vec![ty("::microcosm::schemars::JsonSchema")],
            default: None,
        }]
    );
    match result3.body {
        RegistryBody::Flat { entries, .. } => assert_eq!(entries, expected_entries),
        RegistryBody::Nested { .. } => panic!("expected a flat registry"),
    }
}

#[test]
#[should_panic]
fn missing_return() {
    let input = enum_desc(
        "QueryMsg",
        vec![],
        vec![
            struct_variant("Supply", vec![]),
            struct_variant("Balance", vec![returns_ann("SomeType")]),
        ],
    );

    query_responses_derive_impl(&input).unwrap();
}

#[test]
#[should_panic]
fn invalid_return() {
    let input = enum_desc(
        "QueryMsg",
        vec![],
        vec![
            struct_variant(
                "Supply",
                vec![Annotation {
                    path: "returns".to_string(),
                    args: vec![AnnotationArg::Text { text: "1".to_string() }],
                }],
            ),
            struct_variant("Balance", vec![returns_ann("SomeType")]),
        ],
    );

    query_responses_derive_impl(&input).unwrap();
}

#[test]
fn parse_query_works() {
    let variant = struct_variant("GetFoo", vec![returns_ann("Foo")]);
    assert_eq!(
        parse_tuple(parse_query(&test_context(), &variant).unwrap()),
        entry("get_foo", "Foo")
    );

    let variant = struct_variant("GetFoo", vec![returns_ann("some_crate::Foo")]);
    assert_eq!(
        parse_tuple(parse_query(&test_context(), &variant).unwrap()),
        entry("get_foo", "some_crate::Foo")
    );
}

#[test]
fn to_snake_case_works() {
    assert_eq!(to_snake_case("SnakeCase"), "snake_case");
    assert_eq!(to_snake_case("Wasm123AndCo"), "wasm123_and_co");
}

#[test]
fn to_snake_case_is_idempotent() {
    for name in ["SnakeCase", "Wasm123AndCo", "already_snake", "ABC"] {
        let once = to_snake_case(name);
        assert_eq!(to_snake_case(&once), once);
    }
}

#[test]
fn flat_registry_is_total() {
    // every variant annotated: one entry per variant
    let annotated: Vec<VariantDescriptor> =
        (0..5).map(|i| struct_variant(&format!("Q{}", i), vec![returns_ann("bool")])).collect();
    let input = enum_desc("QueryMsg", vec![], annotated.clone());
    let result = query_responses_derive_impl(&input).unwrap();
    match result.body {
        RegistryBody::Flat { entries, .. } => assert_eq!(entries.len(), annotated.len()),
        RegistryBody::Nested { .. } => panic!("expected a flat registry"),
    }

    // one annotation removed: the derivation fails with that variant
    let mut broken = annotated;
    broken[3].annotations.clear();
    let input = enum_desc("QueryMsg", vec![], broken);
    assert_eq!(
        query_responses_derive_impl(&input),
        Err(microcosm::descriptor::Diagnostic::MissingResponseType { variant: "Q3".to_string() })
    );
}

#[test]
fn bound_exclusion() {
    let input = TypeDescriptor {
        name: "QueryMsg".to_string(),
        generics: vec![
            GenericParam { name: "T".to_string(), bounds: vec![], default: None },
            GenericParam { name: "U".to_string(), bounds: vec![], default: None },
        ],
        annotations: vec![AnnotationGroup {
            path: "query_responses".to_string(),
            params: vec![AnnotationParam::IdentList {
                name: "no_bounds_for".to_string(),
                items: vec!["U".to_string()],
            }],
        }],
        variants: vec![],
    };
    let result = query_responses_derive_impl(&input).unwrap();
    // the schema capability lands on T only
    assert_eq!(
        result.generics,
        vec![
            GenericParam {
                name: "T".to_string(),
                bounds: vec![ty("::microcosm::schemars::JsonSchema")],
                default: None,
            },
            GenericParam { name: "U".to_string(), bounds: vec![], default: None },
        ]
    );
}

#[test]
fn defaults_are_stripped() {
    let input = TypeDescriptor {
        name: "QueryMsg".to_string(),
        generics: vec![GenericParam {
            name: "T".to_string(),
            bounds: vec![],
            default: Some(ty("Empty")),
        }],
        annotations: vec![],
        variants: vec![],
    };
    let result = query_responses_derive_impl(&input).unwrap();
    assert_eq!(result.generics[0].default, None);
}

#[test]
fn nested_works() {
    let input = enum_desc(
        "ContractQueryMsg",
        vec![nested_group()],
        vec![
            tuple_variant("Cw1", vec!["QueryMsg1"], vec![]),
            tuple_variant("Whitelist", vec!["whitelist::QueryMsg"], vec![]),
            tuple_variant("Cw1WhitelistContract", vec!["QueryMsg"], vec![]),
        ],
    );
    let result = query_responses_derive_impl(&input).unwrap();
    assert_eq!(result.excluded_target, "wasm32");
    match result.body {
        RegistryBody::Nested { subqueries } => {
            assert_eq!(
                subqueries,
                vec![ty("QueryMsg1"), ty("whitelist::QueryMsg"), ty("QueryMsg")]
            );
        }
        RegistryBody::Flat { .. } => panic!("expected a nested registry"),
    }
}

#[test]
fn nested_two_delegates() {
    let input = enum_desc(
        "ContractQueryMsg",
        vec![nested_group()],
        vec![
            tuple_variant("Cw1", vec!["A"], vec![]),
            tuple_variant("Whitelist", vec!["B"], vec![]),
        ],
    );
    let result = query_responses_derive_impl(&input).unwrap();
    match result.body {
        RegistryBody::Nested { subqueries } => {
            assert_eq!(subqueries.len(), 2);
            assert_eq!(subqueries, vec![ty("A"), ty("B")]);
        }
        RegistryBody::Flat { .. } => panic!("expected a nested registry"),
    }
}

#[test]
fn nested_empty() {
    let input = enum_desc("EmptyMsg", vec![nested_group()], vec![]);
    let result = query_responses_derive_impl(&input).unwrap();
    assert_eq!(result.excluded_target, "wasm32");
    match result.body {
        RegistryBody::Nested { subqueries } => assert!(subqueries.is_empty()),
        RegistryBody::Flat { .. } => panic!("expected a nested registry"),
    }
}

#[test]
#[should_panic]
fn nested_too_many_params() {
    let input = enum_desc(
        "ContractQueryMsg",
        vec![nested_group()],
        vec![
            tuple_variant("Msg1", vec!["QueryMsg1", "QueryMsg2"], vec![]),
            tuple_variant("Whitelist", vec!["whitelist::QueryMsg"], vec![]),
        ],
    );
    query_responses_derive_impl(&input).unwrap();
}

#[test]
#[should_panic]
fn nested_mixed() {
    let input = enum_desc(
        "ContractQueryMsg",
        vec![nested_group()],
        vec![
            tuple_variant("Cw1", vec!["cw1::QueryMsg"], vec![]),
            VariantDescriptor {
                name: "Test".to_string(),
                shape: VariantShape::Struct {
                    fields: vec![FieldDef { name: "mixed".to_string(), ty: ty("bool") }],
                },
                annotations: vec![],
            },
        ],
    );
    query_responses_derive_impl(&input).unwrap();
}

#[test]
#[should_panic]
fn nested_unit_variant() {
    let input = enum_desc(
        "ContractQueryMsg",
        vec![nested_group()],
        vec![
            tuple_variant("Cw1", vec!["cw1::QueryMsg"], vec![]),
            unit_variant("Whitelist", vec![]),
        ],
    );
    query_responses_derive_impl(&input).unwrap();
}
