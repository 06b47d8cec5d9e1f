use microcosm::descriptor::{AnnotationGroup, AnnotationParam, Diagnostic, TypeDescriptor,
    TypeRef, VariantDescriptor, VariantShape};
use microcosm::config::get_context;
use microcosm::errors::{cw_error, synthesize, variants, wrapper_variant};

fn unit_variant(name: &str) -> VariantDescriptor {
    VariantDescriptor { name: name.to_string(), shape: VariantShape::Unit, annotations: vec![] }
}

fn names(vs: &[VariantDescriptor]) -> Vec<String> {
    vs.iter().map(|v| v.name.clone()).collect()
}

#[test]
fn catalog_names() {
    assert_eq!(
        names(&variants()),
        vec![
            "Generic",
            "Std",
            "Unauthorized",
            "Disabled",
            "Expired",
            "InsufficientFunds",
            "FundsNotAccepted",
            "Input",
            "NotFound",
            "Parse",
            "Unexpected"
        ]
    );
    assert_eq!(wrapper_variant().name, "Microcosm");
}

#[test]
fn merge_with_custom_variant() {
    let merged = synthesize(&vec![unit_variant("Foo")]);
    let ns = names(&merged);

    // the custom variant, the library wrapper, and the whole catalog
    assert_eq!(merged.len(), 13);
    assert!(ns.contains(&"Foo".to_string()));
    assert!(ns.contains(&"Microcosm".to_string()));
    for v in variants() {
        assert!(ns.contains(&v.name));
    }
    // ordered by name, so no name appears twice
    let mut sorted = ns.clone();
    sorted.sort();
    sorted.dedup();
    assert_eq!(ns, sorted);
}

#[test]
fn merge_empty_set() {
    let merged = synthesize(&vec![]);
    let ns = names(&merged);

    // the plain catalog, without the library wrapper
    assert_eq!(merged.len(), 11);
    assert!(!ns.contains(&"Microcosm".to_string()));
    for v in variants() {
        assert!(ns.contains(&v.name));
    }
}

#[test]
fn merge_user_precedence() {
    // the user's own shape of a catalog name wins
    let custom = VariantDescriptor {
        name: "Unauthorized".to_string(),
        shape: VariantShape::Tuple { fields: vec![TypeRef { path: "String".to_string() }] },
        annotations: vec![],
    };
    let merged = synthesize(&vec![custom.clone()]);

    let found: Vec<&VariantDescriptor> =
        merged.iter().filter(|v| v.name == "Unauthorized").collect();
    assert_eq!(found.len(), 1);
    assert_eq!(*found[0], custom);
}

#[test]
fn cw_error_keeps_the_name() {
    let input = TypeDescriptor {
        name: "ContractError".to_string(),
        generics: vec![],
        annotations: vec![],
        variants: vec![unit_variant("Custom")],
    };
    let expansion = cw_error(&input);
    assert_eq!(expansion.ident, "ContractError");
    assert!(names(&expansion.variants).contains(&"Custom".to_string()));
}

#[test]
fn unrecognized_parameter_is_reported() {
    let input = TypeDescriptor {
        name: "QueryMsg".to_string(),
        generics: vec![],
        annotations: vec![AnnotationGroup {
            path: "query_responses".to_string(),
            params: vec![AnnotationParam::Flag { name: "mystery".to_string() }],
        }],
        variants: vec![],
    };
    assert_eq!(
        get_context(&input),
        Err(Diagnostic::UnrecognizedParameter { name: "mystery".to_string() })
    );
}

#[test]
fn foreign_group_is_passed_over() {
    let input = TypeDescriptor {
        name: "QueryMsg".to_string(),
        generics: vec![],
        annotations: vec![AnnotationGroup {
            path: "serde".to_string(),
            params: vec![AnnotationParam::Flag { name: "untagged".to_string() }],
        }],
        variants: vec![],
    };
    let context = get_context(&input).unwrap();
    assert!(!context.is_nested);
    assert!(context.no_bounds_for.is_empty());
}
