use ooxmlsdk_build::models::{
    OpenXmlSchemaEnumFacet, OpenXmlSchemaType, OpenXmlSchemaTypeAttribute,
    OpenXmlSchemaTypeAttributeValidator, OpenXmlSchemaTypeChild, OpenXmlSchemaTypeParticle,
    OpenXmlSchemaTypeParticleOccur, Occurrence,
};
use ooxmlsdk_build::utils::{
    escape_field_name, escape_snake_case, escape_type_name, escape_upper_camel_case, BuildError,
};

#[test]
fn snake_case_names() {
    assert_eq!(escape_snake_case("CamelCase"), "camel_case");
    assert_eq!(escape_snake_case("w:val"), "w_val");
    assert_eq!(escape_snake_case("MCAttributes"), "mc_attributes");
}

#[test]
fn reserved_field_names_get_the_raw_prefix() {
    assert_eq!(escape_snake_case("Type"), "r#type");
    assert_eq!(escape_snake_case("for"), "r#for");
    assert_eq!(escape_snake_case("Final"), "r#final");
    assert_eq!(escape_field_name("override".to_string()), "r#override");
    assert_eq!(escape_field_name("overrides".to_string()), "overrides");
}

#[test]
fn upper_camel_case_names() {
    assert_eq!(escape_upper_camel_case("w:body"), "WBody");
    assert_eq!(escape_upper_camel_case("snake_case_name"), "SnakeCaseName");
}

#[test]
fn reserved_type_names_get_an_underscore() {
    assert_eq!(escape_upper_camel_case("self"), "_Self");
    assert_eq!(escape_type_name("self".to_string()), "_self");
    assert_eq!(escape_type_name("Selfie".to_string()), "Selfie");
}

#[test]
fn build_error_messages() {
    assert_eq!(
        BuildError::HashMapExpectedSomeError("w:CT_X/".to_string()).message(),
        "Expected w:CT_X/ to exist, but found None"
    );
    assert_eq!(BuildError::IOError("gone".to_string()).message(), "I/O error: gone");
    assert_eq!(BuildError::SynError("x y".to_string()).message(), "Syn error: x y");
}

fn leaf(name: &str) -> OpenXmlSchemaTypeParticle {
    OpenXmlSchemaTypeParticle { name: name.to_string(), ..Default::default() }
}

#[test]
fn type_names_split() {
    let ty = OpenXmlSchemaType { name: "w:CT_Body/w:body".to_string(), ..Default::default() };
    assert_eq!(ty.split_name(), ("w:CT_Body", "w:body"));
    assert_eq!(ty.split_last_name(), ("w", "body"));
    let base = OpenXmlSchemaType { name: "w:CT_Body/".to_string(), ..Default::default() };
    assert_eq!(base.split_name(), ("w:CT_Body", ""));
}

#[test]
fn only_the_first_slash_splits_a_name() {
    let ty = OpenXmlSchemaType { name: "a/b:c/d".to_string(), ..Default::default() };
    assert_eq!(ty.split_name(), ("a", "b:c/d"));
}

#[test]
fn child_names() {
    let child = OpenXmlSchemaTypeChild { name: "w:CT_P/w:p".to_string(), ..Default::default() };
    assert_eq!(child.split_name(), ("w:CT_P", "w:p"));
    assert_eq!(child.split_last_name(), ("w", "p"));
    assert_eq!(child.as_property_name_str(), "w:p");
    assert_eq!(child.as_property_name_ident(), "w_p");
    assert_eq!(child.as_last_name_ident(), "WP");
    let named = OpenXmlSchemaTypeChild {
        name: "w:CT_P/w:p".to_string(),
        property_name: "Paragraph".to_string(),
        ..Default::default()
    };
    assert_eq!(named.as_property_name_str(), "Paragraph");
    assert_eq!(named.as_property_name_ident(), "paragraph");
}

#[test]
fn attribute_names() {
    let a = OpenXmlSchemaTypeAttribute { q_name: ":val".to_string(), ..Default::default() };
    assert_eq!(a.as_name_str(), "val");
    assert_eq!(a.as_name_ident(), "val");
    let b = OpenXmlSchemaTypeAttribute {
        q_name: "w:type".to_string(),
        property_name: "Type".to_string(),
        ..Default::default()
    };
    assert_eq!(b.as_name_str(), "w:type");
    assert_eq!(b.as_name_ident(), "r#type");
    let c = OpenXmlSchemaTypeAttribute { q_name: "::x".to_string(), ..Default::default() };
    assert_eq!(c.as_name_str(), ":x");
}

#[test]
fn attribute_types_split() {
    let a = OpenXmlSchemaTypeAttribute {
        value_type: "<<Some.Name.Space.Kind>>".to_string(),
        ..Default::default()
    };
    assert_eq!(a.split_type_trimmed(), ("Some.Name.Space", "Kind"));
    let e = OpenXmlSchemaTypeAttribute {
        value_type: "EnumValue<DocumentFormat.OpenXml.Wordprocessing.JustificationValues>"
            .to_string(),
        ..Default::default()
    };
    assert_eq!(
        e.split_type_enum_value_trimmed(),
        Some(("DocumentFormat.OpenXml.Wordprocessing", "JustificationValues"))
    );
    let s = OpenXmlSchemaTypeAttribute { value_type: "StringValue".to_string(), ..Default::default() };
    assert_eq!(s.split_type_enum_value_trimmed(), None);
}

#[test]
fn required_validator_is_found() {
    let mut a = OpenXmlSchemaTypeAttribute::default();
    assert!(!a.is_validator_required());
    a.validators.push(OpenXmlSchemaTypeAttributeValidator {
        name: "StringValidator".to_string(),
        ..Default::default()
    });
    assert!(!a.is_validator_required());
    a.validators.push(OpenXmlSchemaTypeAttributeValidator {
        name: "RequiredValidator".to_string(),
        ..Default::default()
    });
    assert!(a.is_validator_required());
}

#[test]
fn facet_variant_names() {
    let f = OpenXmlSchemaEnumFacet { name: "".to_string(), value: "both".to_string(), ..Default::default() };
    assert_eq!(f.as_variant_ident(), "Both");
    let g = OpenXmlSchemaEnumFacet {
        name: "self".to_string(),
        value: "x".to_string(),
        ..Default::default()
    };
    assert_eq!(g.as_variant_ident(), "_Self");
}

#[test]
fn flatten_test_needs_a_sequence_of_leaves() {
    let mut ty = OpenXmlSchemaType { name: "w:CT_X/w:x".to_string(), ..Default::default() };
    ty.particle.items = vec![leaf("a"), leaf("b")];
    assert!(!ty.is_one_sequence_flatten());
    ty.particle.kind = "Sequence".to_string();
    assert!(ty.is_one_sequence_flatten());
    ty.particle.kind = "Choice".to_string();
    assert!(!ty.is_one_sequence_flatten());
    ty.composite_type = "OneSequence".to_string();
    assert!(ty.is_one_sequence_flatten());
    ty.particle.items[1].kind = "Group".to_string();
    assert!(!ty.is_one_sequence_flatten());
    ty.particle.items[1].kind = "".to_string();
    ty.particle.items[1].items = vec![leaf("c")];
    assert!(!ty.is_one_sequence_flatten());
}

#[test]
fn occurrence_of_a_particle() {
    let mut p = leaf("a");
    assert_eq!(p.as_occurrence(), Occurrence::Required);
    p.occurs = vec![OpenXmlSchemaTypeParticleOccur { min: 0, max: 1, ..Default::default() }];
    assert_eq!(p.as_occurrence(), Occurrence::Optional);
    p.occurs = vec![OpenXmlSchemaTypeParticleOccur { min: 1, max: 1, ..Default::default() }];
    assert_eq!(p.as_occurrence(), Occurrence::Repeated);
    p.occurs = vec![OpenXmlSchemaTypeParticleOccur { min: 0, max: 0, ..Default::default() }];
    assert_eq!(p.as_occurrence(), Occurrence::Repeated);
}

#[test]
fn child_map_finds_the_last_child_of_a_name() {
    let mut ty = OpenXmlSchemaType::default();
    ty.children = vec![
        OpenXmlSchemaTypeChild { name: "a/x:a".to_string(), property_name: "first".to_string(), ..Default::default() },
        OpenXmlSchemaTypeChild { name: "b/x:b".to_string(), ..Default::default() },
        OpenXmlSchemaTypeChild { name: "a/x:a".to_string(), property_name: "second".to_string(), ..Default::default() },
    ];
    let map = ty.child_map();
    assert_eq!(map.index_of("a/x:a"), Some(2));
    assert_eq!(map.get("a/x:a").unwrap().property_name, "second");
    assert_eq!(map.index_of("b/x:b"), Some(1));
    assert!(map.get("c/x:c").is_none());
}
