use ooxmlsdk_build::context::GenContext;
use ooxmlsdk_build::features::Features;
use ooxmlsdk_build::models::{
    OpenXmlNamespace, OpenXmlPart, OpenXmlPartChild, OpenXmlPartPaths, OpenXmlSchema,
    OpenXmlSchemaEnum, OpenXmlSchemaEnumFacet, OpenXmlSchemaType, OpenXmlSchemaTypeAttribute,
    OpenXmlSchemaTypeAttributeValidator, OpenXmlSchemaTypeChild, OpenXmlSchemaTypeParticle,
    OpenXmlSchemaTypeParticleOccur, TypedNamespace, TypedSchema,
};
use ooxmlsdk_build::common::SdkError;
use ooxmlsdk_build::deserializer::{
    dispatch_attribute, dispatch_child, enum_from_bytes, gen_child_arms, gen_deserializers,
    AttributeTarget, ChildArm,
};
use ooxmlsdk_build::models::Occurrence;
use ooxmlsdk_build::open_xml_part::{gen_open_xml_parts, PartContent};
use ooxmlsdk_build::open_xml_schema::{
    find_scalar_kind, gen_open_xml_schemas, ContentKind, Field, NumberKind, ValueKind,
};
use ooxmlsdk_build::serializer::{enum_to_text, gen_inner_writer, gen_serializer, Inner};
use ooxmlsdk_build::symbols::TypeRef;
use ooxmlsdk_build::utils::BuildError;

fn attribute(q_name: &str, value_type: &str, required: bool) -> OpenXmlSchemaTypeAttribute {
    let mut a = OpenXmlSchemaTypeAttribute {
        q_name: q_name.to_string(),
        value_type: value_type.to_string(),
        ..Default::default()
    };
    if required {
        a.validators.push(OpenXmlSchemaTypeAttributeValidator {
            name: "RequiredValidator".to_string(),
            ..Default::default()
        });
    }
    a
}

fn child(name: &str) -> OpenXmlSchemaTypeChild {
    OpenXmlSchemaTypeChild { name: name.to_string(), ..Default::default() }
}

fn item(name: &str, occurs: Option<(u64, u64)>) -> OpenXmlSchemaTypeParticle {
    OpenXmlSchemaTypeParticle {
        name: name.to_string(),
        occurs: match occurs {
            Some((min, max)) => vec![OpenXmlSchemaTypeParticleOccur { min, max, ..Default::default() }],
            None => vec![],
        },
        ..Default::default()
    }
}

fn schema() -> OpenXmlSchema {
    let document = OpenXmlSchemaType {
        name: "w:CT_Document/w:document".to_string(),
        class_name: "Document".to_string(),
        base_class: "OpenXmlPartRootElement".to_string(),
        part: "MainDocumentPart".to_string(),
        children: vec![child("w:CT_Body/w:body")],
        particle: OpenXmlSchemaTypeParticle {
            kind: "Sequence".to_string(),
            items: vec![item("w:CT_Body/w:body", None)],
            ..Default::default()
        },
        ..Default::default()
    };
    let body = OpenXmlSchemaType {
        name: "w:CT_Body/w:body".to_string(),
        class_name: "Body".to_string(),
        base_class: "OpenXmlCompositeElement".to_string(),
        children: vec![child("w:CT_P/w:p"), child("w:CT_Tbl/w:tbl")],
        particle: OpenXmlSchemaTypeParticle {
            kind: "Choice".to_string(),
            items: vec![item("w:CT_P/w:p", None), item("w:CT_Tbl/w:tbl", None)],
            ..Default::default()
        },
        ..Default::default()
    };
    let paragraph = OpenXmlSchemaType {
        name: "w:CT_P/w:p".to_string(),
        class_name: "Paragraph".to_string(),
        base_class: "OpenXmlCompositeElement".to_string(),
        attributes: vec![
            attribute("w:rsidR", "StringValue", false),
            attribute("w:level", "Int32Value", true),
            attribute("w:keep", "BooleanValue", false),
        ],
        children: vec![child("w:CT_Jc/w:jc"), child("w:CT_Text/w:t")],
        particle: OpenXmlSchemaTypeParticle {
            kind: "Sequence".to_string(),
            items: vec![
                item("w:CT_Jc/w:jc", Some((0, 1))),
                item("w:CT_Text/w:t", Some((0, 0))),
            ],
            ..Default::default()
        },
        ..Default::default()
    };
    let text = OpenXmlSchemaType {
        name: "w:CT_Text/w:t".to_string(),
        class_name: "Text".to_string(),
        base_class: "OpenXmlLeafTextElement".to_string(),
        attributes: vec![attribute("xml:space", "StringValue", false)],
        ..Default::default()
    };
    let table = OpenXmlSchemaType {
        name: "w:CT_Tbl/w:tbl".to_string(),
        class_name: "Table".to_string(),
        base_class: "OpenXmlLeafElement".to_string(),
        version: "Office2010".to_string(),
        ..Default::default()
    };
    let justification = OpenXmlSchemaType {
        name: "w:CT_Jc/w:jc".to_string(),
        class_name: "Justification".to_string(),
        base_class: "OpenXmlLeafElement".to_string(),
        attributes: vec![attribute(
            "w:val",
            "EnumValue<DocumentFormat.OpenXml.Wordprocessing.JustificationValues>",
            true,
        )],
        ..Default::default()
    };
    let orphan = OpenXmlSchemaType {
        name: "w:CT_Orphan/w:orphan".to_string(),
        class_name: "Orphan".to_string(),
        base_class: "OpenXmlLeafElement".to_string(),
        ..Default::default()
    };
    OpenXmlSchema {
        target_namespace: "urn:w".to_string(),
        types: vec![document, body, paragraph, text, table, justification, orphan],
        enums: vec![OpenXmlSchemaEnum {
            name: "JustificationValues".to_string(),
            value_type: "w:ST_Jc".to_string(),
            facets: vec![
                OpenXmlSchemaEnumFacet { name: "Left".to_string(), value: "left".to_string(), ..Default::default() },
                OpenXmlSchemaEnumFacet { name: "Center".to_string(), value: "center".to_string(), ..Default::default() },
                OpenXmlSchemaEnumFacet {
                    name: "Fancy".to_string(),
                    value: "fancy".to_string(),
                    version: "Office2013".to_string(),
                },
            ],
            ..Default::default()
        }],
        ..Default::default()
    }
    .with_file_stem("schemas_w")
}

fn part_child(name: &str, required: bool, many: bool) -> OpenXmlPartChild {
    OpenXmlPartChild {
        name: name.to_string(),
        api_name: name.to_string(),
        min_occurs_is_non_zero: required,
        max_occurs_great_than_one: many,
        ..Default::default()
    }
}

fn parts() -> Vec<OpenXmlPart> {
    vec![
        OpenXmlPart {
            name: "WordprocessingDocument".to_string(),
            base: "OpenXmlPackage".to_string(),
            children: vec![part_child("MainDocumentPart", true, false), part_child("CoreFilePropertiesPart", false, false)],
            ..Default::default()
        },
        OpenXmlPart {
            name: "MainDocumentPart".to_string(),
            base: "OpenXmlPart".to_string(),
            root: "document".to_string(),
            relationship_type: "http://rel/officeDocument".to_string(),
            paths: OpenXmlPartPaths { general: "word".to_string(), ..Default::default() },
            children: vec![part_child("ImagePart", false, true)],
            ..Default::default()
        },
        OpenXmlPart {
            name: "ImagePart".to_string(),
            base: "OpenXmlPart".to_string(),
            relationship_type: "http://rel/image".to_string(),
            extension: ".bin".to_string(),
            paths: OpenXmlPartPaths { general: "media".to_string(), ..Default::default() },
            ..Default::default()
        },
        OpenXmlPart {
            name: "CoreFilePropertiesPart".to_string(),
            base: "OpenXmlPart".to_string(),
            relationship_type: "http://rel/core".to_string(),
            paths: OpenXmlPartPaths { general: "docProps".to_string(), ..Default::default() },
            ..Default::default()
        },
        OpenXmlPart {
            name: "SpreadsheetDocument".to_string(),
            base: "OpenXmlPackage".to_string(),
            children: vec![part_child("WorkbookPart", false, false)],
            ..Default::default()
        },
        OpenXmlPart {
            name: "WorkbookPart".to_string(),
            base: "OpenXmlPart".to_string(),
            version: "Office2016".to_string(),
            ..Default::default()
        },
    ]
}

fn namespaces() -> Vec<OpenXmlNamespace> {
    vec![OpenXmlNamespace { prefix: "w".to_string(), uri: "urn:w".to_string(), version: "".to_string() }]
}

fn typed_namespaces() -> Vec<TypedNamespace> {
    vec![TypedNamespace {
        prefix: "w".to_string(),
        namespace: "DocumentFormat.OpenXml.Wordprocessing".to_string(),
    }]
}

fn typed_schemas() -> Vec<Vec<TypedSchema>> {
    vec![vec![
        TypedSchema {
            name: "w:CT_Document/w:document".to_string(),
            class_name: "Document".to_string(),
            part_class_name: "MainDocumentPart".to_string(),
        },
        TypedSchema {
            name: "w:CT_Body/w:body".to_string(),
            class_name: "Body".to_string(),
            part_class_name: "".to_string(),
        },
    ]]
}

fn docx() -> Features {
    let mut f = Features::baseline();
    f.docx = true;
    f.parts = true;
    f.validators = true;
    f
}

fn context(features: Features) -> GenContext {
    GenContext::new(parts(), vec![schema()], namespaces(), typed_namespaces(), typed_schemas(), features)
        .unwrap()
}

fn at(schema: usize, index: usize) -> TypeRef {
    TypeRef { schema, index }
}

#[test]
fn scalar_kinds_by_name() {
    assert_eq!(find_scalar_kind("StringValue"), Some(ValueKind::Text));
    assert_eq!(find_scalar_kind("SByteValue"), Some(ValueKind::Text));
    assert_eq!(find_scalar_kind("OnOffValue"), Some(ValueKind::Boolean));
    assert_eq!(find_scalar_kind("UInt16Value"), Some(ValueKind::Number(NumberKind::UInt16)));
    assert_eq!(find_scalar_kind("DoubleValue"), Some(ValueKind::Number(NumberKind::Double)));
    assert_eq!(find_scalar_kind("ListValue<StringValue>"), None);
    assert_eq!(find_scalar_kind("stringvalue"), None);
}

#[test]
fn a_part_root_has_the_namespace_declarations_and_its_children_as_fields() {
    let ctx = context(docx());
    let m = gen_open_xml_schemas(&ctx.schemas[0], &ctx).unwrap();
    let document = m.types[0].as_ref().unwrap();
    assert_eq!(
        document.fields,
        vec![
            Field::Xmlns,
            Field::XmlnsMap,
            Field::McIgnorable,
            Field::Child { item: 0, child: 0, target: at(0, 1), occurrence: Occurrence::Required },
        ]
    );
    assert!(document.variants.is_empty());
    assert!(document.base.is_none());
}

#[test]
fn a_choice_is_a_list_of_a_union() {
    let mut f = docx();
    f.office2010 = true;
    let ctx = context(f);
    let m = gen_open_xml_schemas(&ctx.schemas[0], &ctx).unwrap();
    let body = m.types[1].as_ref().unwrap();
    assert_eq!(body.fields, vec![Field::Children]);
    assert_eq!(body.variants.len(), 2);
    assert_eq!((body.variants[0].child, body.variants[0].target), (0, at(0, 2)));
    assert_eq!((body.variants[1].child, body.variants[1].target), (1, at(0, 4)));
}

#[test]
fn attributes_and_flattened_children_of_a_sequence() {
    let ctx = context(docx());
    let m = gen_open_xml_schemas(&ctx.schemas[0], &ctx).unwrap();
    let p = m.types[2].as_ref().unwrap();
    assert_eq!(
        p.fields,
        vec![
            Field::Attribute { inherited: false, index: 0, kind: ValueKind::Text, required: false },
            Field::Attribute {
                inherited: false,
                index: 1,
                kind: ValueKind::Number(NumberKind::Int32),
                required: true
            },
            Field::Attribute { inherited: false, index: 2, kind: ValueKind::Boolean, required: false },
            Field::Child { item: 0, child: 0, target: at(0, 4), occurrence: Occurrence::Optional },
            Field::Child { item: 1, child: 1, target: at(0, 3), occurrence: Occurrence::Repeated },
        ]
    );
}

#[test]
fn a_leaf_with_text_has_its_content() {
    let ctx = context(docx());
    let m = gen_open_xml_schemas(&ctx.schemas[0], &ctx).unwrap();
    let t = m.types[3].as_ref().unwrap();
    assert_eq!(
        t.fields,
        vec![
            Field::Attribute { inherited: false, index: 0, kind: ValueKind::Text, required: false },
            Field::XmlContent { kind: ContentKind::Scalar },
        ]
    );
    let jc = m.types[4].as_ref().unwrap();
    assert_eq!(
        jc.fields,
        vec![Field::Attribute {
            inherited: false,
            index: 0,
            kind: ValueKind::Enumeration(at(0, 0)),
            required: true
        }]
    );
    assert_eq!(m.enums.len(), 1);
    assert_eq!(m.enums[0].facets, 2);
    assert_eq!(m.enums[0].default_facet, 0);
}

fn three_leaves() -> OpenXmlSchemaType {
    OpenXmlSchemaType {
        name: "w:CT_Three/w:three".to_string(),
        class_name: "Three".to_string(),
        base_class: "OpenXmlCompositeElement".to_string(),
        children: vec![child("w:CT_P/w:p"), child("w:CT_Text/w:t"), child("w:CT_Jc/w:jc")],
        particle: OpenXmlSchemaTypeParticle {
            kind: "Sequence".to_string(),
            items: vec![
                item("w:CT_Text/w:t", None),
                item("w:CT_Jc/w:jc", None),
                item("w:CT_P/w:p", None),
            ],
            ..Default::default()
        },
        ..Default::default()
    }
}

#[test]
fn a_sequence_of_three_required_leaves_has_three_required_fields_in_particle_order() {
    let ctx = context(docx());
    let m = ctx.gen_schema_type(&ctx.schemas[0], &three_leaves()).unwrap();
    assert_eq!(
        m.fields,
        vec![
            Field::Child { item: 0, child: 1, target: at(0, 3), occurrence: Occurrence::Required },
            Field::Child { item: 1, child: 2, target: at(0, 4), occurrence: Occurrence::Required },
            Field::Child { item: 2, child: 0, target: at(0, 2), occurrence: Occurrence::Required },
        ]
    );
    assert!(m.variants.is_empty());
    assert!(!m.fields.contains(&Field::Children));
}

#[test]
fn a_nested_item_keeps_the_children_in_a_union() {
    let ctx = context(docx());
    let mut ty = three_leaves();
    ty.particle.items[1].kind = "Choice".to_string();
    let m = ctx.gen_schema_type(&ctx.schemas[0], &ty).unwrap();
    assert_eq!(m.fields, vec![Field::Children]);
    assert_eq!(m.variants.len(), 3);
}

#[test]
fn an_item_without_a_child_reference_is_an_error() {
    let ctx = context(docx());
    let mut ty = three_leaves();
    ty.particle.items[2].name = "w:CT_None/w:none".to_string();
    match ctx.gen_schema_type(&ctx.schemas[0], &ty) {
        Err(BuildError::HashMapExpectedSomeError(key)) => assert_eq!(key, "w:CT_None/w:none"),
        other => panic!("{other:?}"),
    }
}

#[test]
fn a_derived_type_has_its_own_attributes_then_those_of_its_base() {
    let mut s = schema();
    s.types.push(OpenXmlSchemaType {
        name: "w:CT_Base/".to_string(),
        class_name: "Base".to_string(),
        base_class: "OpenXmlLeafTextElement".to_string(),
        is_abstract: true,
        attributes: vec![attribute("w:inherited", "BooleanValue", false)],
        ..Default::default()
    });
    s.types.push(OpenXmlSchemaType {
        name: "w:CT_Base/w:derived".to_string(),
        class_name: "Derived".to_string(),
        base_class: "Base".to_string(),
        is_derived: true,
        attributes: vec![attribute("w:own", "StringValue", true)],
        ..Default::default()
    });
    s.types[1].children.push(child("w:CT_Base/w:derived"));
    let ctx = GenContext::new(parts(), vec![s], namespaces(), typed_namespaces(), typed_schemas(), docx())
        .unwrap();
    let names: Vec<&str> = ctx.schemas[0].types.iter().map(|t| t.name.as_str()).collect();
    assert!(names.contains(&"w:CT_Base/"));
    let m = gen_open_xml_schemas(&ctx.schemas[0], &ctx).unwrap();
    let base_at = ctx.find_type("w:CT_Base/").unwrap();
    let derived_at = ctx.find_type("w:CT_Base/w:derived").unwrap();
    assert!(m.types[base_at.index].is_none());
    let d = m.types[derived_at.index].as_ref().unwrap();
    assert_eq!(d.base, Some(base_at));
    assert!(d.children_of_base);
    assert_eq!(
        d.fields,
        vec![
            Field::Attribute { inherited: false, index: 0, kind: ValueKind::Text, required: true },
            Field::Attribute { inherited: true, index: 0, kind: ValueKind::Boolean, required: false },
            Field::XmlContent { kind: ContentKind::Scalar },
        ]
    );
}

#[test]
fn a_type_of_an_unknown_class_is_an_error() {
    let ctx = context(docx());
    let ty = OpenXmlSchemaType {
        name: "w:CT_Odd/w:odd".to_string(),
        base_class: "Mystery".to_string(),
        ..Default::default()
    };
    match ctx.gen_schema_type(&ctx.schemas[0], &ty) {
        Err(BuildError::HashMapExpectedSomeError(key)) => assert_eq!(key, "Mystery"),
        other => panic!("{other:?}"),
    }
    let derived = OpenXmlSchemaType {
        name: "w:CT_Gone/w:odd".to_string(),
        base_class: "Gone".to_string(),
        is_derived: true,
        ..Default::default()
    };
    match ctx.gen_schema_type(&ctx.schemas[0], &derived) {
        Err(BuildError::HashMapExpectedSomeError(key)) => assert_eq!(key, "w:CT_Gone/"),
        other => panic!("{other:?}"),
    }
}

#[test]
fn an_attribute_of_an_unknown_kind_is_an_error() {
    let ctx = context(docx());
    let mut ty = three_leaves();
    ty.attributes.push(attribute("w:x", "ColourValue", false));
    match ctx.gen_schema_type(&ctx.schemas[0], &ty) {
        Err(BuildError::HashMapExpectedSomeError(key)) => assert_eq!(key, "ColourValue"),
        other => panic!("{other:?}"),
    }
    ty.attributes[0].value_type = "EnumValue<DocumentFormat.OpenXml.Wordprocessing.Nothing>".to_string();
    assert!(ctx.gen_schema_type(&ctx.schemas[0], &ty).is_err());
    ty.attributes[0].value_type = "ListValue<ColourValue>".to_string();
    assert!(ctx.gen_schema_type(&ctx.schemas[0], &ty).is_ok());
}

#[test]
fn an_enumeration_without_facets_is_an_error() {
    let mut s = schema();
    s.enums[0].facets.clear();
    let ctx = GenContext::new(parts(), vec![s], namespaces(), typed_namespaces(), typed_schemas(), docx())
        .unwrap();
    match gen_open_xml_schemas(&ctx.schemas[0], &ctx) {
        Err(BuildError::HashMapExpectedSomeError(key)) => assert_eq!(key, "JustificationValues"),
        other => panic!("{other:?}"),
    }
}

#[test]
fn the_bare_name_belongs_to_the_first_child_of_that_name() {
    let ty = OpenXmlSchemaType {
        name: "x:CT_X/x:x".to_string(),
        base_class: "OpenXmlCompositeElement".to_string(),
        children: vec![child("a:CT_T/a:t"), child("w:CT_P/w:p"), child("w:CT_T/w:t"), child("b:CT_P/b:p")],
        ..Default::default()
    };
    assert_eq!(
        gen_child_arms(&ty).unwrap(),
        vec![
            ChildArm { child: 0, bare: true },
            ChildArm { child: 1, bare: true },
            ChildArm { child: 2, bare: false },
            ChildArm { child: 3, bare: false },
        ]
    );
    let arms = gen_child_arms(&ty).unwrap();
    assert!(matches!(dispatch_child(&ty.children, &arms, "X", b"t"), Ok(Some(0))));
    assert!(matches!(dispatch_child(&ty.children, &arms, "X", b"a:t"), Ok(Some(0))));
    assert!(matches!(dispatch_child(&ty.children, &arms, "X", b"w:t"), Ok(Some(2))));
    assert!(matches!(dispatch_child(&ty.children, &arms, "X", b"b:p"), Ok(Some(3))));
    assert!(matches!(dispatch_child(&ty.children, &arms, "X", b"p"), Ok(Some(1))));
    match dispatch_child(&ty.children, &arms, "some_class", b"w:q") {
        Err(SdkError::CommonError(name)) => assert_eq!(name, "SomeClass"),
        other => panic!("{other:?}"),
    }
}

#[test]
fn a_child_without_a_tag_is_an_error() {
    let ty = OpenXmlSchemaType {
        name: "x:CT_X/x:x".to_string(),
        base_class: "OpenXmlCompositeElement".to_string(),
        children: vec![child("a:CT_T/noprefix")],
        ..Default::default()
    };
    match gen_child_arms(&ty) {
        Err(BuildError::HashMapExpectedSomeError(key)) => assert_eq!(key, "a:CT_T/noprefix"),
        other => panic!("{other:?}"),
    }
}

#[test]
fn a_pruned_child_is_refused_under_a_type_with_other_children() {
    let ctx = context(docx());
    let ds = gen_deserializers(&ctx.schemas[0], &ctx).unwrap();
    let body = &ctx.schemas[0].types[1];
    let d = ds[1].as_ref().unwrap();
    assert_eq!(d.arms, vec![ChildArm { child: 0, bare: true }]);
    assert!(matches!(dispatch_child(&body.children, &d.arms, &body.class_name, b"w:p"), Ok(Some(0))));
    match dispatch_child(&body.children, &d.arms, &body.class_name, b"w:tbl") {
        Err(SdkError::CommonError(name)) => assert_eq!(name, "Body"),
        other => panic!("{other:?}"),
    }
}

#[test]
fn a_type_without_children_passes_every_tag_over() {
    let ctx = context(docx());
    let ds = gen_deserializers(&ctx.schemas[0], &ctx).unwrap();
    let t = &ctx.schemas[0].types[3];
    let d = ds[3].as_ref().unwrap();
    assert!(d.arms.is_empty());
    assert!(matches!(dispatch_child(&t.children, &d.arms, &t.class_name, b"w:tbl"), Ok(None)));
}

#[test]
fn attributes_are_dispatched_by_their_exact_name() {
    let ctx = context(docx());
    let ds = gen_deserializers(&ctx.schemas[0], &ctx).unwrap();
    let p = &ctx.schemas[0].types[2];
    let d = ds[2].as_ref().unwrap();
    let none = vec![];
    assert_eq!(dispatch_attribute(&d.model.fields, &p.attributes, &none, b"w:level"), AttributeTarget::Field(1));
    assert_eq!(dispatch_attribute(&d.model.fields, &p.attributes, &none, b"level"), AttributeTarget::Ignored);
    assert_eq!(dispatch_attribute(&d.model.fields, &p.attributes, &none, b"xmlns"), AttributeTarget::Ignored);
    let document = &ctx.schemas[0].types[0];
    let dd = ds[0].as_ref().unwrap();
    assert_eq!(dispatch_attribute(&dd.model.fields, &document.attributes, &none, b"xmlns"), AttributeTarget::Xmlns);
    assert_eq!(dispatch_attribute(&dd.model.fields, &document.attributes, &none, b"xmlns:w"), AttributeTarget::Namespace);
    assert_eq!(dispatch_attribute(&dd.model.fields, &document.attributes, &none, b"mc:Ignorable"), AttributeTarget::McIgnorable);
    assert_eq!(dispatch_attribute(&dd.model.fields, &document.attributes, &none, b"mc:ignorable"), AttributeTarget::Ignored);
}

#[test]
fn facets_are_read_by_their_value() {
    let ctx = context(docx());
    let e = &ctx.schemas[0].enums[0];
    assert!(matches!(enum_from_bytes(e, b"left"), Ok(0)));
    assert!(matches!(enum_from_bytes(e, b"center"), Ok(1)));
    match enum_from_bytes(e, b"Left") {
        Err(SdkError::CommonError(text)) => assert_eq!(text, "Left"),
        other => panic!("{other:?}"),
    }
    assert!(enum_from_bytes(e, b"fancy").is_err());
    assert_eq!(enum_to_text(e, 1), "center");
}

#[test]
fn what_a_type_writes_between_its_tags() {
    let ctx = context(docx());
    let ss = gen_serializer(&ctx.schemas[0], &ctx).unwrap();
    assert_eq!(ss[0].as_ref().unwrap().inner, Inner::Sequence);
    assert_eq!(ss[1].as_ref().unwrap().inner, Inner::Union);
    assert_eq!(ss[2].as_ref().unwrap().inner, Inner::Sequence);
    assert_eq!(ss[3].as_ref().unwrap().inner, Inner::Text);
    assert_eq!(ss[4].as_ref().unwrap().inner, Inner::Nothing);
    assert_eq!(gen_inner_writer(&vec![Field::Xmlns, Field::Children]), Inner::Union);
    assert_eq!(gen_inner_writer(&vec![]), Inner::Nothing);
}

#[test]
fn part_models() {
    let ctx = context(docx());
    let package = gen_open_xml_parts(&ctx.parts[0], &ctx).unwrap();
    assert!(package.is_package);
    assert!(package.has_relationships);
    assert_eq!(package.content, PartContent::Nothing);
    assert_eq!(package.children.len(), 2);
    let main = package.children[0].unwrap();
    assert_eq!((main.child, main.part, main.occurrence), (0, 1, Occurrence::Required));
    let document = gen_open_xml_parts(&ctx.parts[1], &ctx).unwrap();
    assert!(!document.is_package);
    assert_eq!(document.content, PartContent::RootElement(at(0, 0)));
    assert_eq!(document.children[0].unwrap().occurrence, Occurrence::Repeated);
    let image = gen_open_xml_parts(&ctx.parts[2], &ctx).unwrap();
    assert_eq!(image.content, PartContent::Bytes);
    assert!(!image.has_relationships);
    let core = gen_open_xml_parts(&ctx.parts[3], &ctx).unwrap();
    assert_eq!(core.content, PartContent::CoreProperties);
    let custom = OpenXmlPart { name: "CustomXmlPart".to_string(), extension: ".x".to_string(), ..Default::default() };
    assert_eq!(gen_open_xml_parts(&custom, &ctx).unwrap().content, PartContent::Text);
    let data = OpenXmlPart { name: "CustomDataPart".to_string(), ..Default::default() };
    assert_eq!(gen_open_xml_parts(&data, &ctx).unwrap().content, PartContent::Bytes);
    let styles = OpenXmlPart { name: "StyleDefinitionsPart".to_string(), ..Default::default() };
    match gen_open_xml_parts(&styles, &ctx) {
        Err(BuildError::HashMapExpectedSomeError(key)) => assert_eq!(key, "w:CT_Styles/w:styles"),
        other => panic!("{other:?}"),
    }
}
