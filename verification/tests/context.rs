use ooxmlsdk_build::context::GenContext;
use ooxmlsdk_build::features::Features;
use ooxmlsdk_build::models::{
    OpenXmlNamespace, OpenXmlPart, OpenXmlPartChild, OpenXmlPartPaths, OpenXmlSchema,
    OpenXmlSchemaEnum, OpenXmlSchemaEnumFacet, OpenXmlSchemaType, OpenXmlSchemaTypeAttribute,
    OpenXmlSchemaTypeAttributeValidator, OpenXmlSchemaTypeChild, OpenXmlSchemaTypeParticle,
    OpenXmlSchemaTypeParticleOccur, TypedNamespace, TypedSchema,
};
use ooxmlsdk_build::features::check_office_version;
use ooxmlsdk_build::reduce_parts::{gen_part_name_set, PartIndex};
use ooxmlsdk_build::reduce_types::{gen_type_name_set, Reducer};
use ooxmlsdk_build::utils::BuildError;

fn attribute(q_name: &str, value_type: &str, required: bool) -> OpenXmlSchemaTypeAttribute {
    let mut a = OpenXmlSchemaTypeAttribute {
        q_name: q_name.to_string(),
        value_type: value_type.to_string(),
        ..Default::default()
    };
    if required {
        a.validators.push(OpenXmlSchemaTypeAttributeValidator {
            name: "RequiredValidator".to_string(),
            ..Default::default()
        });
    }
    a
}

fn child(name: &str) -> OpenXmlSchemaTypeChild {
    OpenXmlSchemaTypeChild { name: name.to_string(), ..Default::default() }
}

fn item(name: &str, occurs: Option<(u64, u64)>) -> OpenXmlSchemaTypeParticle {
    OpenXmlSchemaTypeParticle {
        name: name.to_string(),
        occurs: match occurs {
            Some((min, max)) => vec![OpenXmlSchemaTypeParticleOccur { min, max, ..Default::default() }],
            None => vec![],
        },
        ..Default::default()
    }
}

fn schema() -> OpenXmlSchema {
    let document = OpenXmlSchemaType {
        name: "w:CT_Document/w:document".to_string(),
        class_name: "Document".to_string(),
        base_class: "OpenXmlPartRootElement".to_string(),
        part: "MainDocumentPart".to_string(),
        children: vec![child("w:CT_Body/w:body")],
        particle: OpenXmlSchemaTypeParticle {
            kind: "Sequence".to_string(),
            items: vec![item("w:CT_Body/w:body", None)],
            ..Default::default()
        },
        ..Default::default()
    };
    let body = OpenXmlSchemaType {
        name: "w:CT_Body/w:body".to_string(),
        class_name: "Body".to_string(),
        base_class: "OpenXmlCompositeElement".to_string(),
        children: vec![child("w:CT_P/w:p"), child("w:CT_Tbl/w:tbl")],
        particle: OpenXmlSchemaTypeParticle {
            kind: "Choice".to_string(),
            items: vec![item("w:CT_P/w:p", None), item("w:CT_Tbl/w:tbl", None)],
            ..Default::default()
        },
        ..Default::default()
    };
    let paragraph = OpenXmlSchemaType {
        name: "w:CT_P/w:p".to_string(),
        class_name: "Paragraph".to_string(),
        base_class: "OpenXmlCompositeElement".to_string(),
        attributes: vec![
            attribute("w:rsidR", "StringValue", false),
            attribute("w:level", "Int32Value", true),
            attribute("w:keep", "BooleanValue", false),
        ],
        children: vec![child("w:CT_Jc/w:jc"), child("w:CT_Text/w:t")],
        particle: OpenXmlSchemaTypeParticle {
            kind: "Sequence".to_string(),
            items: vec![
                item("w:CT_Jc/w:jc", Some((0, 1))),
                item("w:CT_Text/w:t", Some((0, 0))),
            ],
            ..Default::default()
        },
        ..Default::default()
    };
    let text = OpenXmlSchemaType {
        name: "w:CT_Text/w:t".to_string(),
        class_name: "Text".to_string(),
        base_class: "OpenXmlLeafTextElement".to_string(),
        attributes: vec![attribute("xml:space", "StringValue", false)],
        ..Default::default()
    };
    let table = OpenXmlSchemaType {
        name: "w:CT_Tbl/w:tbl".to_string(),
        class_name: "Table".to_string(),
        base_class: "OpenXmlLeafElement".to_string(),
        version: "Office2010".to_string(),
        ..Default::default()
    };
    let justification = OpenXmlSchemaType {
        name: "w:CT_Jc/w:jc".to_string(),
        class_name: "Justification".to_string(),
        base_class: "OpenXmlLeafElement".to_string(),
        attributes: vec![attribute(
            "w:val",
            "EnumValue<DocumentFormat.OpenXml.Wordprocessing.JustificationValues>",
            true,
        )],
        ..Default::default()
    };
    let orphan = OpenXmlSchemaType {
        name: "w:CT_Orphan/w:orphan".to_string(),
        class_name: "Orphan".to_string(),
        base_class: "OpenXmlLeafElement".to_string(),
        ..Default::default()
    };
    OpenXmlSchema {
        target_namespace: "urn:w".to_string(),
        types: vec![document, body, paragraph, text, table, justification, orphan],
        enums: vec![OpenXmlSchemaEnum {
            name: "JustificationValues".to_string(),
            value_type: "w:ST_Jc".to_string(),
            facets: vec![
                OpenXmlSchemaEnumFacet { name: "Left".to_string(), value: "left".to_string(), ..Default::default() },
                OpenXmlSchemaEnumFacet { name: "Center".to_string(), value: "center".to_string(), ..Default::default() },
                OpenXmlSchemaEnumFacet {
                    name: "Fancy".to_string(),
                    value: "fancy".to_string(),
                    version: "Office2013".to_string(),
                },
            ],
            ..Default::default()
        }],
        ..Default::default()
    }
    .with_file_stem("schemas_w")
}

fn part_child(name: &str, required: bool, many: bool) -> OpenXmlPartChild {
    OpenXmlPartChild {
        name: name.to_string(),
        api_name: name.to_string(),
        min_occurs_is_non_zero: required,
        max_occurs_great_than_one: many,
        ..Default::default()
    }
}

fn parts() -> Vec<OpenXmlPart> {
    vec![
        OpenXmlPart {
            name: "WordprocessingDocument".to_string(),
            base: "OpenXmlPackage".to_string(),
            children: vec![part_child("MainDocumentPart", true, false), part_child("CoreFilePropertiesPart", false, false)],
            ..Default::default()
        },
        OpenXmlPart {
            name: "MainDocumentPart".to_string(),
            base: "OpenXmlPart".to_string(),
            root: "document".to_string(),
            relationship_type: "http://rel/officeDocument".to_string(),
            paths: OpenXmlPartPaths { general: "word".to_string(), ..Default::default() },
            children: vec![part_child("ImagePart", false, true)],
            ..Default::default()
        },
        OpenXmlPart {
            name: "ImagePart".to_string(),
            base: "OpenXmlPart".to_string(),
            relationship_type: "http://rel/image".to_string(),
            extension: ".bin".to_string(),
            paths: OpenXmlPartPaths { general: "media".to_string(), ..Default::default() },
            ..Default::default()
        },
        OpenXmlPart {
            name: "CoreFilePropertiesPart".to_string(),
            base: "OpenXmlPart".to_string(),
            relationship_type: "http://rel/core".to_string(),
            paths: OpenXmlPartPaths { general: "docProps".to_string(), ..Default::default() },
            ..Default::default()
        },
        OpenXmlPart {
            name: "SpreadsheetDocument".to_string(),
            base: "OpenXmlPackage".to_string(),
            children: vec![part_child("WorkbookPart", false, false)],
            ..Default::default()
        },
        OpenXmlPart {
            name: "WorkbookPart".to_string(),
            base: "OpenXmlPart".to_string(),
            version: "Office2016".to_string(),
            ..Default::default()
        },
    ]
}

fn namespaces() -> Vec<OpenXmlNamespace> {
    vec![OpenXmlNamespace { prefix: "w".to_string(), uri: "urn:w".to_string(), version: "".to_string() }]
}

fn typed_namespaces() -> Vec<TypedNamespace> {
    vec![TypedNamespace {
        prefix: "w".to_string(),
        namespace: "DocumentFormat.OpenXml.Wordprocessing".to_string(),
    }]
}

fn typed_schemas() -> Vec<Vec<TypedSchema>> {
    vec![vec![
        TypedSchema {
            name: "w:CT_Document/w:document".to_string(),
            class_name: "Document".to_string(),
            part_class_name: "MainDocumentPart".to_string(),
        },
        TypedSchema {
            name: "w:CT_Body/w:body".to_string(),
            class_name: "Body".to_string(),
            part_class_name: "".to_string(),
        },
    ]]
}

fn docx() -> Features {
    let mut f = Features::baseline();
    f.docx = true;
    f.parts = true;
    f.validators = true;
    f
}

fn context(features: Features) -> GenContext {
    GenContext::new(parts(), vec![schema()], namespaces(), typed_namespaces(), typed_schemas(), features)
        .unwrap()
}

fn names(ctx: &GenContext) -> Vec<String> {
    ctx.schemas.iter().flat_map(|s| s.types.iter().map(|t| t.name.clone())).collect()
}

#[test]
fn the_baseline_and_the_empty_tag_are_always_enabled() {
    let f = Features::baseline();
    assert!(check_office_version("", &f));
    assert!(check_office_version("Office2007", &f));
    assert!(!check_office_version("Office2010", &f));
    assert!(!check_office_version("Microsoft365", &f));
    assert!(!check_office_version("Office95", &f));
    assert!(!check_office_version("office2007", &f));
}

#[test]
fn an_upgrade_tag_is_enabled_where_it_is_selected() {
    let mut f = Features::baseline();
    f.office2013 = true;
    assert!(check_office_version("Office2013", &f));
    assert!(!check_office_version("Office2010", &f));
    assert!(!check_office_version("Office2016", &f));
    let all = Features::full();
    for v in ["Office2010", "Office2013", "Office2016", "Office2019", "Office2021", "Microsoft365"] {
        assert!(check_office_version(v, &all), "{v}");
    }
    assert!(!check_office_version("Office2022", &all));
}

#[test]
fn only_reachable_parts_are_kept() {
    let ctx = context(docx());
    let kept: Vec<&str> = ctx.parts.iter().map(|p| p.name.as_str()).collect();
    assert_eq!(
        kept,
        vec!["WordprocessingDocument", "MainDocumentPart", "ImagePart", "CoreFilePropertiesPart"]
    );
}

#[test]
fn a_part_of_a_disabled_version_is_dropped_with_the_references_to_it() {
    let mut f = docx();
    f.xlsx = true;
    let ctx = context(f);
    let sheet = ctx.parts.iter().find(|p| p.name == "SpreadsheetDocument").unwrap();
    assert!(sheet.children.is_empty());
    assert!(ctx.parts.iter().all(|p| p.name != "WorkbookPart"));
    f.office2016 = true;
    let ctx = context(f);
    let sheet = ctx.parts.iter().find(|p| p.name == "SpreadsheetDocument").unwrap();
    assert_eq!(sheet.children.len(), 1);
    assert!(ctx.parts.iter().any(|p| p.name == "WorkbookPart"));
}

#[test]
fn no_kind_of_document_keeps_nothing() {
    let ctx = context(Features::baseline());
    assert!(ctx.parts.is_empty());
    assert!(names(&ctx).is_empty());
    assert_eq!(ctx.schemas.len(), 1);
    assert_eq!(ctx.schemas[0].enums.len(), 1);
}

#[test]
fn only_reachable_types_of_enabled_versions_are_kept() {
    let ctx = context(docx());
    assert_eq!(
        names(&ctx),
        vec!["w:CT_Document/w:document", "w:CT_Body/w:body", "w:CT_P/w:p", "w:CT_Text/w:t", "w:CT_Jc/w:jc"]
    );
    let mut f = docx();
    f.office2010 = true;
    let ctx = context(f);
    assert!(names(&ctx).contains(&"w:CT_Tbl/w:tbl".to_string()));
    assert!(!names(&ctx).contains(&"w:CT_Orphan/w:orphan".to_string()));
}

#[test]
fn a_child_of_a_disabled_version_leaves_its_parent() {
    let ctx = context(docx());
    let body = &ctx.schemas[0].types[1];
    let children: Vec<&str> = body.children.iter().map(|c| c.name.as_str()).collect();
    assert_eq!(children, vec!["w:CT_P/w:p"]);
    let items: Vec<&str> = body.particle.items.iter().map(|c| c.name.as_str()).collect();
    assert_eq!(items, vec!["w:CT_P/w:p"]);
    assert_eq!(body.particle.kind, "Choice");
}

#[test]
fn facets_of_a_disabled_version_are_removed() {
    let ctx = context(docx());
    let facets: Vec<&str> = ctx.schemas[0].enums[0].facets.iter().map(|f| f.value.as_str()).collect();
    assert_eq!(facets, vec!["left", "center"]);
    let mut f = docx();
    f.office2013 = true;
    assert_eq!(context(f).schemas[0].enums[0].facets.len(), 3);
}

#[test]
fn a_schema_of_a_disabled_namespace_is_dropped() {
    let mut ns = namespaces();
    ns[0].version = "Office2019".to_string();
    let ctx = GenContext::new(parts(), vec![schema()], ns, typed_namespaces(), typed_schemas(), docx())
        .unwrap();
    assert!(ctx.schemas.is_empty());
    let kept: Vec<&str> = ctx.parts.iter().map(|p| p.name.as_str()).collect();
    assert_eq!(kept, vec!["WordprocessingDocument", "CoreFilePropertiesPart"]);
}

#[test]
fn a_name_that_is_not_defined_is_an_error() {
    let mut s = schema();
    s.types[1].children.push(child("w:CT_Missing/w:missing"));
    match GenContext::new(parts(), vec![s], namespaces(), typed_namespaces(), typed_schemas(), docx()) {
        Err(BuildError::HashMapExpectedSomeError(key)) => assert_eq!(key, "w:CT_Missing/w:missing"),
        other => panic!("{other:?}"),
    }
    match GenContext::new(parts(), vec![schema()], vec![], typed_namespaces(), typed_schemas(), docx()) {
        Err(BuildError::HashMapExpectedSomeError(key)) => assert_eq!(key, "urn:w"),
        other => panic!("{other:?}"),
    }
    let mut p = parts();
    p[1].children.push(part_child("GhostPart", false, false));
    match GenContext::new(p, vec![schema()], namespaces(), typed_namespaces(), typed_schemas(), docx()) {
        Err(BuildError::HashMapExpectedSomeError(key)) => assert_eq!(key, "GhostPart"),
        other => panic!("{other:?}"),
    }
    let mut f = docx();
    f.pptx = true;
    match GenContext::new(parts(), vec![schema()], namespaces(), typed_namespaces(), typed_schemas(), f) {
        Err(BuildError::HashMapExpectedSomeError(key)) => assert_eq!(key, "PresentationDocument"),
        other => panic!("{other:?}"),
    }
}

#[test]
fn a_reference_to_a_data_part_needs_no_part() {
    let mut p = parts();
    let mut data = part_child("Anything", false, false);
    data.is_data_part_reference = true;
    p[1].children.push(data);
    let ctx =
        GenContext::new(p, vec![schema()], namespaces(), typed_namespaces(), typed_schemas(), docx())
            .unwrap();
    assert_eq!(ctx.parts[1].children.len(), 2);
}

#[test]
fn names_resolve_in_the_context() {
    let ctx = context(docx());
    let at = ctx.find_type("w:CT_P/w:p").unwrap();
    assert_eq!((at.schema, at.index), (0, 2));
    assert!(ctx.find_type("w:CT_Tbl/w:tbl").is_none());
    match ctx.try_get_type("nothing") {
        Err(BuildError::HashMapExpectedSomeError(key)) => assert_eq!(key, "nothing"),
        other => panic!("{other:?}"),
    }
    assert_eq!(ctx.find_namespace_of_uri("urn:w"), Some(0));
    assert_eq!(ctx.find_namespace_of_prefix("w"), Some(0));
    assert_eq!(ctx.find_namespace_of_prefix("x"), None);
    assert_eq!(ctx.find_schema_of_prefix("w"), Some(0));
    let e = ctx.find_enum_of_kind("w:ST_Jc").unwrap();
    assert_eq!((e.schema, e.index), (0, 0));
    assert_eq!(
        ctx.find_root_type_of_part("MainDocumentPart").as_deref(),
        Some("w:CT_Document/w:document")
    );
    assert_eq!(
        ctx.find_root_type_of_part("StyleDefinitionsPart").as_deref(),
        Some("w:CT_Styles/w:styles")
    );
    assert_eq!(ctx.find_root_type_of_part("ImagePart"), None);
    let j = ctx.resolve_enum("DocumentFormat.OpenXml.Wordprocessing", "JustificationValues").unwrap();
    assert_eq!((j.schema, j.index), (0, 0));
    assert!(ctx.resolve_enum("DocumentFormat.OpenXml.Drawing", "JustificationValues").is_none());
    assert!(ctx.resolve_enum("DocumentFormat.OpenXml.Wordprocessing", "Other").is_none());
}

#[test]
fn the_module_name_is_the_file_stem_in_snake_case() {
    assert_eq!(schema().module_name, "schemas_w");
    let p = OpenXmlPart::default().with_file_stem("MainDocumentPart");
    assert_eq!(p.module_name, "main_document_part");
}

#[test]
fn the_reached_part_names_are_listed_in_order() {
    let all = parts();
    let schemas = vec![schema()];
    let index = PartIndex::build(&all, &schemas, &namespaces(), &typed_schemas(), &docx());
    assert_eq!(
        gen_part_name_set(&index, &all, &schemas).unwrap(),
        vec!["WordprocessingDocument", "MainDocumentPart", "ImagePart", "CoreFilePropertiesPart"]
    );
    let none = PartIndex::build(&all, &schemas, &namespaces(), &typed_schemas(), &Features::baseline());
    assert!(gen_part_name_set(&none, &all, &schemas).unwrap().is_empty());
}

#[test]
fn the_reached_type_names_are_listed_in_order() {
    let all = parts();
    let schemas = vec![schema()];
    let index = PartIndex::build(&all, &schemas, &namespaces(), &typed_schemas(), &docx());
    let reducer = Reducer::build(index, &all, &schemas);
    assert_eq!(
        gen_type_name_set(&reducer, &all, &schemas).unwrap(),
        vec!["w:CT_Document/w:document", "w:CT_Body/w:body", "w:CT_P/w:p", "w:CT_Text/w:t", "w:CT_Jc/w:jc"]
    );
}

#[test]
fn a_name_set_of_a_description_with_an_undefined_name_is_an_error() {
    let mut all = parts();
    all[1].children.push(part_child("GhostPart", false, false));
    let schemas = vec![schema()];
    let index = PartIndex::build(&all, &schemas, &namespaces(), &typed_schemas(), &docx());
    match gen_part_name_set(&index, &all, &schemas) {
        Err(BuildError::HashMapExpectedSomeError(key)) => assert_eq!(key, "GhostPart"),
        other => panic!("{other:?}"),
    }
    let all = parts();
    let mut broken = schema();
    broken.types[1].children.push(child("w:CT_Ghost/w:ghost"));
    let schemas = vec![broken];
    let index = PartIndex::build(&all, &schemas, &namespaces(), &typed_schemas(), &docx());
    let reducer = Reducer::build(index, &all, &schemas);
    match gen_type_name_set(&reducer, &all, &schemas) {
        Err(BuildError::HashMapExpectedSomeError(key)) => assert_eq!(key, "w:CT_Ghost/w:ghost"),
        other => panic!("{other:?}"),
    }
}
