use ooxmlsdk_build::context::GenContext;
use ooxmlsdk_build::features::Features;
use ooxmlsdk_build::models::{
    OpenXmlNamespace, OpenXmlPart, OpenXmlPartChild, OpenXmlPartPaths, OpenXmlSchema,
    OpenXmlSchemaEnum, OpenXmlSchemaEnumFacet, OpenXmlSchemaType, OpenXmlSchemaTypeAttribute,
    OpenXmlSchemaTypeAttributeValidator, OpenXmlSchemaTypeChild, OpenXmlSchemaTypeParticle,
    OpenXmlSchemaTypeParticleOccur, TypedNamespace, TypedSchema,
};
use ooxmlsdk_build::inspect::Inspector;
use ooxmlsdk_build::common::SdkError;
use ooxmlsdk_build::deserializer::{gen_deserializers, TypeDeserializer};
use ooxmlsdk_build::document::{Element, FieldValue, Scalar};
use ooxmlsdk_build::parse::Codec;
use ooxmlsdk_build::symbols::TypeRef;
use ooxmlsdk_build::validator::gen_validators;

fn attribute(q_name: &str, value_type: &str, required: bool) -> OpenXmlSchemaTypeAttribute {
    let mut a = OpenXmlSchemaTypeAttribute {
        q_name: q_name.to_string(),
        value_type: value_type.to_string(),
        ..Default::default()
    };
    if required {
        a.validators.push(OpenXmlSchemaTypeAttributeValidator {
            name: "RequiredValidator".to_string(),
            ..Default::default()
        });
    }
    a
}

fn child(name: &str) -> OpenXmlSchemaTypeChild {
    OpenXmlSchemaTypeChild { name: name.to_string(), ..Default::default() }
}

fn item(name: &str, occurs: Option<(u64, u64)>) -> OpenXmlSchemaTypeParticle {
    OpenXmlSchemaTypeParticle {
        name: name.to_string(),
        occurs: match occurs {
            Some((min, max)) => vec![OpenXmlSchemaTypeParticleOccur { min, max, ..Default::default() }],
            None => vec![],
        },
        ..Default::default()
    }
}

fn schema() -> OpenXmlSchema {
    let document = OpenXmlSchemaType {
        name: "w:CT_Document/w:document".to_string(),
        class_name: "Document".to_string(),
        base_class: "OpenXmlPartRootElement".to_string(),
        part: "MainDocumentPart".to_string(),
        children: vec![child("w:CT_Body/w:body")],
        particle: OpenXmlSchemaTypeParticle {
            kind: "Sequence".to_string(),
            items: vec![item("w:CT_Body/w:body", None)],
            ..Default::default()
        },
        ..Default::default()
    };
    let body = OpenXmlSchemaType {
        name: "w:CT_Body/w:body".to_string(),
        class_name: "Body".to_string(),
        base_class: "OpenXmlCompositeElement".to_string(),
        children: vec![child("w:CT_P/w:p"), child("w:CT_Tbl/w:tbl")],
        particle: OpenXmlSchemaTypeParticle {
            kind: "Choice".to_string(),
            items: vec![item("w:CT_P/w:p", None), item("w:CT_Tbl/w:tbl", None)],
            ..Default::default()
        },
        ..Default::default()
    };
    let paragraph = OpenXmlSchemaType {
        name: "w:CT_P/w:p".to_string(),
        class_name: "Paragraph".to_string(),
        base_class: "OpenXmlCompositeElement".to_string(),
        attributes: vec![
            attribute("w:rsidR", "StringValue", false),
            attribute("w:level", "Int32Value", true),
            attribute("w:keep", "BooleanValue", false),
        ],
        children: vec![child("w:CT_Jc/w:jc"), child("w:CT_Text/w:t")],
        particle: OpenXmlSchemaTypeParticle {
            kind: "Sequence".to_string(),
            items: vec![
                item("w:CT_Jc/w:jc", Some((0, 1))),
                item("w:CT_Text/w:t", Some((0, 0))),
            ],
            ..Default::default()
        },
        ..Default::default()
    };
    let text = OpenXmlSchemaType {
        name: "w:CT_Text/w:t".to_string(),
        class_name: "Text".to_string(),
        base_class: "OpenXmlLeafTextElement".to_string(),
        attributes: vec![attribute("xml:space", "StringValue", false)],
        ..Default::default()
    };
    let table = OpenXmlSchemaType {
        name: "w:CT_Tbl/w:tbl".to_string(),
        class_name: "Table".to_string(),
        base_class: "OpenXmlLeafElement".to_string(),
        version: "Office2010".to_string(),
        ..Default::default()
    };
    let justification = OpenXmlSchemaType {
        name: "w:CT_Jc/w:jc".to_string(),
        class_name: "Justification".to_string(),
        base_class: "OpenXmlLeafElement".to_string(),
        attributes: vec![attribute(
            "w:val",
            "EnumValue<DocumentFormat.OpenXml.Wordprocessing.JustificationValues>",
            true,
        )],
        ..Default::default()
    };
    let orphan = OpenXmlSchemaType {
        name: "w:CT_Orphan/w:orphan".to_string(),
        class_name: "Orphan".to_string(),
        base_class: "OpenXmlLeafElement".to_string(),
        ..Default::default()
    };
    OpenXmlSchema {
        target_namespace: "urn:w".to_string(),
        types: vec![document, body, paragraph, text, table, justification, orphan],
        enums: vec![OpenXmlSchemaEnum {
            name: "JustificationValues".to_string(),
            value_type: "w:ST_Jc".to_string(),
            facets: vec![
                OpenXmlSchemaEnumFacet { name: "Left".to_string(), value: "left".to_string(), ..Default::default() },
                OpenXmlSchemaEnumFacet { name: "Center".to_string(), value: "center".to_string(), ..Default::default() },
                OpenXmlSchemaEnumFacet {
                    name: "Fancy".to_string(),
                    value: "fancy".to_string(),
                    version: "Office2013".to_string(),
                },
            ],
            ..Default::default()
        }],
        ..Default::default()
    }
    .with_file_stem("schemas_w")
}

fn part_child(name: &str, required: bool, many: bool) -> OpenXmlPartChild {
    OpenXmlPartChild {
        name: name.to_string(),
        api_name: name.to_string(),
        min_occurs_is_non_zero: required,
        max_occurs_great_than_one: many,
        ..Default::default()
    }
}

fn parts() -> Vec<OpenXmlPart> {
    vec![
        OpenXmlPart {
            name: "WordprocessingDocument".to_string(),
            base: "OpenXmlPackage".to_string(),
            children: vec![part_child("MainDocumentPart", true, false), part_child("CoreFilePropertiesPart", false, false)],
            ..Default::default()
        },
        OpenXmlPart {
            name: "MainDocumentPart".to_string(),
            base: "OpenXmlPart".to_string(),
            root: "document".to_string(),
            relationship_type: "http://rel/officeDocument".to_string(),
            paths: OpenXmlPartPaths { general: "word".to_string(), ..Default::default() },
            children: vec![part_child("ImagePart", false, true)],
            ..Default::default()
        },
        OpenXmlPart {
            name: "ImagePart".to_string(),
            base: "OpenXmlPart".to_string(),
            relationship_type: "http://rel/image".to_string(),
            extension: ".bin".to_string(),
            paths: OpenXmlPartPaths { general: "media".to_string(), ..Default::default() },
            ..Default::default()
        },
        OpenXmlPart {
            name: "CoreFilePropertiesPart".to_string(),
            base: "OpenXmlPart".to_string(),
            relationship_type: "http://rel/core".to_string(),
            paths: OpenXmlPartPaths { general: "docProps".to_string(), ..Default::default() },
            ..Default::default()
        },
        OpenXmlPart {
            name: "SpreadsheetDocument".to_string(),
            base: "OpenXmlPackage".to_string(),
            children: vec![part_child("WorkbookPart", false, false)],
            ..Default::default()
        },
        OpenXmlPart {
            name: "WorkbookPart".to_string(),
            base: "OpenXmlPart".to_string(),
            version: "Office2016".to_string(),
            ..Default::default()
        },
    ]
}

fn namespaces() -> Vec<OpenXmlNamespace> {
    vec![OpenXmlNamespace { prefix: "w".to_string(), uri: "urn:w".to_string(), version: "".to_string() }]
}

fn typed_namespaces() -> Vec<TypedNamespace> {
    vec![TypedNamespace {
        prefix: "w".to_string(),
        namespace: "DocumentFormat.OpenXml.Wordprocessing".to_string(),
    }]
}

fn typed_schemas() -> Vec<Vec<TypedSchema>> {
    vec![vec![
        TypedSchema {
            name: "w:CT_Document/w:document".to_string(),
            class_name: "Document".to_string(),
            part_class_name: "MainDocumentPart".to_string(),
        },
        TypedSchema {
            name: "w:CT_Body/w:body".to_string(),
            class_name: "Body".to_string(),
            part_class_name: "".to_string(),
        },
    ]]
}

fn docx() -> Features {
    let mut f = Features::baseline();
    f.docx = true;
    f.parts = true;
    f.validators = true;
    f
}

fn context(features: Features) -> GenContext {
    GenContext::new(parts(), vec![schema()], namespaces(), typed_namespaces(), typed_schemas(), features)
        .unwrap()
}

fn deserializers(ctx: &GenContext) -> Vec<Vec<Option<TypeDeserializer>>> {
    ctx.schemas.iter().map(|s| gen_deserializers(s, ctx).unwrap()).collect()
}

fn at(index: usize) -> TypeRef {
    TypeRef { schema: 0, index }
}

const DOCUMENT: &str = "<w:document xmlns=\"urn:d\" xmlns:w=\"urn:w\" mc:Ignorable=\"w14\">\
    <w:body>\
    <w:p w:rsidR=\"a&amp;b\" w:level=\"-3\" w:keep=\"1\" w:unknown=\"x\"><w:jc w:val=\"center\"/><w:t xml:space=\"preserve\">Hello</w:t><w:t>World</w:t></w:p>\
    <p w:level=\"7\"/>\
    </w:body>\
    </w:document>";

fn child_elements(v: &FieldValue) -> &Vec<Element> {
    match v {
        FieldValue::Child(es) => es,
        other => panic!("{other:?}"),
    }
}

#[test]
fn a_document_is_read() {
    let ctx = context(docx());
    let ds = deserializers(&ctx);
    let codec = Codec { context: &ctx, deserializers: &ds };
    let document = codec.from_str(at(0), DOCUMENT).unwrap();
    assert_eq!(document.at, at(0));
    assert!(matches!(&document.values[0], FieldValue::Xmlns(Some(x)) if x == "urn:d"));
    assert!(matches!(&document.values[1], FieldValue::XmlnsMap(m) if *m == vec![("w".to_string(), "urn:w".to_string())]));
    assert!(matches!(&document.values[2], FieldValue::McIgnorable(Some(x)) if x == "w14"));
    let body = &child_elements(&document.values[3])[0];
    assert_eq!(body.at, at(1));
    let paragraphs = match &body.values[0] {
        FieldValue::Children(cs) => cs,
        other => panic!("{other:?}"),
    };
    assert_eq!(paragraphs.len(), 2);
    assert_eq!(paragraphs[0].variant, 0);
    let p = &paragraphs[0].element;
    assert!(matches!(&p.values[0], FieldValue::Attribute(Some(Scalar::Text(t))) if t == "a&b"));
    assert!(matches!(&p.values[1], FieldValue::Attribute(Some(Scalar::Integer(-3)))));
    assert!(matches!(&p.values[2], FieldValue::Attribute(Some(Scalar::Boolean(true)))));
    let jc = &child_elements(&p.values[3])[0];
    assert!(matches!(&jc.values[0], FieldValue::Attribute(Some(Scalar::Facet(1)))));
    let texts = child_elements(&p.values[4]);
    assert_eq!(texts.len(), 2);
    assert!(matches!(&texts[0].values[0], FieldValue::Attribute(Some(Scalar::Text(t))) if t == "preserve"));
    assert!(matches!(&texts[0].values[1], FieldValue::XmlContent(Some(Scalar::Text(t))) if t == "Hello"));
    assert!(matches!(&texts[1].values[0], FieldValue::Attribute(None)));
    let second = &paragraphs[1].element;
    assert!(matches!(&second.values[1], FieldValue::Attribute(Some(Scalar::Integer(7)))));
    assert!(child_elements(&second.values[4]).is_empty());
}

#[test]
fn what_is_written_is_read_back_as_it_was() {
    let ctx = context(docx());
    let ds = deserializers(&ctx);
    let codec = Codec { context: &ctx, deserializers: &ds };
    let document = codec.from_str(at(0), DOCUMENT).unwrap();
    let text = codec.to_xml_string(&document, true, true);
    assert_eq!(
        text,
        "<?xml version=\"1.0\" encoding=\"UTF-8\" standalone=\"yes\"?>\r\n\
         <w:document xmlns=\"urn:d\" xmlns:w=\"urn:w\" mc:Ignorable=\"w14\">\
         <w:body>\
         <w:p w:rsidR=\"a&amp;b\" w:level=\"-3\" w:keep=\"true\"><w:jc w:val=\"center\"/><w:t xml:space=\"preserve\">Hello</w:t><w:t>World</w:t></w:p>\
         <w:p w:level=\"7\"/>\
         </w:body>\
         </w:document>"
    );
    let again = codec.from_str(at(0), &text).unwrap();
    assert_eq!(format!("{again:?}"), format!("{document:?}"));
    assert_eq!(codec.to_xml_string(&again, true, true), text);
    let bare = codec.to_xml_string(&document, false, false);
    assert!(bare.starts_with("<document xmlns:w=\"urn:w\" mc:Ignorable=\"w14\"><body><p "));
    let from_bare = codec.from_str(at(0), &bare).unwrap();
    assert_eq!(codec.to_xml_string(&from_bare, false, false), bare);
}

#[test]
fn a_type_is_read_under_its_tag_with_or_without_the_prefix() {
    let ctx = context(docx());
    let ds = deserializers(&ctx);
    let codec = Codec { context: &ctx, deserializers: &ds };
    assert!(codec.from_str(at(1), "<w:body/>").is_ok());
    assert!(codec.from_str(at(1), "<body/>").is_ok());
    assert!(codec.from_str(at(1), "<w:body></body>").is_ok());
    match codec.from_str(at(1), "<x:body/>") {
        Err(SdkError::MismatchError { expected, found }) => {
            assert_eq!(expected, "w:body OR body");
            assert_eq!(found, "x:body");
        },
        other => panic!("{other:?}"),
    }
    assert!(matches!(codec.from_str(at(1), "<w:Body/>"), Err(SdkError::MismatchError { .. })));
}

#[test]
fn a_required_field_that_is_missing_is_named() {
    let ctx = context(docx());
    let ds = deserializers(&ctx);
    let codec = Codec { context: &ctx, deserializers: &ds };
    match codec.from_str(at(2), "<w:p/>") {
        Err(SdkError::CommonError(name)) => assert_eq!(name, "w:level"),
        other => panic!("{other:?}"),
    }
    match codec.from_str(at(0), "<w:document/>") {
        Err(SdkError::CommonError(name)) => assert_eq!(name, "w:body"),
        other => panic!("{other:?}"),
    }
    match codec.from_str(at(4), "<w:jc/>") {
        Err(SdkError::CommonError(name)) => assert_eq!(name, "w:val"),
        other => panic!("{other:?}"),
    }
}

#[test]
fn malformed_documents_are_refused() {
    let ctx = context(docx());
    let ds = deserializers(&ctx);
    let codec = Codec { context: &ctx, deserializers: &ds };
    assert!(matches!(codec.from_str(at(1), ""), Err(SdkError::UnknownError)));
    assert!(matches!(codec.from_str(at(1), "<w:body>"), Err(SdkError::UnknownError)));
    match codec.from_str(at(1), "<w:body><w:tbl/></w:body>") {
        Err(SdkError::CommonError(name)) => assert_eq!(name, "Body"),
        other => panic!("{other:?}"),
    }
    match codec.from_str(at(2), "<w:p w:level=\"many\"/>") {
        Err(SdkError::ParseIntError(text)) => assert_eq!(text, "many"),
        other => panic!("{other:?}"),
    }
    assert!(matches!(
        codec.from_str(at(2), "<w:p w:level=\"2147483648\"/>"),
        Err(SdkError::ParseIntError(_))
    ));
    match codec.from_str(at(2), "<w:p w:level=\"1\" w:keep=\"perhaps\"/>") {
        Err(SdkError::CommonError(text)) => assert_eq!(text, "perhaps"),
        other => panic!("{other:?}"),
    }
    match codec.from_str(at(4), "<w:jc w:val=\"fancy\"/>") {
        Err(SdkError::CommonError(text)) => assert_eq!(text, "fancy"),
        other => panic!("{other:?}"),
    }
    assert!(matches!(codec.from_str(TypeRef { schema: 3, index: 0 }, "<a/>"), Err(SdkError::UnknownError)));
}

#[test]
fn only_the_first_text_is_the_content_of_a_leaf() {
    let ctx = context(docx());
    let ds = deserializers(&ctx);
    let codec = Codec { context: &ctx, deserializers: &ds };
    let t = codec.from_str(at(3), "<w:t>one<!-- c -->two</w:t>").unwrap();
    assert!(matches!(&t.values[1], FieldValue::XmlContent(Some(Scalar::Text(x))) if x == "one"));
    let empty = codec.from_str(at(3), "<w:t></w:t>").unwrap();
    assert!(matches!(&empty.values[1], FieldValue::XmlContent(None)));
    assert_eq!(codec.to_xml_string(&empty, false, true), "<w:t/>");
    assert_eq!(codec.to_xml_string(&t, false, true), "<w:t>one</w:t>");
}

#[test]
fn an_optional_child_keeps_the_last_and_a_repeated_child_keeps_all() {
    let ctx = context(docx());
    let ds = deserializers(&ctx);
    let codec = Codec { context: &ctx, deserializers: &ds };
    let p = codec
        .from_str(at(2), "<w:p w:level=\"1\"><w:jc w:val=\"left\"/><w:t>a</w:t><w:jc w:val=\"center\"/><w:t>b</w:t></w:p>")
        .unwrap();
    let jc = child_elements(&p.values[3]);
    assert_eq!(jc.len(), 1);
    assert!(matches!(&jc[0].values[0], FieldValue::Attribute(Some(Scalar::Facet(1)))));
    assert_eq!(child_elements(&p.values[4]).len(), 2);
    assert_eq!(
        codec.to_xml_string(&p, false, true),
        "<w:p w:level=\"1\"><w:jc w:val=\"center\"/><w:t>a</w:t><w:t>b</w:t></w:p>"
    );
}

#[test]
fn elements_are_validated_with_their_children() {
    let mut s = schema();
    s.types[2].attributes[1].validators.push(OpenXmlSchemaTypeAttributeValidator {
        name: "NumberValidator".to_string(),
        arguments: vec![
            ooxmlsdk_build::models::OpenXmlSchemaTypeAttributeValidatorArgument {
                name: "MinInclusive".to_string(),
                value: "0".to_string(),
                ..Default::default()
            },
        ],
        ..Default::default()
    });
    let ctx = GenContext::new(parts(), vec![s], namespaces(), typed_namespaces(), typed_schemas(), docx())
        .unwrap();
    let ds = deserializers(&ctx);
    let vs: Vec<_> = ctx.schemas.iter().map(|s| gen_validators(s, &ctx).unwrap()).collect();
    let inspector = Inspector { codec: Codec { context: &ctx, deserializers: &ds }, validators: &vs };
    let good = inspector.codec.from_str(at(1), "<w:body><w:p w:level=\"0\"/><w:p w:level=\"3\"/></w:body>").unwrap();
    assert!(inspector.validate(&good));
    let bad = inspector.codec.from_str(at(1), "<w:body><w:p w:level=\"0\"/><w:p w:level=\"-3\"/></w:body>").unwrap();
    assert!(!inspector.validate(&bad));
    let mut unset = inspector.codec.from_str(at(2), "<w:p w:level=\"1\"/>").unwrap();
    assert!(inspector.validate(&unset));
    unset.values[1] = FieldValue::Attribute(None);
    assert!(!inspector.validate(&unset));
    let stray = Element { at: TypeRef { schema: 9, index: 9 }, values: vec![] };
    assert!(!inspector.validate(&stray));
}

#[test]
fn text_with_special_characters_is_read_back_as_it_was() {
    let ctx = context(docx());
    let ds = deserializers(&ctx);
    let codec = Codec { context: &ctx, deserializers: &ds };
    let t = codec.from_str(at(3), "<w:t>a &lt; b &#38; c</w:t>").unwrap();
    assert!(matches!(&t.values[1], FieldValue::XmlContent(Some(Scalar::Text(x))) if x == "a < b & c"));
    let text = codec.to_xml_string(&t, false, true);
    assert_eq!(text, "<w:t>a &lt; b &amp; c</w:t>");
    let again = codec.from_str(at(3), &text).unwrap();
    assert!(matches!(&again.values[1], FieldValue::XmlContent(Some(Scalar::Text(x))) if x == "a < b & c"));
    let leading = codec.from_str(at(3), "<w:t>&quot;q&quot;</w:t>").unwrap();
    assert!(matches!(&leading.values[1], FieldValue::XmlContent(Some(Scalar::Text(x))) if x == "\"q\""));
}
