use ooxmlsdk_build::context::GenContext;
use ooxmlsdk_build::features::Features;
use ooxmlsdk_build::models::{
    OpenXmlNamespace, OpenXmlPart, OpenXmlPartChild, OpenXmlPartPaths, OpenXmlSchema,
    OpenXmlSchemaEnum, OpenXmlSchemaEnumFacet, OpenXmlSchemaType, OpenXmlSchemaTypeAttribute,
    OpenXmlSchemaTypeAttributeValidator, OpenXmlSchemaTypeChild, OpenXmlSchemaTypeParticle,
    OpenXmlSchemaTypeParticleOccur, TypedNamespace, TypedSchema,
};
use ooxmlsdk_build::common::{Deserializeable, SdkError, Serializeable};
use ooxmlsdk_build::generate::{generate, generate_with, Generated};
use ooxmlsdk_build::opc_relationships::{Relationship, Relationships};
use ooxmlsdk_build::package::{
    add_directory, add_entry, add_file, find_rels_path, find_target_path, read_package_file,
    ArchiveEntry, Package, PackageFile, PartData, PartNode, Workshop,
};
use ooxmlsdk_build::parse::Codec;
use ooxmlsdk_build::utils::BuildError;

fn attribute(q_name: &str, value_type: &str, required: bool) -> OpenXmlSchemaTypeAttribute {
    let mut a = OpenXmlSchemaTypeAttribute {
        q_name: q_name.to_string(),
        value_type: value_type.to_string(),
        ..Default::default()
    };
    if required {
        a.validators.push(OpenXmlSchemaTypeAttributeValidator {
            name: "RequiredValidator".to_string(),
            ..Default::default()
        });
    }
    a
}

fn child(name: &str) -> OpenXmlSchemaTypeChild {
    OpenXmlSchemaTypeChild { name: name.to_string(), ..Default::default() }
}

fn item(name: &str, occurs: Option<(u64, u64)>) -> OpenXmlSchemaTypeParticle {
    OpenXmlSchemaTypeParticle {
        name: name.to_string(),
        occurs: match occurs {
            Some((min, max)) => vec![OpenXmlSchemaTypeParticleOccur { min, max, ..Default::default() }],
            None => vec![],
        },
        ..Default::default()
    }
}

fn schema() -> OpenXmlSchema {
    let document = OpenXmlSchemaType {
        name: "w:CT_Document/w:document".to_string(),
        class_name: "Document".to_string(),
        base_class: "OpenXmlPartRootElement".to_string(),
        part: "MainDocumentPart".to_string(),
        children: vec![child("w:CT_Body/w:body")],
        particle: OpenXmlSchemaTypeParticle {
            kind: "Sequence".to_string(),
            items: vec![item("w:CT_Body/w:body", None)],
            ..Default::default()
        },
        ..Default::default()
    };
    let body = OpenXmlSchemaType {
        name: "w:CT_Body/w:body".to_string(),
        class_name: "Body".to_string(),
        base_class: "OpenXmlCompositeElement".to_string(),
        children: vec![child("w:CT_P/w:p"), child("w:CT_Tbl/w:tbl")],
        particle: OpenXmlSchemaTypeParticle {
            kind: "Choice".to_string(),
            items: vec![item("w:CT_P/w:p", None), item("w:CT_Tbl/w:tbl", None)],
            ..Default::default()
        },
        ..Default::default()
    };
    let paragraph = OpenXmlSchemaType {
        name: "w:CT_P/w:p".to_string(),
        class_name: "Paragraph".to_string(),
        base_class: "OpenXmlCompositeElement".to_string(),
        attributes: vec![
            attribute("w:rsidR", "StringValue", false),
            attribute("w:level", "Int32Value", true),
            attribute("w:keep", "BooleanValue", false),
        ],
        children: vec![child("w:CT_Jc/w:jc"), child("w:CT_Text/w:t")],
        particle: OpenXmlSchemaTypeParticle {
            kind: "Sequence".to_string(),
            items: vec![
                item("w:CT_Jc/w:jc", Some((0, 1))),
                item("w:CT_Text/w:t", Some((0, 0))),
            ],
            ..Default::default()
        },
        ..Default::default()
    };
    let text = OpenXmlSchemaType {
        name: "w:CT_Text/w:t".to_string(),
        class_name: "Text".to_string(),
        base_class: "OpenXmlLeafTextElement".to_string(),
        attributes: vec![attribute("xml:space", "StringValue", false)],
        ..Default::default()
    };
    let table = OpenXmlSchemaType {
        name: "w:CT_Tbl/w:tbl".to_string(),
        class_name: "Table".to_string(),
        base_class: "OpenXmlLeafElement".to_string(),
        version: "Office2010".to_string(),
        ..Default::default()
    };
    let justification = OpenXmlSchemaType {
        name: "w:CT_Jc/w:jc".to_string(),
        class_name: "Justification".to_string(),
        base_class: "OpenXmlLeafElement".to_string(),
        attributes: vec![attribute(
            "w:val",
            "EnumValue<DocumentFormat.OpenXml.Wordprocessing.JustificationValues>",
            true,
        )],
        ..Default::default()
    };
    let orphan = OpenXmlSchemaType {
        name: "w:CT_Orphan/w:orphan".to_string(),
        class_name: "Orphan".to_string(),
        base_class: "OpenXmlLeafElement".to_string(),
        ..Default::default()
    };
    OpenXmlSchema {
        target_namespace: "urn:w".to_string(),
        types: vec![document, body, paragraph, text, table, justification, orphan],
        enums: vec![OpenXmlSchemaEnum {
            name: "JustificationValues".to_string(),
            value_type: "w:ST_Jc".to_string(),
            facets: vec![
                OpenXmlSchemaEnumFacet { name: "Left".to_string(), value: "left".to_string(), ..Default::default() },
                OpenXmlSchemaEnumFacet { name: "Center".to_string(), value: "center".to_string(), ..Default::default() },
                OpenXmlSchemaEnumFacet {
                    name: "Fancy".to_string(),
                    value: "fancy".to_string(),
                    version: "Office2013".to_string(),
                },
            ],
            ..Default::default()
        }],
        ..Default::default()
    }
    .with_file_stem("schemas_w")
}

fn part_child(name: &str, required: bool, many: bool) -> OpenXmlPartChild {
    OpenXmlPartChild {
        name: name.to_string(),
        api_name: name.to_string(),
        min_occurs_is_non_zero: required,
        max_occurs_great_than_one: many,
        ..Default::default()
    }
}

fn parts() -> Vec<OpenXmlPart> {
    vec![
        OpenXmlPart {
            name: "WordprocessingDocument".to_string(),
            base: "OpenXmlPackage".to_string(),
            children: vec![part_child("MainDocumentPart", true, false), part_child("CoreFilePropertiesPart", false, false)],
            ..Default::default()
        },
        OpenXmlPart {
            name: "MainDocumentPart".to_string(),
            base: "OpenXmlPart".to_string(),
            root: "document".to_string(),
            relationship_type: "http://rel/officeDocument".to_string(),
            paths: OpenXmlPartPaths { general: "word".to_string(), ..Default::default() },
            children: vec![part_child("ImagePart", false, true)],
            ..Default::default()
        },
        OpenXmlPart {
            name: "ImagePart".to_string(),
            base: "OpenXmlPart".to_string(),
            relationship_type: "http://rel/image".to_string(),
            extension: ".bin".to_string(),
            paths: OpenXmlPartPaths { general: "media".to_string(), ..Default::default() },
            ..Default::default()
        },
        OpenXmlPart {
            name: "CoreFilePropertiesPart".to_string(),
            base: "OpenXmlPart".to_string(),
            relationship_type: "http://rel/core".to_string(),
            paths: OpenXmlPartPaths { general: "docProps".to_string(), ..Default::default() },
            ..Default::default()
        },
        OpenXmlPart {
            name: "SpreadsheetDocument".to_string(),
            base: "OpenXmlPackage".to_string(),
            children: vec![part_child("WorkbookPart", false, false)],
            ..Default::default()
        },
        OpenXmlPart {
            name: "WorkbookPart".to_string(),
            base: "OpenXmlPart".to_string(),
            version: "Office2016".to_string(),
            ..Default::default()
        },
    ]
}

fn namespaces() -> Vec<OpenXmlNamespace> {
    vec![OpenXmlNamespace { prefix: "w".to_string(), uri: "urn:w".to_string(), version: "".to_string() }]
}

fn typed_namespaces() -> Vec<TypedNamespace> {
    vec![TypedNamespace {
        prefix: "w".to_string(),
        namespace: "DocumentFormat.OpenXml.Wordprocessing".to_string(),
    }]
}

fn typed_schemas() -> Vec<Vec<TypedSchema>> {
    vec![vec![
        TypedSchema {
            name: "w:CT_Document/w:document".to_string(),
            class_name: "Document".to_string(),
            part_class_name: "MainDocumentPart".to_string(),
        },
        TypedSchema {
            name: "w:CT_Body/w:body".to_string(),
            class_name: "Body".to_string(),
            part_class_name: "".to_string(),
        },
    ]]
}

fn docx() -> Features {
    let mut f = Features::baseline();
    f.docx = true;
    f.parts = true;
    f.validators = true;
    f
}

fn context(features: Features) -> GenContext {
    GenContext::new(parts(), vec![schema()], namespaces(), typed_namespaces(), typed_schemas(), features)
        .unwrap()
}

fn generated() -> Generated {
    generate_with(parts(), vec![schema()], namespaces(), typed_namespaces(), typed_schemas(), docx())
        .unwrap()
}

fn file(path: &str, text: &str) -> PackageFile {
    read_package_file(path.to_string(), text.as_bytes().to_vec())
}

fn archive() -> Vec<PackageFile> {
    vec![
        file("[Content_Types].xml", "<Types><Default Extension=\"xml\" ContentType=\"application/xml\"/></Types>"),
        file(
            "_rels/.rels",
            "<Relationships>\
             <Relationship Id=\"rId1\" Type=\"http://rel/officeDocument\" Target=\"word/document.xml\"/>\
             <Relationship Id=\"rId2\" Type=\"http://rel/core\" Target=\"docProps/core.xml\"/>\
             <Relationship Id=\"rId3\" Type=\"http://rel/unknown\" Target=\"x.bin\"/>\
             </Relationships>",
        ),
        file("word/document.xml", "<w:document><w:body><w:p w:level=\"1\"><w:t>Hi</w:t></w:p></w:body></w:document>"),
        file(
            "word/_rels/document.xml.rels",
            "<Relationships>\
             <Relationship Id=\"rId1\" Type=\"http://rel/image\" Target=\"../media/image1.png\"/>\
             <Relationship Id=\"rId2\" Type=\"http://rel/image\" Target=\"media/image2.png\"/>\
             </Relationships>",
        ),
        file("media/image1.png", "one"),
        file("word/media/image2.png", "two"),
        file("docProps/core.xml", "<cp:coreProperties><dc:title>T</dc:title></cp:coreProperties>"),
    ]
}

#[test]
fn test_gen() {
    let mut p = parts();
    p.push(OpenXmlPart {
        name: "PresentationDocument".to_string(),
        base: "OpenXmlPackage".to_string(),
        ..Default::default()
    });
    let g = generate(p, vec![schema()], namespaces(), typed_namespaces(), typed_schemas()).unwrap();
    assert_eq!(g.schemas.len(), 1);
    assert_eq!(g.deserializers.len(), 1);
    assert_eq!(g.serializers.len(), 1);
    assert_eq!(g.validators.len(), 1);
    assert_eq!(g.parts.len(), g.context.parts.len());
    assert!(g.context.parts.iter().any(|p| p.name == "WorkbookPart"));
    assert_eq!(g.context.schemas[0].enums[0].facets.len(), 3);
}

#[test]
fn optional_outputs_are_made_where_they_are_asked_for() {
    let g = generated();
    assert_eq!(g.parts.len(), 4);
    assert_eq!(g.validators.len(), 1);
    let mut f = docx();
    f.parts = false;
    f.validators = false;
    let g = generate_with(parts(), vec![schema()], namespaces(), typed_namespaces(), typed_schemas(), f)
        .unwrap();
    assert!(g.parts.is_empty());
    assert!(g.validators.is_empty());
    assert_eq!(g.schemas[0].types.len(), 5);
}

#[test]
fn a_build_fails_as_a_whole() {
    let mut s = schema();
    s.types[2].attributes[0].value_type = "NoSuchValue".to_string();
    match generate_with(parts(), vec![s], namespaces(), typed_namespaces(), typed_schemas(), docx()) {
        Err(BuildError::HashMapExpectedSomeError(key)) => assert_eq!(key, "NoSuchValue"),
        other => panic!("{:?}", other.map(|_| ())),
    }
}

#[test]
fn relationship_targets_are_resolved_against_the_directory_of_the_part() {
    assert_eq!(find_target_path("", "word/document.xml"), "word/document.xml");
    assert_eq!(find_target_path("word/", "../media/image1.png"), "media/image1.png");
    assert_eq!(find_target_path("word/", "media/image2.png"), "word/media/image2.png");
    assert_eq!(find_target_path("word/", "/docProps/core.xml"), "word/docProps/core.xml");
}

#[test]
fn the_file_of_the_relationships_stands_beside_the_part() {
    assert_eq!(find_rels_path("", "").unwrap(), "_rels/.rels");
    assert_eq!(find_rels_path("word/", "word/document.xml").unwrap(), "word/_rels/document.xml.rels");
    assert_eq!(find_rels_path("word/", "word/image.png").unwrap(), "word/_rels/.rels");
    match find_rels_path("", "document.xml") {
        Err(SdkError::CommonError(path)) => assert_eq!(path, "document.xml"),
        other => panic!("{other:?}"),
    }
}

#[test]
fn a_package_is_loaded() {
    let g = generated();
    let shop = Workshop { codec: Codec { context: &g.context, deserializers: &g.deserializers }, models: &g.parts };
    let package = shop.load(&archive(), 0).unwrap();
    assert_eq!(package.content_types.children.len(), 1);
    let root = &package.root;
    assert_eq!(root.part, 0);
    assert_eq!(root.rels_path, "_rels/.rels");
    assert_eq!(root.relationships.as_ref().unwrap().relationship.len(), 3);
    assert!(matches!(root.data, PartData::Nothing));
    assert_eq!(root.children.len(), 2);
    let document = &root.children[0][0];
    assert_eq!(document.part, 1);
    assert_eq!(document.r_id, "rId1");
    assert_eq!(document.inner_path, "word/document.xml");
    assert_eq!(document.rels_path, "word/_rels/document.xml.rels");
    assert!(matches!(&document.data, PartData::RootElement(e) if e.at.index == 0));
    let images = &document.children[0];
    assert_eq!(images.len(), 2);
    assert_eq!(images[0].inner_path, "media/image1.png");
    assert!(matches!(&images[0].data, PartData::Bytes(b) if b == b"one"));
    assert_eq!(images[1].inner_path, "word/media/image2.png");
    assert_eq!(images[1].r_id, "rId2");
    let core = &root.children[1][0];
    assert!(matches!(&core.data, PartData::CoreProperties(c) if c.title.as_deref() == Some("T")));
}

#[test]
fn a_package_without_a_required_part_is_refused() {
    let g = generated();
    let shop = Workshop { codec: Codec { context: &g.context, deserializers: &g.deserializers }, models: &g.parts };
    let mut files = archive();
    files[1] = file("_rels/.rels", "<Relationships/>");
    match shop.load(&files, 0) {
        Err(SdkError::CommonError(name)) => assert_eq!(name, "main_document_part"),
        other => panic!("{other:?}"),
    }
    let mut files = archive();
    files.remove(2);
    match shop.load(&files, 0) {
        Err(SdkError::ZipError(path)) => assert_eq!(path, "word/document.xml"),
        other => panic!("{other:?}"),
    }
    let mut files = archive();
    files.remove(0);
    assert!(matches!(shop.load(&files, 0), Err(SdkError::ZipError(_))));
    let mut files = archive();
    files[2] = file("word/document.xml", "<w:document><w:body><w:q/></w:body></w:document>");
    match shop.load(&files, 0) {
        Err(SdkError::CommonError(name)) => assert_eq!(name, "Body"),
        other => panic!("{other:?}"),
    }
}

#[test]
fn parts_that_lead_to_each_other_are_refused() {
    let mut p = parts();
    p[2].children = vec![part_child("MainDocumentPart", false, false)];
    p[2].extension = "".to_string();
    let g = generate_with(p, vec![schema()], namespaces(), typed_namespaces(), typed_schemas(), docx())
        .unwrap();
    let shop = Workshop { codec: Codec { context: &g.context, deserializers: &g.deserializers }, models: &g.parts };
    let files = vec![
        file("[Content_Types].xml", "<Types/>"),
        file("_rels/.rels", "<Relationships><Relationship Id=\"a\" Type=\"http://rel/officeDocument\" Target=\"word/document.xml\"/></Relationships>"),
        file("word/document.xml", "<w:document><w:body/></w:document>"),
        file("word/_rels/document.xml.rels", "<Relationships><Relationship Id=\"b\" Type=\"http://rel/image\" Target=\"../loop.xml\"/></Relationships>"),
        file("loop.xml", "<x/>"),
        file("media/_rels/loop.xml.rels", "<Relationships><Relationship Id=\"c\" Type=\"http://rel/officeDocument\" Target=\"../word/document.xml\"/></Relationships>"),
    ];
    assert!(shop.load(&files, 0).is_err());
}

fn paths(entries: &[ArchiveEntry]) -> Vec<(&str, bool)> {
    entries.iter().map(|e| (e.path.as_str(), e.directory)).collect()
}

#[test]
fn a_package_is_saved_to_entries_with_distinct_paths() {
    let g = generated();
    let shop = Workshop { codec: Codec { context: &g.context, deserializers: &g.deserializers }, models: &g.parts };
    let package = shop.load(&archive(), 0).unwrap();
    let entries = shop.save(&package);
    assert_eq!(
        paths(&entries),
        vec![
            ("[Content_Types].xml", false),
            ("_rels", true),
            ("_rels/.rels", false),
            ("word", true),
            ("word/document.xml", false),
            ("word/_rels", true),
            ("word/_rels/document.xml.rels", false),
            ("word/media", true),
            ("media/image1.png", false),
            ("word/media/image2.png", false),
            ("docProps", true),
            ("docProps/core.xml", false),
        ]
    );
    let mut seen: Vec<&str> = entries.iter().map(|e| e.path.as_str()).collect();
    seen.sort();
    seen.dedup();
    assert_eq!(seen.len(), entries.len());
    assert_eq!(
        String::from_utf8(entries[4].bytes.clone()).unwrap(),
        "<?xml version=\"1.0\" encoding=\"UTF-8\" standalone=\"yes\"?>\r\n\
         <document><body><p w:level=\"1\"><t>Hi</t></p></body></document>"
    );
    assert_eq!(entries[8].bytes, b"one");
    assert_eq!(paths(&shop.save(&package)), paths(&entries));
}

#[test]
fn parts_that_share_a_path_are_written_once() {
    let g = generated();
    let shop = Workshop { codec: Codec { context: &g.context, deserializers: &g.deserializers }, models: &g.parts };
    let image = |bytes: &[u8]| PartNode {
        part: 2,
        r_id: "r".to_string(),
        inner_path: "word/media/same.png".to_string(),
        rels_path: String::new(),
        relationships: None,
        data: PartData::Bytes(bytes.to_vec()),
        children: vec![],
    };
    let document = PartNode {
        part: 1,
        r_id: "rId1".to_string(),
        inner_path: "[Content_Types].xml".to_string(),
        rels_path: "word/_rels/document.xml.rels".to_string(),
        relationships: Some(Relationships {
            xmlns: None,
            xmlns_map: vec![],
            mc_ignorable: None,
            relationship: vec![Relationship {
                target_mode: None,
                target: "media/same.png".to_string(),
                relationship_type: "http://rel/image".to_string(),
                id: "r".to_string(),
            }],
        }),
        data: PartData::Text("clash".to_string()),
        children: vec![vec![image(b"first"), image(b"second")]],
    };
    let package = Package {
        content_types: ooxmlsdk_build::opc_content_types::Types {
            xmlns: None,
            xmlns_map: vec![],
            mc_ignorable: None,
            children: vec![],
        },
        root: PartNode {
            part: 0,
            r_id: String::new(),
            inner_path: String::new(),
            rels_path: "_rels/.rels".to_string(),
            relationships: None,
            data: PartData::Nothing,
            children: vec![vec![document], vec![]],
        },
    };
    let entries = shop.save(&package);
    assert_eq!(
        paths(&entries),
        vec![
            ("[Content_Types].xml", false),
            ("word", true),
            ("word/_rels", true),
            ("word/_rels/document.xml.rels", false),
            ("word/media", true),
            ("word/media/same.png", false),
        ]
    );
    assert_eq!(entries[0].bytes, b"<?xml version=\"1.0\" encoding=\"UTF-8\" standalone=\"yes\"?>\r\n<Types/>");
    assert_eq!(entries[5].bytes, b"first");
}

#[test]
fn entries_are_added_once() {
    let mut entries = vec![];
    add_directory(&mut entries, "".to_string());
    assert!(entries.is_empty());
    add_directory(&mut entries, "a".to_string());
    add_file(&mut entries, "a/b".to_string(), vec![1]);
    add_file(&mut entries, "a/b".to_string(), vec![2]);
    add_directory(&mut entries, "a".to_string());
    add_entry(&mut entries, ArchiveEntry { path: "a".to_string(), directory: false, bytes: vec![3] });
    assert_eq!(paths(&entries), vec![("a", true), ("a/b", false)]);
    assert_eq!(entries[1].bytes, vec![1]);
}

#[test]
fn bytes_that_are_no_text_have_one_refusing_event() {
    let f = read_package_file("x".to_string(), vec![0xff, 0xfe]);
    assert!(f.text.is_err());
    assert_eq!(f.events.len(), 1);
    assert_eq!(f.bytes, vec![0xff, 0xfe]);
    let g = read_package_file("y".to_string(), b"<a/>".to_vec());
    assert_eq!(g.text.as_deref(), Ok("<a/>"));
    assert_eq!(g.events.len(), 2);
}
