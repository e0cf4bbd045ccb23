use ooxmlsdk_build::common::{Deserializeable, SdkError, Serializeable};
use ooxmlsdk_build::opc_content_types::{Override, Types, TypesChildChoice};
use ooxmlsdk_build::opc_core_properties::CoreProperties;
use ooxmlsdk_build::opc_relationships::{Relationship, Relationships, TargetMode};

#[test]
fn target_mode_from_str() {
    assert!(matches!(TargetMode::from_str("External"), Ok(TargetMode::External)));
    assert!(matches!(TargetMode::from_str("Internal"), Ok(TargetMode::Internal)));
    match TargetMode::from_str("internal") {
        Err(SdkError::CommonError(text)) => assert_eq!(text, "internal"),
        other => panic!("{other:?}"),
    }
    assert_eq!(TargetMode::External.to_text(), "External");
    assert_eq!(TargetMode::Internal.to_text(), "Internal");
}

#[test]
fn relationship_is_read() {
    let r = Relationship::from_str(
        "<Relationship Id=\"rId1\" Type=\"http://t\" Target=\"word/document.xml\"/>",
    )
    .unwrap();
    assert_eq!(r.id, "rId1");
    assert_eq!(r.relationship_type, "http://t");
    assert_eq!(r.target, "word/document.xml");
    assert!(r.target_mode.is_none());
}

#[test]
fn relationship_with_prefix_and_mode() {
    let r = Relationship::from_str(
        "<w:Relationship TargetMode=\"External\" Id=\"a\" Type=\"t\" Target=\"x&amp;y\" Other=\"1\"/>",
    )
    .unwrap();
    assert_eq!(r.target_mode, Some(TargetMode::External));
    assert_eq!(r.target, "x&y");
}

#[test]
fn relationship_misses_a_field() {
    match Relationship::from_str("<Relationship Id=\"a\" Type=\"t\"/>") {
        Err(SdkError::CommonError(name)) => assert_eq!(name, "target"),
        other => panic!("{other:?}"),
    }
    match Relationship::from_str("<Relationship Id=\"a\" Target=\"t\"/>") {
        Err(SdkError::CommonError(name)) => assert_eq!(name, "type"),
        other => panic!("{other:?}"),
    }
    match Relationship::from_str("<Relationship Type=\"a\" Target=\"t\"/>") {
        Err(SdkError::CommonError(name)) => assert_eq!(name, "id"),
        other => panic!("{other:?}"),
    }
}

#[test]
fn relationship_with_a_bad_mode() {
    match Relationship::from_str("<Relationship TargetMode=\"Sideways\" Id=\"a\" Type=\"t\" Target=\"x\"/>") {
        Err(SdkError::CommonError(text)) => assert_eq!(text, "Sideways"),
        other => panic!("{other:?}"),
    }
}

#[test]
fn relationship_of_another_tag() {
    assert!(matches!(
        Relationship::from_str("<Relation Id=\"a\" Type=\"t\" Target=\"x\"/>"),
        Err(SdkError::MismatchError { .. })
    ));
}

#[test]
fn relationship_is_written() {
    let r = Relationship {
        target_mode: Some(TargetMode::Internal),
        target: "a<b".to_string(),
        relationship_type: "t".to_string(),
        id: "rId7".to_string(),
    };
    assert_eq!(
        r.to_xml_string(false, false),
        "<Relationship TargetMode=\"Internal\" Target=\"a&lt;b\" Type=\"t\" Id=\"rId7\"/>"
    );
    assert_eq!(
        r.to_xml_string(false, true),
        "<w:Relationship TargetMode=\"Internal\" Target=\"a&lt;b\" Type=\"t\" Id=\"rId7\"/>"
    );
    assert!(r.xml_inner(false).is_none());
}

#[test]
fn relationships_are_read() {
    let text = "<?xml version=\"1.0\" encoding=\"UTF-8\" standalone=\"yes\"?>\
        <Relationships xmlns=\"http://schemas.openxmlformats.org/package/2006/relationships\" xmlns:a=\"urn:a\">\
        <Relationship Id=\"rId1\" Type=\"t1\" Target=\"word/document.xml\"/>\
        <Relationship Id=\"rId2\" Type=\"t2\" Target=\"docProps/core.xml\"></Relationship>\
        </Relationships>";
    let r = Relationships::from_str(text).unwrap();
    assert_eq!(
        r.xmlns.as_deref(),
        Some("http://schemas.openxmlformats.org/package/2006/relationships")
    );
    assert_eq!(r.xmlns_map, vec![("a".to_string(), "urn:a".to_string())]);
    assert!(r.mc_ignorable.is_none());
    assert_eq!(r.relationship.len(), 2);
    assert_eq!(r.relationship[1].id, "rId2");
}

#[test]
fn relationships_refuse_a_repeated_key() {
    assert!(matches!(
        Relationships::from_str("<Relationships xmlns=\"a\" xmlns=\"b\"/>"),
        Err(SdkError::AttrError(_))
    ));
}

#[test]
fn relationships_refuse_an_unknown_child() {
    match Relationships::from_str("<Relationships><Other/></Relationships>") {
        Err(SdkError::CommonError(name)) => assert_eq!(name, "Relationships"),
        other => panic!("{other:?}"),
    }
}

#[test]
fn relationships_need_their_closing_tag() {
    assert!(matches!(
        Relationships::from_str("<Relationships><Relationship Id=\"a\" Type=\"t\" Target=\"x\"/>"),
        Err(SdkError::UnknownError) | Err(SdkError::QuickXmlError(_))
    ));
}

#[test]
fn relationships_round_trip() {
    let r = Relationships {
        xmlns: Some("urn:rels".to_string()),
        xmlns_map: vec![("x".to_string(), "urn:x".to_string())],
        mc_ignorable: Some("x".to_string()),
        relationship: vec![
            Relationship {
                target_mode: None,
                target: "word/document.xml".to_string(),
                relationship_type: "t".to_string(),
                id: "rId1".to_string(),
            },
            Relationship {
                target_mode: Some(TargetMode::External),
                target: "http://x/?a=1&b=2".to_string(),
                relationship_type: "u".to_string(),
                id: "rId2".to_string(),
            },
        ],
    };
    let text = r.to_xml_string(true, true);
    assert_eq!(
        text,
        "<?xml version=\"1.0\" encoding=\"UTF-8\" standalone=\"yes\"?>\r\n\
         <w:Relationships xmlns=\"urn:rels\" xmlns:x=\"urn:x\" mc:Ignorable=\"x\">\
         <w:Relationship Target=\"word/document.xml\" Type=\"t\" Id=\"rId1\"/>\
         <w:Relationship TargetMode=\"External\" Target=\"http://x/?a=1&amp;b=2\" Type=\"u\" Id=\"rId2\"/>\
         </w:Relationships>"
    );
    let back = Relationships::from_str(&text).unwrap();
    assert_eq!(back.xmlns, r.xmlns);
    assert_eq!(back.xmlns_map, r.xmlns_map);
    assert_eq!(back.mc_ignorable, r.mc_ignorable);
    assert_eq!(back.relationship.len(), 2);
    assert_eq!(back.relationship[1].target, "http://x/?a=1&b=2");
    assert_eq!(back.relationship[1].target_mode, Some(TargetMode::External));
    assert_eq!(r.to_xml_bytes(true, true), text.as_bytes().to_vec());
}

#[test]
fn relationships_without_children_close_themselves() {
    let r = Relationships::default();
    assert_eq!(r.to_xml_string(false, false), "<Relationships/>");
    let back = Relationships::from_str("<Relationships/>").unwrap();
    assert!(back.relationship.is_empty());
}

#[test]
fn content_types_are_read() {
    let text = "<Types xmlns=\"http://schemas.openxmlformats.org/package/2006/content-types\">\
        <Default Extension=\"rels\" ContentType=\"application/vnd.openxmlformats-package.relationships+xml\"/>\
        <Override PartName=\"/word/document.xml\" ContentType=\"application/xml\"/>\
        </Types>";
    let t = Types::from_str(text).unwrap();
    assert_eq!(t.children.len(), 2);
    match &t.children[0] {
        TypesChildChoice::Default(d) => {
            assert_eq!(d.extension, "rels");
            assert_eq!(d.content_type, "application/vnd.openxmlformats-package.relationships+xml");
        },
        other => panic!("{other:?}"),
    }
    match &t.children[1] {
        TypesChildChoice::Override(o) => {
            assert_eq!(o.part_name, "/word/document.xml");
            assert_eq!(o.content_type, "application/xml");
        },
        other => panic!("{other:?}"),
    }
}

#[test]
fn content_types_keep_the_last_of_a_repeated_key() {
    let t = Types::from_str("<Types xmlns:a=\"1\" xmlns:b=\"2\" xmlns:a=\"3\"/>").unwrap();
    assert_eq!(
        t.xmlns_map,
        vec![("a".to_string(), "3".to_string()), ("b".to_string(), "2".to_string())]
    );
}

#[test]
fn content_types_are_written() {
    let t = Types {
        xmlns: Some("urn:ct".to_string()),
        xmlns_map: vec![],
        mc_ignorable: None,
        children: vec![
            TypesChildChoice::Default(Box::new(ooxmlsdk_build::opc_content_types::Default {
                extension: "xml".to_string(),
                content_type: "application/xml".to_string(),
            })),
            TypesChildChoice::Nothing,
            TypesChildChoice::Override(Box::new(Override {
                content_type: "a/b".to_string(),
                part_name: "/p.xml".to_string(),
            })),
        ],
    };
    assert_eq!(
        t.to_xml_string(false, false),
        "<Types><Default Extension=\"xml\" ContentType=\"application/xml\"/>\
         <Override ContentType=\"a/b\" PartName=\"/p.xml\"/></Types>"
    );
    assert_eq!(
        t.to_xml_string(false, true),
        "<w:Types xmlns=\"urn:ct\"><w:Default Extension=\"xml\" ContentType=\"application/xml\"/>\
         <w:Override ContentType=\"a/b\" PartName=\"/p.xml\"/></w:Types>"
    );
}

#[test]
fn default_and_override_miss_fields() {
    match ooxmlsdk_build::opc_content_types::Default::from_str("<Default ContentType=\"a\"/>") {
        Err(SdkError::CommonError(name)) => assert_eq!(name, "extension"),
        other => panic!("{other:?}"),
    }
    match ooxmlsdk_build::opc_content_types::Default::from_str("<Default Extension=\"a\"/>") {
        Err(SdkError::CommonError(name)) => assert_eq!(name, "content_type"),
        other => panic!("{other:?}"),
    }
    match Override::from_str("<Override PartName=\"a\"/>") {
        Err(SdkError::CommonError(name)) => assert_eq!(name, "content_type"),
        other => panic!("{other:?}"),
    }
    match Override::from_str("<Override ContentType=\"a\"/>") {
        Err(SdkError::CommonError(name)) => assert_eq!(name, "part_name"),
        other => panic!("{other:?}"),
    }
}

#[test]
fn content_types_refuse_an_unknown_child() {
    match Types::from_str("<Types><Defaults/></Types>") {
        Err(SdkError::CommonError(name)) => assert_eq!(name, "Types"),
        other => panic!("{other:?}"),
    }
}

#[test]
fn core_properties_are_read() {
    let text = "<cp:coreProperties xmlns:cp=\"urn:cp\" xmlns:dc=\"urn:dc\">\
        <dc:title>Report</dc:title>\
        <dc:creator>A &amp; B</dc:creator>\
        <cp:revision>3</cp:revision>\
        <dcterms:created xsi:type=\"dcterms:W3CDTF\">2020-01-01T00:00:00Z</dcterms:created>\
        </cp:coreProperties>";
    let c = CoreProperties::from_str(text).unwrap();
    assert_eq!(c.title.as_deref(), Some("Report"));
    assert_eq!(c.creator.as_deref(), Some("A & B"));
    assert_eq!(c.revision.as_deref(), Some("3"));
    assert_eq!(c.created.as_deref(), Some("2020-01-01T00:00:00Z"));
    assert!(c.category.is_none());
    assert_eq!(c.xmlns_map.len(), 2);
}

#[test]
fn core_properties_refuse_an_unknown_property() {
    match CoreProperties::from_str("<coreProperties><dc:colour>red</dc:colour></coreProperties>") {
        Err(SdkError::CommonError(name)) => assert_eq!(name, "coreProperties"),
        other => panic!("{other:?}"),
    }
}

#[test]
fn core_properties_are_written() {
    let c = CoreProperties {
        title: Some("a<b".to_string()),
        modified: Some("2021".to_string()),
        version: Some("1".to_string()),
        ..core_defaults()
    };
    assert_eq!(
        c.to_xml_string(false, true),
        "<cp:coreProperties><dcterms:modified xsi:type=\"dcterms:W3CDTF\">2021</dcterms:modified>\
         <dc:title>a&lt;b</dc:title><cp:version>1</cp:version></cp:coreProperties>"
    );
    assert_eq!(core_defaults().to_xml_string(false, false), "<coreProperties/>");
}

fn core_defaults() -> CoreProperties {
    CoreProperties {
        xmlns: None,
        xmlns_map: vec![],
        mc_ignorable: None,
        category: None,
        content_status: None,
        created: None,
        creator: None,
        description: None,
        identifier: None,
        keywords: None,
        language: None,
        last_modified_by: None,
        last_printed: None,
        modified: None,
        revision: None,
        subject: None,
        title: None,
        version: None,
    }
}

#[test]
fn a_self_closing_property_reads_nothing_further() {
    let c = CoreProperties::from_str(
        "<cp:coreProperties><dc:title/><dc:creator>Bob</dc:creator></cp:coreProperties>",
    )
    .unwrap();
    assert_eq!(c.creator.as_deref(), Some("Bob"));
    assert!(c.title.is_none());
}

#[test]
fn a_property_without_text_leaves_the_next_property_alone() {
    let c = CoreProperties::from_str(
        "<cp:coreProperties><dc:title></dc:title><dc:creator>Bob</dc:creator>\
         <cp:revision>7</cp:revision></cp:coreProperties>",
    )
    .unwrap();
    assert!(c.title.is_none());
    assert_eq!(c.creator.as_deref(), Some("Bob"));
    assert_eq!(c.revision.as_deref(), Some("7"));
}

#[test]
fn core_properties_with_special_characters_are_read_back_as_they_were() {
    let c = CoreProperties {
        title: Some("a<b".to_string()),
        creator: Some("<&>\"'".to_string()),
        subject: Some("plain".to_string()),
        ..core_defaults()
    };
    let back = CoreProperties::from_str(&c.to_xml_string(true, true)).unwrap();
    assert_eq!(back.title.as_deref(), Some("a<b"));
    assert_eq!(back.creator.as_deref(), Some("<&>\"'"));
    assert_eq!(back.subject.as_deref(), Some("plain"));
    assert!(back.keywords.is_none());
}

#[test]
fn a_reference_to_an_unknown_entity_is_an_error() {
    match CoreProperties::from_str("<coreProperties><dc:title>a&nbsp;b</dc:title></coreProperties>") {
        Err(SdkError::CommonError(name)) => assert_eq!(name, "nbsp"),
        other => panic!("{other:?}"),
    }
}
