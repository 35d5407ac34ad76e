use boardswarm_qdl::rawprogram::{
    parse_patches, parse_programs, patches_from_xml, programs_from_xml, FileError,
};
use boardswarm_qdl::text::NumberError;
use boardswarm_qdl::xml::{
    attr, attr_parse, attr_parse_or, elements, parse_document, Document, Element, EntryError,
    XmlNode,
};

const RAWPROGRAM: &str = r#"<?xml version="1.0" ?>
<data>
  <program SECTOR_SIZE_IN_BYTES="4096" file_sector_offset="0" filename="gpt_main0.bin" label="PrimaryGPT" num_partition_sectors="6" physical_partition_number="0" size_in_KB="24.0" sparse="false" start_byte_hex="0x0" start_sector="0"/>
  <program SECTOR_SIZE_IN_BYTES="4096" file_sector_offset="2" filename="xbl.elf" label="xbl_a" num_partition_sectors="928" physical_partition_number="1" size_in_KB="3712.0" sparse="false" start_byte_hex="0x6000" start_sector="6"/>
  <program SECTOR_SIZE_IN_BYTES="4096" file_sector_offset="0" filename="" label="empty" num_partition_sectors="0" physical_partition_number="0" size_in_KB="0.0" sparse="false" start_byte_hex="0x0" start_sector="100"/>
  <program SECTOR_SIZE_IN_BYTES="4096" file_sector_offset="0" filename="gpt_backup0.bin" label="BackupGPT" num_partition_sectors="5" physical_partition_number="0" size_in_KB="20.0" sparse="false" start_byte_hex="0x0" start_sector="NUM_DISK_SECTORS-5."/>
</data>"#;

const PATCHFILE: &str = r#"<?xml version="1.0" ?>
<patches>
  <patch SECTOR_SIZE_IN_BYTES="4096" byte_offset="24" filename="DISK" physical_partition_number="0" size_in_bytes="4" start_sector="1" value="NUM_DISK_SECTORS-1." what="Update Backup Header Location"/>
  <patch SECTOR_SIZE_IN_BYTES="4096" byte_offset="0" filename="rawprogram0.xml" physical_partition_number="0" size_in_bytes="4" start_sector="0" value="12345" what="Host side patch"/>
</patches>"#;

#[test]
fn parses_rawprogram_entries() {
    let programs = programs_from_xml(&parse_document(RAWPROGRAM.as_bytes()).unwrap()).unwrap();
    assert_eq!(programs.len(), 4);

    let gpt = &programs[0];
    assert_eq!(gpt.label, "PrimaryGPT");
    assert_eq!(gpt.filename, "gpt_main0.bin");
    assert_eq!(gpt.lun, 0);
    assert_eq!(gpt.sector_size, 4096);
    assert_eq!(gpt.num_sectors, 6);
    assert_eq!(gpt.start_sector, "0");

    // physical_partition_number picks the target, and file_sector_offset
    // skips over part of the file
    assert_eq!(programs[1].lun, 1);
    assert_eq!(programs[1].file_sector_offset, 2);

    // Placeholder entries are kept by the parser and skipped when flashing
    assert_eq!(programs[2].filename, "");
    assert_eq!(programs[2].num_sectors, 0);

    // The backup table is placed relative to the end of the storage
    assert_eq!(programs[3].start_sector, "NUM_DISK_SECTORS-5.");
}

#[test]
fn skips_host_side_patches() {
    let patches = patches_from_xml(&parse_document(PATCHFILE.as_bytes()).unwrap()).unwrap();
    // Only the DISK patch applies to the device
    assert_eq!(patches.len(), 1);
    assert_eq!(patches[0].byte_offset, 24);
    assert_eq!(patches[0].size_in_bytes, 4);
    assert_eq!(patches[0].value, "NUM_DISK_SECTORS-1.");
}

#[test]
fn reads_programs_and_patches_from_bytes() {
    let programs = parse_programs(RAWPROGRAM.as_bytes()).unwrap();
    assert_eq!(programs.len(), 4);
    assert_eq!(programs[1].filename, "xbl.elf");
    assert_eq!(programs[1].num_sectors, 928);
    let patches = parse_patches(PATCHFILE.as_bytes()).unwrap();
    assert_eq!(patches.len(), 1);
    assert_eq!(patches[0].lun, 0);
    assert_eq!(patches[0].sector_size, 4096);
    assert_eq!(patches[0].start_sector, "1");
    assert_eq!(patches[0].what, "Update Backup Header Location");
    // Each kind of file holds none of the other entries
    assert_eq!(parse_programs(PATCHFILE.as_bytes()).unwrap().len(), 0);
    assert_eq!(parse_patches(RAWPROGRAM.as_bytes()).unwrap().len(), 0);
}

#[test]
fn only_nodes_directly_below_the_root_count() {
    let doc = parse_document(
        b"<data a='1'>x<!--c--><![CDATA[d]]><?pi e?><b c='d'><program/></b></data>",
    )
    .unwrap();
    assert_eq!(doc.children.len(), 5);
    assert!(matches!(&doc.children[0], XmlNode::Text(s) if s == "x"));
    assert!(matches!(&doc.children[1], XmlNode::Comment(s) if s == "c"));
    assert!(matches!(&doc.children[2], XmlNode::CData(s) if s == "d"));
    assert!(matches!(
        &doc.children[3],
        XmlNode::ProcessingInstruction(t, Some(d)) if t == "pi" && d == "e"
    ));
    match &doc.children[4] {
        XmlNode::Element(e) => {
            assert_eq!(e.name, "b");
            assert_eq!(e.attributes, vec![("c".to_string(), "d".to_string())]);
        }
        other => panic!("{other:?}"),
    }
    assert_eq!(elements(&doc, "program").len(), 0);
    assert_eq!(elements(&doc, "B").len(), 1);
}

#[test]
fn documents_that_are_no_xml_are_refused() {
    for data in ["", "<data>", "<!-- nothing else -->", "<a></b>", "text"] {
        let text = parse_document(data.as_bytes()).unwrap_err();
        let expected = xmltree::Element::parse(data.as_bytes()).unwrap_err().to_string();
        assert_eq!(text, expected);
        assert!(!text.is_empty());
        assert!(matches!(
            parse_programs(data.as_bytes()),
            Err(FileError::Xml(t)) if t == expected
        ));
        assert!(matches!(
            parse_patches(data.as_bytes()),
            Err(FileError::Xml(t)) if t == expected
        ));
    }
}

#[test]
fn what_follows_the_root_does_not_count() {
    let doc = parse_document(b"<!--x--><a><b/></a><c><d/><e/></c>").unwrap();
    assert_eq!(doc.children.len(), 1);
    assert_eq!(elements(&doc, "b").len(), 1);
}

#[test]
fn element_names_have_no_case_and_attribute_names_do() {
    let xml = r#"<data>
<PROGRAM SECTOR_SIZE_IN_BYTES="512" filename="a" num_partition_sectors="1" physical_partition_number="7" start_sector="3"/>
<Program sector_size_in_bytes="512" filename="a" num_partition_sectors="1" physical_partition_number="7" start_sector="3"/>
</data>"#;
    match parse_programs(xml.as_bytes()) {
        Err(FileError::Entry(EntryError::Missing { element, name })) => {
            assert_eq!(element, "Program");
            assert_eq!(name, "SECTOR_SIZE_IN_BYTES");
        }
        other => panic!("{other:?}"),
    }
    let doc = parse_document(xml.as_bytes()).unwrap();
    assert_eq!(elements(&doc, "program").len(), 2);
}

#[test]
fn what_may_be_left_out_has_a_default() {
    let xml = r#"<data><program SECTOR_SIZE_IN_BYTES="512" file_sector_offset="" slot="" filename="a" num_partition_sectors="1" physical_partition_number="7" start_sector="3"/></data>"#;
    let programs = parse_programs(xml.as_bytes()).unwrap();
    assert_eq!(programs[0].label, "unnamed");
    assert_eq!(programs[0].file_sector_offset, 0);
    assert_eq!(programs[0].lun, 7);

    let xml = r#"<patches><patch SECTOR_SIZE_IN_BYTES="512" byte_offset="8" filename="DISK" physical_partition_number="1" size_in_bytes="8" start_sector="2" value="9"/></patches>"#;
    let patches = parse_patches(xml.as_bytes()).unwrap();
    assert_eq!(patches[0].what, "");
    assert_eq!(patches[0].value, "9");
}

#[test]
fn only_slot_zero_is_supported() {
    let xml = r#"<data><program slot="1"/></data>"#;
    assert!(matches!(
        parse_programs(xml.as_bytes()),
        Err(FileError::Entry(EntryError::Slot(1)))
    ));
    let xml = r#"<data><program slot="256"/></data>"#;
    match parse_programs(xml.as_bytes()) {
        Err(FileError::Entry(EntryError::Invalid { element, name, value, cause })) => {
            assert_eq!(element, "program");
            assert_eq!(name, "slot");
            assert_eq!(value, "256");
            assert_eq!(cause, NumberError::TooLarge);
        }
        other => panic!("{other:?}"),
    }
}

fn element(attributes: &[(&str, &str)]) -> Element {
    Element {
        name: "program".to_string(),
        attributes: attributes
            .iter()
            .map(|(k, v)| (k.to_string(), v.to_string()))
            .collect(),
    }
}

const GOOD: [(&str, &str); 5] = [
    ("filename", "a"),
    ("physical_partition_number", "7"),
    ("SECTOR_SIZE_IN_BYTES", "512"),
    ("num_partition_sectors", "1"),
    ("start_sector", "3"),
];

fn document(entries: Vec<Element>) -> Document {
    Document {
        children: entries.into_iter().map(XmlNode::Element).collect(),
    }
}

#[test]
fn each_attribute_that_is_needed_is_missed() {
    for (missing, _) in GOOD {
        let kept: Vec<(&str, &str)> = GOOD.into_iter().filter(|(k, _)| *k != missing).collect();
        match programs_from_xml(&document(vec![element(&kept)])) {
            Err(EntryError::Missing { element, name }) => {
                assert_eq!(element, "program");
                assert_eq!(name, missing);
            }
            other => panic!("{other:?}"),
        }
    }
}

#[test]
fn the_first_bad_entry_is_reported() {
    let good = || element(&GOOD);
    let bad = |n: &str| element(&[("slot", n)]);
    assert_eq!(programs_from_xml(&document(vec![good(), good()])).unwrap().len(), 2);
    assert!(matches!(
        programs_from_xml(&document(vec![good(), bad("2"), bad("3"), good()])),
        Err(EntryError::Slot(2))
    ));
}

#[test]
fn host_side_patches_may_be_bad() {
    let xml = r#"<patches>
<patch filename="rawprogram0.xml"/>
<patch/>
<patch filename="disk"/>
<patch SECTOR_SIZE_IN_BYTES="512" byte_offset="8" filename="DISK" physical_partition_number="1" size_in_bytes="8" start_sector="2" value="9"/>
</patches>"#;
    assert_eq!(parse_patches(xml.as_bytes()).unwrap().len(), 1);
    let xml = r#"<patches><patch filename="DISK" physical_partition_number="-1"/></patches>"#;
    assert!(matches!(
        parse_patches(xml.as_bytes()),
        Err(FileError::Entry(EntryError::Invalid { cause: NumberError::InvalidDigit, .. }))
    ));
}

#[test]
fn attributes_are_looked_up_by_name() {
    let e = element(&[("a", "12"), ("b", ""), ("c", "x"), ("a", "13")]);
    assert_eq!(e.attribute("a"), Some("12"));
    assert_eq!(e.attribute("A"), None);
    assert_eq!(attr(&e, "b").unwrap(), "");
    assert!(matches!(attr(&e, "d"), Err(EntryError::Missing { name, .. }) if name == "d"));
    assert_eq!(attr_parse::<u8>(&e, "a").unwrap(), 12);
    assert!(matches!(
        attr_parse::<u64>(&e, "b"),
        Err(EntryError::Invalid { cause: NumberError::Empty, .. })
    ));
    assert!(matches!(
        attr_parse::<u64>(&e, "c"),
        Err(EntryError::Invalid { cause: NumberError::InvalidDigit, .. })
    ));
    assert_eq!(attr_parse_or(&e, "a", 5u64).unwrap(), 12);
    assert_eq!(attr_parse_or(&e, "b", 5u64).unwrap(), 5);
    assert_eq!(attr_parse_or(&e, "d", 5u64).unwrap(), 5);
    assert!(attr_parse_or(&e, "c", 5u64).is_err());
}
