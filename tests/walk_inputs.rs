use casfetch::walker::{references, toc_candidates, toc_references, xml_references, FileNames, WalkError};
use casfetch::keys::FileDataID;

#[test]
fn toc_lines_become_references() {
    let toc = b"## Title: X\n\n  A.lua  \r\n# comment\nsub/B.xml\n";
    assert_eq!(
        toc_references("Interface\\AddOns\\X\\X.toc", toc),
        Some(vec!["Interface\\AddOns\\X\\A.lua".to_string(), "Interface\\AddOns\\X\\sub\\B.xml".to_string()])
    );
    assert_eq!(toc_references("a.toc", &[0xff, 0xfe]), None);
}

#[test]
fn xml_script_and_inclusion_references() {
    let xml = format!("\u{feff}<Ui><Script file=\"A.lua\"/><{}CLUDE file=\"..\\B.xml\"/><Frame file=\"C\"/></Ui>", "IN");
    assert_eq!(
        xml_references("Interface\\X\\X.xml", xml.as_bytes()),
        Ok(vec!["Interface\\X\\A.lua".to_string(), "Interface\\B.xml".to_string()])
    );
    assert_eq!(xml_references("x.xml", b"<a><b></a>"), Err(WalkError::Xml));
}

#[test]
fn seed_manifest_names() {
    assert_eq!(
        toc_candidates("Interface\\FrameXML\\", "wow"),
        Some(("Interface\\FrameXML\\FrameXML_wow.toc".to_string(), "Interface\\FrameXML\\FrameXML.toc".to_string()))
    );
    assert_eq!(toc_candidates("", "wow"), None);
}

#[test]
fn file_names_compare_in_lower_case() {
    let mut names = FileNames::new();
    names.add(7, &vec!["Interface\\".to_string(), "Foo.LUA".to_string()]);
    names.add(8, &vec!["x".to_string()]);
    names.add(9, &vec!["X".to_string()]);
    assert_eq!(names.find("INTERFACE\\foo.lua"), Some(FileDataID(7)));
    assert_eq!(names.find("x"), Some(FileDataID(9)));
    assert_eq!(names.find("nothing"), None);
}

#[test]
fn references_by_file_kind() {
    assert_eq!(references("D\\a.toc", b"x.lua\n"), Ok(vec!["D\\x.lua".to_string()]));
    assert_eq!(references("D\\a.xml", b"<Ui><Script file=\"y.lua\"/></Ui>"), Ok(vec!["D\\y.lua".to_string()]));
    assert_eq!(references("D\\a.lua", b"print(1)"), Ok(vec![]));
    assert_eq!(references("D\\a.toc", &[0xff]), Err(WalkError::NotText));
}
