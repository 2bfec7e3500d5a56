use unpro_xlsx::patch::{patch_workbook_bytes, rm_protection, strip_tag, strip_lit, wb_tag_vec, sheet_tag_vec, hidden_attr_vec};

#[test]
fn removes_workbook_protection_element() {
    let content = b"<workbook><workbookProtection lockStructure=\"1\"/><sheets/></workbook>".to_vec();
    let out = patch_workbook_bytes(&content);
    assert_eq!(out, b"<workbook><sheets/></workbook>".to_vec());
}

#[test]
fn removes_hidden_state_attribute_everywhere() {
    let content =
        b"<sheets><sheet state=\"hidden\" sheetId=\"2\"/><sheet state=\"hidden\" sheetId=\"3\"/></sheets>"
            .to_vec();
    let out = patch_workbook_bytes(&content);
    assert_eq!(
        out,
        b"<sheets><sheet sheetId=\"2\"/><sheet sheetId=\"3\"/></sheets>".to_vec()
    );
}

#[test]
fn removes_protection_and_hidden_together() {
    let content = b"<workbook><workbookProtection lockStructure=\"1\"/><sheet state=\"hidden\" sheetId=\"2\"/></workbook>".to_vec();
    let out = patch_workbook_bytes(&content);
    assert_eq!(
        out,
        b"<workbook><sheet sheetId=\"2\"/></workbook>".to_vec()
    );
}

#[test]
fn workbook_without_markers_is_unchanged() {
    let content = b"<workbook><sheets><sheet sheetId=\"1\"/></sheets></workbook>".to_vec();
    let out = patch_workbook_bytes(&content);
    assert_eq!(out, content);
}

#[test]
fn removes_sheet_protection_element() {
    let content = b"<worksheet><sheetProtection password=\"abc\" sheet=\"1\"/><sheetData/></worksheet>".to_vec();
    let out = rm_protection(&content);
    assert_eq!(out, b"<worksheet><sheetData/></worksheet>".to_vec());
}

#[test]
fn sheet_without_marker_is_unchanged() {
    let content = b"<worksheet><sheetData/></worksheet>".to_vec();
    let out = rm_protection(&content);
    assert_eq!(out, content);
}

#[test]
fn match_is_non_greedy() {
    // Two elements on one line: each removal must stop at the first `/>`.
    let content = b"<a/><sheetProtection x=\"1\"/><b/><sheetProtection y=\"2\"/><c/>".to_vec();
    let out = rm_protection(&content);
    assert_eq!(out, b"<a/><b/><c/>".to_vec());
}

#[test]
fn multi_line_element_passes_through() {
    // The match never spans a newline, so a multi-line element stays.
    let content = b"<worksheet><sheetProtection\n password=\"abc\"/></worksheet>".to_vec();
    let out = rm_protection(&content);
    assert_eq!(out, content);
}

#[test]
fn close_on_same_line_after_newline_elsewhere() {
    let content = b"<x/>\n<sheetProtection a=\"1\"/>\n<y/>".to_vec();
    let out = rm_protection(&content);
    assert_eq!(out, b"<x/>\n\n<y/>".to_vec());
}

#[test]
fn strip_tag_takes_first_close() {
    let tag = wb_tag_vec();
    let content = b"pre<workbookProtection a/>post".to_vec();
    let out = strip_tag(&content, &tag);
    assert_eq!(out, b"prepost".to_vec());
}

#[test]
fn strip_lit_removes_every_occurrence() {
    let lit = hidden_attr_vec();
    let content = b"a state=\"hidden\" b state=\"hidden\" c".to_vec();
    let out = strip_lit(&content, &lit);
    assert_eq!(out, b"a b c".to_vec());
}

#[test]
fn removal_never_rescans_what_it_joins() {
    // The scan continues after a removal, so text spliced together by the
    // cut is not examined again, even when it happens to spell a marker.
    let content = b"<workbookProtec<workbookProtection x/>tion y/>".to_vec();
    let tag = wb_tag_vec();
    let out = strip_tag(&content, &tag);
    assert_eq!(out, b"<workbookProtection y/>".to_vec());
}

#[test]
fn tag_vectors_hold_the_expected_text() {
    assert_eq!(wb_tag_vec(), b"<workbookProtection".to_vec());
    assert_eq!(sheet_tag_vec(), b"<sheetProtection".to_vec());
    assert_eq!(hidden_attr_vec(), b"state=\"hidden\" ".to_vec());
}
