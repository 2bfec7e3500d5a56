use unpro_xlsx::archive::{
    Entry, UnproError, extract_entries, unlock_xlsx_workbook, unlock_xlsx_worksheets,
    keep_file_entries,
};
use unpro_xlsx::names::{check_safe_name, check_worksheet_doc, check_xlsx_name};

fn entry(name: &[u8], data: &[u8]) -> Entry {
    Entry { name: name.to_vec(), data: data.to_vec() }
}

#[test]
fn safe_names_accepted() {
    assert!(check_safe_name(&b"xl/workbook.xml".to_vec()));
    assert!(check_safe_name(&b"a/..b/c".to_vec()));
    assert!(check_safe_name(&b"a/b../c".to_vec()));
    assert!(check_safe_name(&b"xl/worksheets/".to_vec()));
    assert!(check_safe_name(&b"./a".to_vec()));
}

#[test]
fn unsafe_names_rejected() {
    assert!(!check_safe_name(&b"".to_vec()));
    assert!(!check_safe_name(&b"/etc/passwd".to_vec()));
    assert!(!check_safe_name(&b"..".to_vec()));
    assert!(!check_safe_name(&b"../evil.txt".to_vec()));
    assert!(!check_safe_name(&b"a/../b".to_vec()));
    assert!(!check_safe_name(&b"a/b/..".to_vec()));
    assert!(!check_safe_name(&b"a\0b".to_vec()));
}

#[test]
fn worksheet_doc_classification() {
    assert!(check_worksheet_doc(&b"xl/worksheets/sheet1.xml".to_vec()));
    assert!(check_worksheet_doc(&b"xl/worksheets/deep/sheet2.xml".to_vec()));
    assert!(!check_worksheet_doc(&b"xl/worksheets/notes.txt".to_vec()));
    assert!(!check_worksheet_doc(&b"xl/workbook.xml".to_vec()));
    assert!(!check_worksheet_doc(&b"xl/worksheets/".to_vec()));
}

#[test]
fn xlsx_name_classification() {
    assert!(check_xlsx_name(&b"book.xlsx".to_vec()));
    assert!(!check_xlsx_name(&b"book.xls".to_vec()));
    assert!(!check_xlsx_name(&b"notes.txt".to_vec()));
}

#[test]
fn extraction_skips_traversal_entries() {
    let raw = vec![
        entry(b"ok.txt", b"a"),
        entry(b"../evil.txt", b"b"),
        entry(b"/abs.txt", b"c"),
        entry(b"sub/ok2.txt", b"d"),
    ];
    let out = extract_entries(&raw);
    let names: Vec<Vec<u8>> = out.iter().map(|e| e.name.clone()).collect();
    assert_eq!(names, vec![b"ok.txt".to_vec(), b"sub/ok2.txt".to_vec()]);
}

#[test]
fn extraction_keeps_last_content_for_repeated_path() {
    let raw = vec![entry(b"a.txt", b"first"), entry(b"b.txt", b"x"), entry(b"a.txt", b"second")];
    let out = extract_entries(&raw);
    assert_eq!(out.len(), 2);
    assert_eq!(out[0].name, b"a.txt".to_vec());
    assert_eq!(out[0].data, b"second".to_vec());
    assert_eq!(out[1].name, b"b.txt".to_vec());
}

#[test]
fn unlock_workbook_patches_only_the_descriptor() {
    let files = vec![
        entry(b"xl/workbook.xml", b"<w><workbookProtection x=\"1\"/></w>"),
        entry(b"other.xml", b"<w><workbookProtection x=\"1\"/></w>"),
    ];
    let out = unlock_xlsx_workbook(&files).unwrap();
    assert_eq!(out[0].data, b"<w></w>".to_vec());
    assert_eq!(out[1].data, b"<w><workbookProtection x=\"1\"/></w>".to_vec());
}

#[test]
fn unlock_workbook_fails_without_descriptor() {
    let files = vec![entry(b"other.xml", b"<w/>")];
    assert_eq!(unlock_xlsx_workbook(&files).unwrap_err(), UnproError::WorkbookMissing);
}

#[test]
fn unlock_worksheets_patches_each_document() {
    let files = vec![
        entry(b"xl/worksheets/sheet1.xml", b"<s><sheetProtection a=\"1\"/></s>"),
        entry(b"xl/worksheets/sheet2.xml", b"<s>plain</s>"),
        entry(b"xl/media/img.xml", b"<s><sheetProtection a=\"1\"/></s>"),
    ];
    let out = unlock_xlsx_worksheets(&files).unwrap();
    assert_eq!(out[0].data, b"<s></s>".to_vec());
    assert_eq!(out[1].data, b"<s>plain</s>".to_vec());
    assert_eq!(out[2].data, b"<s><sheetProtection a=\"1\"/></s>".to_vec());
}

#[test]
fn unlock_worksheets_accepts_bare_subtree_entry() {
    let files = vec![entry(b"xl/worksheets/", b"")];
    let out = unlock_xlsx_worksheets(&files).unwrap();
    assert_eq!(out.len(), 1);
}

#[test]
fn unlock_worksheets_fails_without_subtree() {
    let files = vec![entry(b"xl/workbook.xml", b"<w/>")];
    assert_eq!(unlock_xlsx_worksheets(&files).unwrap_err(), UnproError::WorksheetsMissing);
}

#[test]
fn file_filter_drops_directory_entries() {
    let files = vec![entry(b"xl/", b""), entry(b"xl/workbook.xml", b"<w/>"), entry(b"xl/worksheets/", b"")];
    let out = keep_file_entries(&files);
    assert_eq!(out.len(), 1);
    assert_eq!(out[0].name, b"xl/workbook.xml".to_vec());
}
