use std::io::{Cursor, Read, Write};
use unpro_xlsx::archive::UnproError;
use unpro_xlsx::batch::{eligible_xlsx_files, file_stem, output_name, should_proceed};
use unpro_xlsx::zipio::unpro_xlsx;

fn build_zip(entries: &[(&str, &[u8])]) -> Vec<u8> {
    let mut w = zip::ZipWriter::new(Cursor::new(Vec::new()));
    let opts = zip::write::FileOptions::default();
    for (name, data) in entries {
        w.start_file(*name, opts).unwrap();
        w.write_all(data).unwrap();
    }
    w.finish().unwrap().into_inner()
}

fn read_zip(bytes: &[u8]) -> Vec<(String, Vec<u8>)> {
    let mut z = zip::ZipArchive::new(Cursor::new(bytes.to_vec())).unwrap();
    let mut out = Vec::new();
    for i in 0..z.len() {
        let mut f = z.by_index(i).unwrap();
        let name = f.name().to_string();
        let mut data = Vec::new();
        f.read_to_end(&mut data).unwrap();
        out.push((name, data));
    }
    out
}

#[test]
fn end_to_end_unprotects_workbook_and_sheet() {
    let workbook = b"<workbook><workbookProtection lockStructure=\"1\"/><sheets><sheet sheetId=\"1\"/><sheet state=\"hidden\" sheetId=\"2\"/></sheets></workbook>";
    let sheet = b"<worksheet><sheetProtection password=\"abc\" sheet=\"1\"/><sheetData/></worksheet>";
    let other = b"other content";
    let input = build_zip(&[
        ("xl/workbook.xml", workbook),
        ("xl/worksheets/sheet1.xml", sheet),
        ("docProps/app.xml", other),
    ]);
    let output = unpro_xlsx(&input).unwrap();
    let entries = read_zip(&output);
    assert_eq!(entries.len(), 3);
    assert_eq!(entries[0].0, "xl/workbook.xml");
    assert_eq!(
        entries[0].1,
        b"<workbook><sheets><sheet sheetId=\"1\"/><sheet sheetId=\"2\"/></sheets></workbook>".to_vec()
    );
    assert_eq!(entries[1].0, "xl/worksheets/sheet1.xml");
    assert_eq!(entries[1].1, b"<worksheet><sheetData/></worksheet>".to_vec());
    assert_eq!(entries[2].0, "docProps/app.xml");
    assert_eq!(entries[2].1, other.to_vec());
}

#[test]
fn unprotected_input_round_trips_byte_identical_documents() {
    let workbook = b"<workbook><sheets><sheet sheetId=\"1\"/></sheets></workbook>";
    let sheet = b"<worksheet><sheetData/></worksheet>";
    let input = build_zip(&[
        ("xl/workbook.xml", workbook),
        ("xl/worksheets/sheet1.xml", sheet),
    ]);
    let output = unpro_xlsx(&input).unwrap();
    let entries = read_zip(&output);
    assert_eq!(entries.len(), 2);
    assert_eq!(entries[0].1, workbook.to_vec());
    assert_eq!(entries[1].1, sheet.to_vec());
}

#[test]
fn entry_paths_survive_the_round_trip() {
    let input = build_zip(&[
        ("xl/workbook.xml", b"<w/>"),
        ("xl/worksheets/sheet1.xml", b"<s/>"),
        ("xl/styles.xml", b"<st/>"),
        ("docProps/core.xml", b"<c/>"),
    ]);
    let output = unpro_xlsx(&input).unwrap();
    let names: Vec<String> = read_zip(&output).into_iter().map(|e| e.0).collect();
    assert_eq!(
        names,
        vec![
            "xl/workbook.xml".to_string(),
            "xl/worksheets/sheet1.xml".to_string(),
            "xl/styles.xml".to_string(),
            "docProps/core.xml".to_string(),
        ]
    );
}

#[test]
fn traversal_entry_is_skipped_not_fatal() {
    let input = build_zip(&[
        ("xl/workbook.xml", b"<w/>"),
        ("../evil.txt", b"boom"),
        ("xl/worksheets/sheet1.xml", b"<s/>"),
    ]);
    let output = unpro_xlsx(&input).unwrap();
    let names: Vec<String> = read_zip(&output).into_iter().map(|e| e.0).collect();
    assert_eq!(
        names,
        vec!["xl/workbook.xml".to_string(), "xl/worksheets/sheet1.xml".to_string()]
    );
}

/// A hand-built archive whose central directory carries an AES extra field
/// (kind 0x9901) on an entry whose encrypted flag is clear. Such bytes parse
/// as an archive, but the entry asks for a password it cannot have.
fn crafted_aes_extra_field_zip() -> Vec<u8> {
    let mut b: Vec<u8> = Vec::new();
    // local file header for "a", stored, 1 byte of content
    b.extend_from_slice(b"PK\x03\x04");
    b.extend_from_slice(&[20, 0]); // version needed
    b.extend_from_slice(&[0, 0]); // flags: not encrypted
    b.extend_from_slice(&[0, 0]); // method: stored
    b.extend_from_slice(&[0, 0, 0, 0]); // mod time and date
    b.extend_from_slice(&[0, 0, 0, 0]); // crc32
    b.extend_from_slice(&[1, 0, 0, 0]); // compressed size
    b.extend_from_slice(&[1, 0, 0, 0]); // uncompressed size
    b.extend_from_slice(&[1, 0]); // name length
    b.extend_from_slice(&[0, 0]); // extra length
    b.extend_from_slice(b"a");
    b.extend_from_slice(b"x"); // entry content; central directory at offset 32
    // central directory header
    b.extend_from_slice(b"PK\x01\x02");
    b.extend_from_slice(&[20, 0, 20, 0]); // version made by, version needed
    b.extend_from_slice(&[0, 0]); // flags: not encrypted
    b.extend_from_slice(&[0, 0]); // method: stored
    b.extend_from_slice(&[0, 0, 0, 0]); // mod time and date
    b.extend_from_slice(&[0, 0, 0, 0]); // crc32
    b.extend_from_slice(&[1, 0, 0, 0]); // compressed size
    b.extend_from_slice(&[1, 0, 0, 0]); // uncompressed size
    b.extend_from_slice(&[1, 0]); // name length
    b.extend_from_slice(&[11, 0]); // extra length
    b.extend_from_slice(&[0, 0]); // comment length
    b.extend_from_slice(&[0, 0]); // disk number start
    b.extend_from_slice(&[0, 0]); // internal attributes
    b.extend_from_slice(&[0, 0, 0, 0]); // external attributes
    b.extend_from_slice(&[0, 0, 0, 0]); // local header offset
    b.extend_from_slice(b"a");
    // AES extra field: kind 0x9901, length 7, AE-1, vendor "AE", AES-128, stored
    b.extend_from_slice(&[0x01, 0x99, 7, 0, 1, 0]);
    b.extend_from_slice(b"AE");
    b.extend_from_slice(&[1, 0, 0]);
    // end of central directory: 1 entry, size 58, offset 32
    b.extend_from_slice(b"PK\x05\x06");
    b.extend_from_slice(&[0, 0, 0, 0]); // disk numbers
    b.extend_from_slice(&[1, 0, 1, 0]); // entry counts
    b.extend_from_slice(&[58, 0, 0, 0]);
    b.extend_from_slice(&[32, 0, 0, 0]);
    b.extend_from_slice(&[0, 0]); // comment length
    b
}

#[test]
fn crafted_password_entry_fails_cleanly() {
    // The run must report the unreadable entry as an error, not panic.
    let input = crafted_aes_extra_field_zip();
    assert_eq!(unpro_xlsx(&input).unwrap_err(), UnproError::ArchiveRead);
}

#[test]
fn unreadable_bytes_report_archive_read() {
    let garbage = b"this is not an archive".to_vec();
    assert_eq!(unpro_xlsx(&garbage).unwrap_err(), UnproError::ArchiveRead);
}

#[test]
fn missing_workbook_is_reported() {
    let input = build_zip(&[("xl/worksheets/sheet1.xml", b"<s/>")]);
    assert_eq!(unpro_xlsx(&input).unwrap_err(), UnproError::WorkbookMissing);
}

#[test]
fn missing_worksheets_tree_is_reported() {
    let input = build_zip(&[("xl/workbook.xml", b"<w/>")]);
    assert_eq!(unpro_xlsx(&input).unwrap_err(), UnproError::WorksheetsMissing);
}

#[test]
fn batch_listing_keeps_only_eligible_archives() {
    let names = vec![b"a.xlsx".to_vec(), b"notes.txt".to_vec(), b"b.xlsx".to_vec()];
    let eligible = eligible_xlsx_files(&names);
    assert_eq!(eligible, vec![b"a.xlsx".to_vec(), b"b.xlsx".to_vec()]);
}

#[test]
fn batch_scenario_processes_two_archives_and_skips_the_rest() {
    let listing = vec![b"one.xlsx".to_vec(), b"readme.md".to_vec(), b"two.xlsx".to_vec()];
    let eligible = eligible_xlsx_files(&listing);
    assert_eq!(eligible.len(), 2);
    let mut outputs = Vec::new();
    for name in &eligible {
        let input = build_zip(&[
            ("xl/workbook.xml", b"<w><workbookProtection a=\"1\"/></w>"),
            ("xl/worksheets/sheet1.xml", b"<s/>"),
        ]);
        let output = unpro_xlsx(&input).unwrap();
        let out_name = output_name(&file_stem(name));
        outputs.push((out_name, output));
    }
    assert_eq!(outputs[0].0, b"one_unpro.xlsx".to_vec());
    assert_eq!(outputs[1].0, b"two_unpro.xlsx".to_vec());
    for (_, bytes) in &outputs {
        let entries = read_zip(bytes);
        assert_eq!(entries[0].1, b"<w></w>".to_vec());
    }
}

#[test]
fn file_stem_takes_the_basename_without_extension() {
    assert_eq!(file_stem(&b"book.xlsx".to_vec()), b"book".to_vec());
    assert_eq!(file_stem(&b"dir/sub/book.v2.xlsx".to_vec()), b"book.v2".to_vec());
    assert_eq!(file_stem(&b"noext".to_vec()), b"noext".to_vec());
    assert_eq!(file_stem(&b".hidden".to_vec()), b".hidden".to_vec());
}

#[test]
fn output_name_appends_the_fixed_suffix() {
    assert_eq!(output_name(&b"book".to_vec()), b"book_unpro.xlsx".to_vec());
}

#[test]
fn confirmation_aborts_only_on_n() {
    assert!(!should_proceed(&b"n\n".to_vec()));
    assert!(!should_proceed(&b"  n  \r\n".to_vec()));
    assert!(should_proceed(&b"\n".to_vec()));
    assert!(should_proceed(&b"y\n".to_vec()));
    assert!(should_proceed(&b"no\n".to_vec()));
}
