//! The archive container boundary: reading an in-memory archive into
//! entries, and writing entries back out, through the zip crate.
//!
//! Parsing and encoding are pure computations on bytes, so they stand here
//! behind trusted wrappers; everything between them — the traversal guard,
//! the patch passes, the file filter — is verified. Both codec directions
//! are functions of their input alone, so each is named: `parsed_entries`
//! and `zipped_bytes` for the values, `zip_parse_ok` and `entry_readable`
//! for when reading succeeds, `utf8_name` and `writer_ok` for when writing
//! does (the writer uses the crate's default options with their fixed
//! timestamp).

use vstd::prelude::*;
use crate::archive::{
    Entry, UnproError, evs, extract_spec, extract_entries, unlock_xlsx_workbook,
    unlock_xlsx_worksheets, keep_file_entries, file_entries, rebuilt_spec, has_workbook,
    has_worksheets_tree, wb_step,
};

verus! {

/// An open archive writer over an in-memory buffer. The writer's type
/// carries trait bounds that cannot be declared here, so it is held opaque
/// in this struct; `written_entries` and `writer_ok` name what it holds.
#[verifier::external_body]
pub struct ArchiveWriter {
    inner: zip::ZipWriter<std::io::Cursor<Vec<u8>>>,
}

#[verifier::external_type_specification]
#[verifier::external_body]
pub struct ExZipError(zip::result::ZipError);

/// The central directory of the archive's bytes parses.
pub uninterp spec fn zip_parse_ok(bytes: Seq<u8>) -> bool;

/// The entries encoded in an archive's bytes: what parsing them yields.
pub uninterp spec fn parsed_entries(bytes: Seq<u8>) -> Seq<(Seq<u8>, Seq<u8>)>;

/// Entry `i` of the archive's bytes can be read: its content decompresses
/// and passes its checks, with no password needed.
pub uninterp spec fn entry_readable(bytes: Seq<u8>, i: int) -> bool;

/// The name bytes are valid UTF-8, as the container requires of a stored
/// entry path.
pub uninterp spec fn utf8_name(name: Seq<u8>) -> bool;

/// The entries written into an open archive writer so far, in order.
pub uninterp spec fn written_entries(w: ArchiveWriter) -> Seq<(Seq<u8>, Seq<u8>)>;

/// The writer is in a clean state: open, with everything written so far
/// within the container's bounds, so that further writes of bounded entries
/// and the final close cannot fail.
pub uninterp spec fn writer_ok(w: ArchiveWriter) -> bool;

/// The bytes that closing a writer over the given entries produces.
pub uninterp spec fn zipped_bytes(entries: Seq<(Seq<u8>, Seq<u8>)>) -> Seq<u8>;

/// An entry content size that is safely storable: the container records
/// sizes in 32 bits, and the compressed form can exceed the stored bytes by
/// a small bounded overhead, so staying this far under the 32-bit bound
/// guarantees that neither size can cross it.
pub open spec fn max_entry_bytes() -> int {
    0xff000000
}

/// Relies on zip::ZipArchive::new and zip::ZipArchive::len: whether an
/// in-memory archive's central directory parses, and how many entries it
/// holds, are functions of the bytes alone.
#[verifier::external_body]
fn zip_probe(bytes: &Vec<u8>) -> (r: Result<usize, zip::result::ZipError>)
    ensures
        r is Ok <==> zip_parse_ok(bytes@),
        r matches Ok(n) ==> n == parsed_entries(bytes@).len(),
{
    Ok(zip::ZipArchive::new(std::io::Cursor::new(bytes.clone()))?.len())
}

/// Relies on zip::ZipArchive::by_index_decrypt: reading one entry of the
/// archive parsed from the bytes decodes its name (ZipFile::name) and
/// decompresses its content (io::Read); whether that succeeds, and what it
/// yields, are functions of the bytes and the index alone. by_index_decrypt
/// hands the password-mismatch case back as a value, so no crafted entry can
/// panic the read; an entry that would need a password fails like any other
/// unreadable entry.
#[verifier::external_body]
fn zip_entry(bytes: &Vec<u8>, i: usize) -> (r: Result<(Vec<u8>, Vec<u8>), UnproError>)
    requires
        zip_parse_ok(bytes@),
        i < parsed_entries(bytes@).len(),
    ensures
        r is Ok <==> entry_readable(bytes@, i as int),
        r matches Ok(e) ==> e.0@ == parsed_entries(bytes@)[i as int].0 && e.1@ == parsed_entries(
            bytes@,
        )[i as int].1,
        r matches Err(e) ==> e == UnproError::ArchiveRead,
{
    let mut z = match zip::ZipArchive::new(std::io::Cursor::new(bytes.clone())) {
        Ok(z) => z,
        Err(_) => return Err(UnproError::ArchiveRead),
    };
    let mut f = match z.by_index_decrypt(i, b"") {
        Ok(Ok(f)) => f,
        _ => return Err(UnproError::ArchiveRead),
    };
    let name = f.name().as_bytes().to_vec();
    let mut data = Vec::new();
    if std::io::Read::read_to_end(&mut f, &mut data).is_err() {
        return Err(UnproError::ArchiveRead);
    }
    Ok((name, data))
}

/// Relies on zip::ZipWriter::new over an empty in-memory buffer: a fresh
/// writer holds no entries and is clean.
#[verifier::external_body]
fn zip_writer_new() -> (w: ArchiveWriter)
    ensures
        written_entries(w) == Seq::<(Seq<u8>, Seq<u8>)>::empty(),
        writer_ok(w),
{
    ArchiveWriter { inner: zip::ZipWriter::new(std::io::Cursor::new(Vec::new())) }
}

/// Relies on zip::ZipWriter::start_file and io::Write::write_all: on success
/// exactly one entry with the given path and content has been appended,
/// stored with the crate's default options. Writing to an in-memory buffer
/// cannot fail, so on a clean writer the call succeeds whenever the path is
/// UTF-8 and the content stays under the size bound; a non-UTF-8 path, or an
/// entry so large that a stored size could overflow the container's 32-bit
/// fields, is reported as a build error.
#[verifier::external_body]
fn zip_add(w: &mut ArchiveWriter, name: &Vec<u8>, data: &Vec<u8>) -> (r: Result<(), UnproError>)
    ensures
        r is Ok ==> written_entries(*final(w)) == written_entries(*old(w)).push((name@, data@)),
        writer_ok(*old(w)) && utf8_name(name@) && data@.len() < max_entry_bytes() ==> r is Ok
            && writer_ok(*final(w)),
        r matches Err(e) ==> e == UnproError::Build,
{
    let n = match std::string::String::from_utf8(name.clone()) {
        Ok(n) => n,
        Err(_) => return Err(UnproError::Build),
    };
    if w.inner.start_file(n, zip::write::FileOptions::default()).is_err() {
        return Err(UnproError::Build);
    }
    if std::io::Write::write_all(&mut w.inner, data.as_slice()).is_err() {
        return Err(UnproError::Build);
    }
    Ok(())
}

/// Relies on zip::ZipWriter::finish: closing the archive writes the central
/// directory, which cannot fail on a clean writer over memory, and yields
/// bytes that are a function of the written entries alone — the default
/// options carry a fixed timestamp, and the encoding is deterministic.
#[verifier::external_body]
fn zip_finish(w: ArchiveWriter) -> (r: Result<Vec<u8>, zip::result::ZipError>)
    ensures
        writer_ok(w) ==> r is Ok,
        r matches Ok(b) ==> b@ == zipped_bytes(written_entries(w)),
{
    let mut w = w;
    Ok(w.inner.finish()?.into_inner())
}

/// Read an archive's bytes and extract them into the working tree: every
/// entry in table order, under the directory-traversal guard. Succeeds if
/// and only if the bytes parse as an archive and every entry can be read;
/// anything else is an archive-read failure.
pub fn decompress_xlsx(bytes: &Vec<u8>) -> (r: Result<Vec<Entry>, UnproError>)
    ensures
        r matches Ok(files) ==> evs(files@) == extract_spec(parsed_entries(bytes@)),
        r is Ok <==> zip_parse_ok(bytes@) && (forall|i: int|
            0 <= i < parsed_entries(bytes@).len() ==> entry_readable(bytes@, i)),
        r matches Err(e) ==> e == UnproError::ArchiveRead,
{
    let n = match zip_probe(bytes) {
        Ok(n) => n,
        Err(_) => return Err(UnproError::ArchiveRead),
    };
    let mut raw: Vec<Entry> = Vec::new();
    let mut i: usize = 0;
    proof {
        assert(evs(raw@) =~= parsed_entries(bytes@).take(0));
    }
    while i < n
        invariant
            i <= n,
            zip_parse_ok(bytes@),
            n == parsed_entries(bytes@).len(),
            evs(raw@) == parsed_entries(bytes@).take(i as int),
            forall|j: int| 0 <= j < i ==> entry_readable(bytes@, j),
        decreases n - i,
    {
        let ghost pre = evs(raw@);
        let (name, data) = match zip_entry(bytes, i) {
            Ok(e) => e,
            Err(_) => return Err(UnproError::ArchiveRead),
        };
        raw.push(Entry { name, data });
        proof {
            assert(evs(raw@) =~= pre.push(parsed_entries(bytes@)[i as int]));
            assert(evs(raw@) =~= parsed_entries(bytes@).take(i + 1));
        }
        i += 1;
    }
    proof {
        assert(parsed_entries(bytes@).take(parsed_entries(bytes@).len() as int) =~= parsed_entries(
            bytes@,
        ));
    }
    Ok(extract_entries(&raw))
}

/// Every file entry of the tree can be stored: a UTF-8 path and a content
/// size safely under the container's bound.
pub open spec fn storable(es: Seq<(Seq<u8>, Seq<u8>)>) -> bool {
    forall|k: int|
        0 <= k < es.len() ==> utf8_name(#[trigger] es[k].0) && es[k].1.len() < max_entry_bytes()
}

/// Write the tree's file entries, in order, into a new in-memory archive.
/// Succeeds whenever every file entry is storable; a failure to store an
/// entry or to close the container is a build failure.
pub fn compress_xlsx(files: &Vec<Entry>) -> (r: Result<Vec<u8>, UnproError>)
    ensures
        r matches Ok(b) ==> b@ == zipped_bytes(file_entries(evs(files@))),
        storable(file_entries(evs(files@))) ==> r is Ok,
        r matches Err(e) ==> e == UnproError::Build,
{
    let keep = keep_file_entries(files);
    let mut w = zip_writer_new();
    let mut i: usize = 0;
    proof {
        assert(written_entries(w) =~= evs(keep@).take(0));
    }
    while i < keep.len()
        invariant
            i <= keep@.len(),
            evs(keep@) == file_entries(evs(files@)),
            written_entries(w) == evs(keep@).take(i as int),
            storable(evs(keep@)) ==> writer_ok(w),
        decreases keep@.len() - i,
    {
        let ghost pre = written_entries(w);
        let e = &keep[i];
        proof {
            if storable(evs(keep@)) {
                assert(utf8_name(evs(keep@)[i as int].0));
            }
        }
        match zip_add(&mut w, &e.name, &e.data) {
            Ok(()) => {}
            Err(_) => {
                proof {
                    if storable(evs(keep@)) {
                        assert(utf8_name(evs(keep@)[i as int].0));
                    }
                }
                return Err(UnproError::Build);
            }
        }
        proof {
            assert(written_entries(w) =~= pre.push(evs(keep@)[i as int]));
            assert(written_entries(w) =~= evs(keep@).take(i + 1));
        }
        i += 1;
    }
    proof {
        assert(evs(keep@).take(keep@.len() as int) =~= evs(keep@));
    }
    match zip_finish(w) {
        Ok(b) => Ok(b),
        Err(_) => Err(UnproError::Build),
    }
}

/// One whole run over one archive: extract, unlock the workbook, unlock the
/// worksheets, rebuild. On success the output's bytes encode exactly the
/// rebuilt tree, and success is owed whenever the bytes parse, every entry
/// reads, the tree holds the workbook descriptor and the worksheets subtree,
/// and every rebuilt entry is storable; a missing descriptor or subtree is
/// reported as such, and the original bytes are never touched.
pub fn unpro_xlsx(bytes: &Vec<u8>) -> (r: Result<Vec<u8>, UnproError>)
    ensures
        r matches Ok(b) ==> b@ == zipped_bytes(rebuilt_spec(parsed_entries(bytes@))),
        zip_parse_ok(bytes@) && (forall|i: int|
            0 <= i < parsed_entries(bytes@).len() ==> entry_readable(bytes@, i)) && has_workbook(
            extract_spec(parsed_entries(bytes@)),
        ) && has_worksheets_tree(extract_spec(parsed_entries(bytes@))) && storable(
            rebuilt_spec(parsed_entries(bytes@)),
        ) ==> r is Ok,
        r matches Err(e) ==> e == UnproError::ArchiveRead || e == UnproError::WorkbookMissing || e
            == UnproError::WorksheetsMissing || e == UnproError::Build,
        r matches Err(e) && e == UnproError::WorkbookMissing ==> !has_workbook(
            extract_spec(parsed_entries(bytes@)),
        ),
        r matches Err(e) && e == UnproError::WorksheetsMissing ==> has_workbook(
            extract_spec(parsed_entries(bytes@)),
        ) && !has_worksheets_tree(extract_spec(parsed_entries(bytes@))),
{
    let files = match decompress_xlsx(bytes) {
        Ok(f) => f,
        Err(e) => return Err(e),
    };
    let unlocked = match unlock_xlsx_workbook(&files) {
        Ok(f) => f,
        Err(e) => return Err(e),
    };
    proof {
        let ex = extract_spec(parsed_entries(bytes@));
        assert(has_worksheets_tree(wb_step(ex)) == has_worksheets_tree(ex)) by {
            if has_worksheets_tree(wb_step(ex)) {
                let k = choose|k: int|
                    0 <= k < wb_step(ex).len() && crate::names::fills_worksheets_tree(
                        wb_step(ex)[k].0,
                    );
                assert(wb_step(ex)[k].0 == ex[k].0);
                assert(crate::names::fills_worksheets_tree(ex[k].0));
            }
            if has_worksheets_tree(ex) {
                let k = choose|k: int|
                    0 <= k < ex.len() && crate::names::fills_worksheets_tree(ex[k].0);
                assert(wb_step(ex)[k].0 == ex[k].0);
                assert(crate::names::fills_worksheets_tree(wb_step(ex)[k].0));
            }
        }
    }
    let patched = match unlock_xlsx_worksheets(&unlocked) {
        Ok(f) => f,
        Err(e) => return Err(e),
    };
    compress_xlsx(&patched)
}

} // verus!
