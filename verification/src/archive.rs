//! The archive model: an ordered collection of (path, content) entries, the
//! extraction step with its directory-traversal guard, the two patch passes,
//! and the file filter that the rebuild applies.
//!
//! Extraction mirrors writing entries into a fresh working tree: unsafe paths
//! are skipped, a path written twice keeps the content written last, and
//! directory entries create the tree but carry no content. The rebuild then
//! collects the file entries, in order, with the patched documents' content.

use vstd::prelude::*;
use crate::patch::{
    patched_workbook, patched_sheet, patch_workbook_bytes, rm_protection, has_marker, has_literal,
    wb_tag, sheet_tag, hidden_attr, lemma_patched_workbook_identity, lemma_patched_sheet_identity,
};
use crate::names::{
    is_safe_name, is_dir_name, is_worksheet_doc, fills_worksheets_tree, workbook_name,
    check_safe_name, check_dir_name, check_worksheet_doc, check_fills_worksheets_tree,
    workbook_name_vec, bytes_eq, clone_bytes,
};

verus! {

/// One archive entry: a forward-slash path and the entry's content.
#[derive(Debug)]
pub struct Entry {
    pub name: Vec<u8>,
    pub data: Vec<u8>,
}

impl View for Entry {
    type V = (Seq<u8>, Seq<u8>);

    open spec fn view(&self) -> (Seq<u8>, Seq<u8>) {
        (self.name@, self.data@)
    }
}

/// The entries of a sequence, as (path, content) pairs.
pub open spec fn evs(es: Seq<Entry>) -> Seq<(Seq<u8>, Seq<u8>)> {
    es.map_values(|e: Entry| e@)
}

/// Why a run over one archive stopped.
#[derive(Clone, Copy, PartialEq, Eq, Structural, Debug)]
pub enum UnproError {
    /// The input could not be read as an archive.
    ArchiveRead,
    /// The extracted tree holds no workbook descriptor.
    WorkbookMissing,
    /// The extracted tree holds no worksheets subtree.
    WorksheetsMissing,
    /// The output archive could not be built.
    Build,
}

/// Some entry of `es` carries the path `n`.
pub open spec fn has_name(es: Seq<(Seq<u8>, Seq<u8>)>, n: Seq<u8>) -> bool {
    exists|k: int| 0 <= k < es.len() && es[k].0 == n
}

/// The index of the entry that carries the path `n`.
pub open spec fn name_index(es: Seq<(Seq<u8>, Seq<u8>)>, n: Seq<u8>) -> int {
    choose|k: int| 0 <= k < es.len() && es[k].0 == n
}

/// Writing one entry into the working tree: an unsafe path is skipped, a
/// path already present keeps its place and takes the new content, a new
/// path is appended.
pub open spec fn extract_step(acc: Seq<(Seq<u8>, Seq<u8>)>, e: (Seq<u8>, Seq<u8>)) -> Seq<
    (Seq<u8>, Seq<u8>),
> {
    if !is_safe_name(e.0) {
        acc
    } else if has_name(acc, e.0) {
        acc.update(name_index(acc, e.0), e)
    } else {
        acc.push(e)
    }
}

/// The working tree after extracting every entry of `raw`, in order.
pub open spec fn extract_spec(raw: Seq<(Seq<u8>, Seq<u8>)>) -> Seq<(Seq<u8>, Seq<u8>)>
    decreases raw.len(),
{
    if raw.len() == 0 {
        Seq::empty()
    } else {
        extract_step(extract_spec(raw.drop_last()), raw.last())
    }
}

/// No two entries carry the same path.
pub open spec fn unique_names(es: Seq<(Seq<u8>, Seq<u8>)>) -> bool {
    forall|a: int, b: int| 0 <= a < b < es.len() ==> es[a].0 != es[b].0
}

/// The workbook-unlock pass: the workbook descriptor's content is patched,
/// every other entry is untouched.
pub open spec fn wb_step(es: Seq<(Seq<u8>, Seq<u8>)>) -> Seq<(Seq<u8>, Seq<u8>)> {
    es.map_values(
        |e: (Seq<u8>, Seq<u8>)|
            if e.0 == workbook_name() {
                (e.0, patched_workbook(e.1))
            } else {
                e
            },
    )
}

/// The worksheet-unlock pass: every worksheet document's content is patched,
/// every other entry is untouched.
pub open spec fn ws_step(es: Seq<(Seq<u8>, Seq<u8>)>) -> Seq<(Seq<u8>, Seq<u8>)> {
    es.map_values(
        |e: (Seq<u8>, Seq<u8>)|
            if is_worksheet_doc(e.0) {
                (e.0, patched_sheet(e.1))
            } else {
                e
            },
    )
}

/// The tree holds a workbook descriptor.
pub open spec fn has_workbook(es: Seq<(Seq<u8>, Seq<u8>)>) -> bool {
    has_name(es, workbook_name())
}

/// The tree holds the worksheets subtree.
pub open spec fn has_worksheets_tree(es: Seq<(Seq<u8>, Seq<u8>)>) -> bool {
    exists|k: int| 0 <= k < es.len() && fills_worksheets_tree(es[k].0)
}

/// The file entries of the tree, in order: directory entries carry no
/// content and are not written into the rebuilt archive.
pub open spec fn file_entries(es: Seq<(Seq<u8>, Seq<u8>)>) -> Seq<(Seq<u8>, Seq<u8>)>
    decreases es.len(),
{
    if es.len() == 0 {
        Seq::empty()
    } else if is_dir_name(es.last().0) {
        file_entries(es.drop_last())
    } else {
        file_entries(es.drop_last()).push(es.last())
    }
}

/// The entry paths of a tree.
pub open spec fn names_of(es: Seq<(Seq<u8>, Seq<u8>)>) -> Seq<Seq<u8>> {
    es.map_values(|e: (Seq<u8>, Seq<u8>)| e.0)
}

/// The file entries that extraction alone produces.
pub open spec fn extracted_files_spec(raw: Seq<(Seq<u8>, Seq<u8>)>) -> Seq<(Seq<u8>, Seq<u8>)> {
    file_entries(extract_spec(raw))
}

/// The file entries of the rebuilt archive: extraction, the workbook-unlock
/// pass, the worksheet-unlock pass, then the file filter.
pub open spec fn rebuilt_spec(raw: Seq<(Seq<u8>, Seq<u8>)>) -> Seq<(Seq<u8>, Seq<u8>)> {
    file_entries(ws_step(wb_step(extract_spec(raw))))
}

/// A copy of the given entry.
pub fn clone_entry(e: &Entry) -> (r: Entry)
    ensures
        r@ == e@,
{
    Entry { name: clone_bytes(&e.name), data: clone_bytes(&e.data) }
}

/// The index of the entry of `out` that carries the path `name`, if any.
fn find_name(out: &Vec<Entry>, name: &Vec<u8>) -> (r: Option<usize>)
    ensures
        (match r {
            Some(k) => 0 <= k < out@.len() && evs(out@)[k as int].0 == name@,
            None => !has_name(evs(out@), name@),
        }),
{
    let mut k: usize = 0;
    while k < out.len()
        invariant
            k <= out@.len(),
            forall|m: int| 0 <= m < k ==> evs(out@)[m].0 != name@,
        decreases out@.len() - k,
    {
        if bytes_eq(&out[k].name, name) {
            return Some(k);
        }
        k += 1;
    }
    None
}

/// Extract every entry into the working tree, in order: the
/// directory-traversal guard skips unsafe paths rather than failing, and a
/// path written twice keeps the content written last.
pub fn extract_entries(raw: &Vec<Entry>) -> (out: Vec<Entry>)
    ensures
        evs(out@) == extract_spec(evs(raw@)),
{
    let mut out: Vec<Entry> = Vec::new();
    let mut t: usize = 0;
    proof {
        assert(evs(raw@).take(0) =~= Seq::<(Seq<u8>, Seq<u8>)>::empty());
    }
    while t < raw.len()
        invariant
            t <= raw@.len(),
            evs(out@) == extract_spec(evs(raw@).take(t as int)),
        decreases raw@.len() - t,
    {
        proof {
            assert(evs(raw@).take(t + 1).drop_last() =~= evs(raw@).take(t as int));
            assert(evs(raw@).take(t + 1).last() == evs(raw@)[t as int]);
            lemma_extract_unique(evs(raw@).take(t as int));
        }
        let e = &raw[t];
        if check_safe_name(&e.name) {
            match find_name(&out, &e.name) {
                Some(k) => {
                    proof {
                        let ev = evs(raw@)[t as int];
                        let ki = name_index(evs(out@), ev.0);
                        assert(0 <= ki < evs(out@).len() && evs(out@)[ki].0 == ev.0);
                        if ki != k {
                            assert(evs(out@)[ki].0 != evs(out@)[k as int].0);
                        }
                    }
                    let ghost pre = evs(out@);
                    let c = clone_entry(e);
                    out.remove(k);
                    out.insert(k, c);
                    proof {
                        assert(evs(out@) =~= pre.update(k as int, evs(raw@)[t as int]));
                    }
                }
                None => {
                    out.push(clone_entry(e));
                    proof {
                        assert(evs(out@) =~= extract_spec(evs(raw@).take(t as int)).push(
                            evs(raw@)[t as int],
                        ));
                    }
                }
            }
        }
        proof {
            assert(evs(out@) == extract_spec(evs(raw@).take(t + 1)));
        }
        t += 1;
    }
    proof {
        assert(evs(raw@).take(raw@.len() as int) =~= evs(raw@));
    }
    out
}

/// The paths that extraction keeps are all distinct.
pub proof fn lemma_extract_unique(raw: Seq<(Seq<u8>, Seq<u8>)>)
    ensures
        unique_names(extract_spec(raw)),
    decreases raw.len(),
{
    if raw.len() > 0 {
        lemma_extract_unique(raw.drop_last());
        let acc = extract_spec(raw.drop_last());
        let e = raw.last();
        if is_safe_name(e.0) && has_name(acc, e.0) {
            let ki = name_index(acc, e.0);
            assert(0 <= ki < acc.len() && acc[ki].0 == e.0);
            let upd = acc.update(ki, e);
            assert forall|a: int, b: int| 0 <= a < b < upd.len() implies upd[a].0 != upd[b].0 by {
                assert(acc[a].0 != acc[b].0);
            }
        }
    }
}

/// Directory-traversal guard law: every path that extraction keeps is safe,
/// so an upward-traversal path is never written into the working tree; an
/// unsafe entry is skipped, and — extraction being a total function — the
/// skip cannot fail the run.
pub proof fn lemma_traversal_guard(raw: Seq<(Seq<u8>, Seq<u8>)>)
    ensures
        forall|k: int|
            0 <= k < extract_spec(raw).len() ==> is_safe_name(#[trigger] extract_spec(raw)[k].0),
    decreases raw.len(),
{
    if raw.len() > 0 {
        lemma_traversal_guard(raw.drop_last());
        let acc = extract_spec(raw.drop_last());
        let e = raw.last();
        if is_safe_name(e.0) && has_name(acc, e.0) {
            let ki = name_index(acc, e.0);
            assert(0 <= ki < acc.len() && acc[ki].0 == e.0);
        }
    }
}

/// The workbook-unlock pass over the extracted tree: patch the workbook
/// descriptor's content. The tree must hold the descriptor; without it the
/// pass fails and changes nothing.
pub fn unlock_xlsx_workbook(files: &Vec<Entry>) -> (r: Result<Vec<Entry>, UnproError>)
    ensures
        r matches Ok(out) ==> evs(out@) == wb_step(evs(files@)),
        r is Ok <==> has_workbook(evs(files@)),
        r matches Err(e) ==> e == UnproError::WorkbookMissing,
{
    let wb = workbook_name_vec();
    let mut out: Vec<Entry> = Vec::new();
    let mut found = false;
    let mut i: usize = 0;
    proof {
        assert(evs(out@) =~= wb_step(evs(files@)).take(0));
    }
    while i < files.len()
        invariant
            i <= files@.len(),
            wb@ == workbook_name(),
            evs(out@) == wb_step(evs(files@)).take(i as int),
            found == exists|k: int| 0 <= k < i && evs(files@)[k].0 == workbook_name(),
        decreases files@.len() - i,
    {
        let e = &files[i];
        let ghost pre = evs(out@);
        if bytes_eq(&e.name, &wb) {
            found = true;
            out.push(Entry { name: clone_bytes(&e.name), data: patch_workbook_bytes(&e.data) });
        } else {
            out.push(clone_entry(e));
        }
        proof {
            assert(wb_step(evs(files@))[i as int] == evs(out@).last());
            assert(evs(out@) =~= pre.push(wb_step(evs(files@))[i as int]));
            assert(evs(out@) =~= wb_step(evs(files@)).take(i + 1));
        }
        i += 1;
    }
    proof {
        assert(wb_step(evs(files@)).take(files@.len() as int) =~= wb_step(evs(files@)));
    }
    if found {
        Ok(out)
    } else {
        Err(UnproError::WorkbookMissing)
    }
}

/// The worksheet-unlock pass over the extracted tree: patch every worksheet
/// document's content; a document without the marker is copied byte for
/// byte. The tree must hold the worksheets subtree; without it the pass
/// fails and changes nothing.
pub fn unlock_xlsx_worksheets(files: &Vec<Entry>) -> (r: Result<Vec<Entry>, UnproError>)
    ensures
        r matches Ok(out) ==> evs(out@) == ws_step(evs(files@)),
        r is Ok <==> has_worksheets_tree(evs(files@)),
        r matches Err(e) ==> e == UnproError::WorksheetsMissing,
{
    let mut out: Vec<Entry> = Vec::new();
    let mut found = false;
    let mut i: usize = 0;
    proof {
        assert(evs(out@) =~= ws_step(evs(files@)).take(0));
    }
    while i < files.len()
        invariant
            i <= files@.len(),
            evs(out@) == ws_step(evs(files@)).take(i as int),
            found == exists|k: int| 0 <= k < i && fills_worksheets_tree(evs(files@)[k].0),
        decreases files@.len() - i,
    {
        let e = &files[i];
        let ghost pre = evs(out@);
        if check_fills_worksheets_tree(&e.name) {
            found = true;
        }
        if check_worksheet_doc(&e.name) {
            out.push(Entry { name: clone_bytes(&e.name), data: rm_protection(&e.data) });
        } else {
            out.push(clone_entry(e));
        }
        proof {
            assert(ws_step(evs(files@))[i as int] == evs(out@).last());
            assert(evs(out@) =~= pre.push(ws_step(evs(files@))[i as int]));
            assert(evs(out@) =~= ws_step(evs(files@)).take(i + 1));
        }
        i += 1;
    }
    proof {
        assert(ws_step(evs(files@)).take(files@.len() as int) =~= ws_step(evs(files@)));
    }
    if found {
        Ok(out)
    } else {
        Err(UnproError::WorksheetsMissing)
    }
}

/// Keep the file entries of the tree, in order: what the rebuild writes.
pub fn keep_file_entries(files: &Vec<Entry>) -> (out: Vec<Entry>)
    ensures
        evs(out@) == file_entries(evs(files@)),
{
    let mut out: Vec<Entry> = Vec::new();
    let mut i: usize = 0;
    proof {
        assert(evs(files@).take(0) =~= Seq::<(Seq<u8>, Seq<u8>)>::empty());
    }
    while i < files.len()
        invariant
            i <= files@.len(),
            evs(out@) == file_entries(evs(files@).take(i as int)),
        decreases files@.len() - i,
    {
        proof {
            assert(evs(files@).take(i + 1).drop_last() =~= evs(files@).take(i as int));
            assert(evs(files@).take(i + 1).last() == evs(files@)[i as int]);
        }
        let e = &files[i];
        if !check_dir_name(&e.name) {
            out.push(clone_entry(e));
            proof {
                assert(evs(out@) =~= file_entries(evs(files@).take(i as int)).push(
                    evs(files@)[i as int],
                ));
            }
        }
        i += 1;
    }
    proof {
        assert(evs(files@).take(files@.len() as int) =~= evs(files@));
    }
    out
}

/// The file filter commutes with the workbook-unlock pass, which changes no
/// path and no directory entry.
proof fn lemma_wb_step_files(es: Seq<(Seq<u8>, Seq<u8>)>)
    ensures
        file_entries(wb_step(es)) == wb_step(file_entries(es)),
    decreases es.len(),
{
    if es.len() == 0 {
        assert(wb_step(es) =~= Seq::<(Seq<u8>, Seq<u8>)>::empty());
        assert(wb_step(file_entries(es)) =~= Seq::<(Seq<u8>, Seq<u8>)>::empty());
    } else {
        lemma_wb_step_files(es.drop_last());
        assert(wb_step(es).drop_last() =~= wb_step(es.drop_last()));
        assert(wb_step(es).last() == wb_step(es)[es.len() - 1]);
        assert(wb_step(es).last().0 == es.last().0);
        if is_dir_name(es.last().0) {
            assert(file_entries(wb_step(es)) == file_entries(wb_step(es.drop_last())));
        } else {
            assert(file_entries(wb_step(es)) == file_entries(wb_step(es.drop_last())).push(
                wb_step(es).last(),
            ));
            assert(wb_step(file_entries(es.drop_last())).push(wb_step(es).last())
                =~= wb_step(file_entries(es.drop_last()).push(es.last())));
        }
    }
}

/// The file filter commutes with the worksheet-unlock pass as well.
proof fn lemma_ws_step_files(es: Seq<(Seq<u8>, Seq<u8>)>)
    ensures
        file_entries(ws_step(es)) == ws_step(file_entries(es)),
    decreases es.len(),
{
    if es.len() == 0 {
        assert(ws_step(es) =~= Seq::<(Seq<u8>, Seq<u8>)>::empty());
        assert(ws_step(file_entries(es)) =~= Seq::<(Seq<u8>, Seq<u8>)>::empty());
    } else {
        lemma_ws_step_files(es.drop_last());
        assert(ws_step(es).drop_last() =~= ws_step(es.drop_last()));
        assert(ws_step(es).last() == ws_step(es)[es.len() - 1]);
        assert(ws_step(es).last().0 == es.last().0);
        if is_dir_name(es.last().0) {
            assert(file_entries(ws_step(es)) == file_entries(ws_step(es.drop_last())));
        } else {
            assert(file_entries(ws_step(es)) == file_entries(ws_step(es.drop_last())).push(
                ws_step(es).last(),
            ));
            assert(ws_step(file_entries(es.drop_last())).push(ws_step(es).last())
                =~= ws_step(file_entries(es.drop_last()).push(es.last())));
        }
    }
}

/// An archive without any protection marker or hidden-state attribute is
/// rebuilt with every document byte-identical: when the extracted workbook
/// descriptor carries no workbook-protection marker and no hidden-state
/// attribute, and no extracted worksheet document carries a sheet-protection
/// marker, the rebuilt entries are exactly the extracted file entries.
pub proof fn lemma_unmarked_archive_unchanged(raw: Seq<(Seq<u8>, Seq<u8>)>)
    requires
        forall|k: int|
            0 <= k < extract_spec(raw).len() ==> ((#[trigger] extract_spec(raw)[k]).0
                == workbook_name() ==> !has_marker(extract_spec(raw)[k].1, wb_tag())
                && !has_literal(extract_spec(raw)[k].1, hidden_attr())),
        forall|k: int|
            0 <= k < extract_spec(raw).len() ==> (is_worksheet_doc(
                (#[trigger] extract_spec(raw)[k]).0,
            ) ==> !has_marker(extract_spec(raw)[k].1, sheet_tag())),
    ensures
        rebuilt_spec(raw) == extracted_files_spec(raw),
{
    let ex = extract_spec(raw);
    assert forall|k: int| 0 <= k < ex.len() implies wb_step(ex)[k] == ex[k] by {
        if ex[k].0 == workbook_name() {
            lemma_patched_workbook_identity(ex[k].1);
        }
    }
    assert(wb_step(ex) =~= ex);
    assert forall|k: int| 0 <= k < ex.len() implies ws_step(ex)[k] == ex[k] by {
        if is_worksheet_doc(ex[k].0) {
            lemma_patched_sheet_identity(ex[k].1);
        }
    }
    assert(ws_step(ex) =~= ex);
}

/// Round-trip entry-set law: patching changes no entry path, so the rebuilt
/// archive holds exactly the file paths that extraction produced — as a
/// sequence, hence as a set — and every entry other than the workbook
/// descriptor and the worksheet documents is carried over unchanged.
pub proof fn lemma_round_trip_entry_set(raw: Seq<(Seq<u8>, Seq<u8>)>)
    ensures
        names_of(rebuilt_spec(raw)) == names_of(extracted_files_spec(raw)),
        names_of(rebuilt_spec(raw)).to_set() == names_of(extracted_files_spec(raw)).to_set(),
        rebuilt_spec(raw).len() == extracted_files_spec(raw).len(),
        forall|k: int|
            0 <= k < rebuilt_spec(raw).len() && extracted_files_spec(raw)[k].0 != workbook_name()
                && !is_worksheet_doc(extracted_files_spec(raw)[k].0) ==> rebuilt_spec(raw)[k]
                == extracted_files_spec(raw)[k],
{
    lemma_wb_step_files(extract_spec(raw));
    lemma_ws_step_files(wb_step(extract_spec(raw)));
    let fx = extracted_files_spec(raw);
    assert(rebuilt_spec(raw) =~= ws_step(wb_step(fx)));
    assert(names_of(rebuilt_spec(raw)) =~= names_of(fx));
    assert forall|k: int|
        0 <= k < rebuilt_spec(raw).len() && fx[k].0 != workbook_name() && !is_worksheet_doc(
            fx[k].0,
        ) implies rebuilt_spec(raw)[k] == fx[k] by {
        assert(wb_step(fx)[k] == fx[k]);
        assert(ws_step(wb_step(fx))[k] == wb_step(fx)[k]);
    }
}

} // verus!
