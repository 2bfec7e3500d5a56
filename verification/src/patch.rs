//! Text-level removal of protection markers from XML documents.
//!
//! The patcher works on raw bytes, not a parsed document tree. A marker is a
//! self-closing element that starts with a fixed opening tag and runs to the
//! next `/>` on the same line; the whole element is removed. Matching is
//! non-greedy — each removal consumes exactly one self-closing element — and
//! never spans a newline, so a multi-line element passes through untouched.
//! A separate pass removes every occurrence of a fixed attribute literal.

use vstd::prelude::*;

verus! {

/// The bytes of `<workbookProtection`, the opening of the workbook-level
/// protection element.
pub open spec fn wb_tag() -> Seq<u8> {
    seq![60u8, 119u8, 111u8, 114u8, 107u8, 98u8, 111u8, 111u8, 107u8, 80u8, 114u8, 111u8, 116u8, 101u8, 99u8, 116u8, 105u8, 111u8, 110u8]
}

/// The bytes of `<sheetProtection`, the opening of the sheet-level
/// protection element.
pub open spec fn sheet_tag() -> Seq<u8> {
    seq![60u8, 115u8, 104u8, 101u8, 101u8, 116u8, 80u8, 114u8, 111u8, 116u8, 101u8, 99u8, 116u8, 105u8, 111u8, 110u8]
}

/// The bytes of `state="hidden" ` (with the trailing space), the
/// attribute-value pair that marks a sheet reference as hidden.
pub open spec fn hidden_attr() -> Seq<u8> {
    seq![115u8, 116u8, 97u8, 116u8, 101u8, 61u8, 34u8, 104u8, 105u8, 100u8, 100u8, 101u8, 110u8, 34u8, 32u8]
}

/// `pat` occurs in `s` starting at index `i`.
pub open spec fn tag_at(s: Seq<u8>, pat: Seq<u8>, i: int) -> bool {
    0 <= i && i + pat.len() <= s.len() && s.subrange(i, i + pat.len()) == pat
}

/// The two bytes `/>` stand at index `j`.
pub open spec fn close_at(s: Seq<u8>, j: int) -> bool {
    0 <= j && j + 2 <= s.len() && s[j] == 47u8 && s[j + 1] == 62u8
}

/// `j` is the position of the first `/>` at or after `from`, with no newline
/// in between: where a non-greedy single-line match starting its scan at
/// `from` ends.
pub open spec fn lazy_close(s: Seq<u8>, from: int, j: int) -> bool {
    from <= j && close_at(s, j) && (forall|k: int| from <= k < j ==> s[k] != 10u8 && !close_at(s, k))
}

/// A whole marker element: the opening tag at `i`, closed by the `/>` at `j`.
pub open spec fn marker_at(s: Seq<u8>, tag: Seq<u8>, i: int, j: int) -> bool {
    tag_at(s, tag, i) && lazy_close(s, i + tag.len(), j)
}

/// A marker element starts at index `i`.
pub open spec fn marker_from(s: Seq<u8>, tag: Seq<u8>, i: int) -> bool {
    exists|j: int| marker_at(s, tag, i, j)
}

/// The document contains at least one marker element for `tag`.
pub open spec fn has_marker(s: Seq<u8>, tag: Seq<u8>) -> bool {
    exists|i: int| marker_from(s, tag, i)
}

/// The index just past the last byte of the marker that starts at `i`.
pub open spec fn marker_end(s: Seq<u8>, tag: Seq<u8>, i: int) -> int {
    (choose|j: int| marker_at(s, tag, i, j)) + 2
}

/// What remains of `s[i..]` after removing every marker element, scanning
/// left to right and never rescanning the bytes around a removal.
pub open spec fn strip_from(s: Seq<u8>, tag: Seq<u8>, i: int) -> Seq<u8>
    decreases s.len() - i
    when 0 <= i && tag.len() > 0
{
    if i >= s.len() {
        Seq::empty()
    } else if marker_from(s, tag, i) {
        strip_from(s, tag, marker_end(s, tag, i))
    } else {
        seq![s[i]] + strip_from(s, tag, i + 1)
    }
}

/// `s` with every marker element for `tag` removed.
pub open spec fn strip_markers(s: Seq<u8>, tag: Seq<u8>) -> Seq<u8> {
    strip_from(s, tag, 0)
}

/// What remains of `s[i..]` after removing every occurrence of the literal
/// `lit`, scanning left to right without rescanning.
pub open spec fn strip_lit_from(s: Seq<u8>, lit: Seq<u8>, i: int) -> Seq<u8>
    decreases s.len() - i
    when 0 <= i && lit.len() > 0
{
    if i >= s.len() {
        Seq::empty()
    } else if tag_at(s, lit, i) {
        strip_lit_from(s, lit, i + lit.len())
    } else {
        seq![s[i]] + strip_lit_from(s, lit, i + 1)
    }
}

/// `s` with every occurrence of the literal `lit` removed.
pub open spec fn strip_literal(s: Seq<u8>, lit: Seq<u8>) -> Seq<u8> {
    strip_lit_from(s, lit, 0)
}

/// The literal `lit` occurs somewhere in `s`.
pub open spec fn has_literal(s: Seq<u8>, lit: Seq<u8>) -> bool {
    exists|i: int| tag_at(s, lit, i)
}

/// A workbook descriptor after patching: the protection element removed,
/// then every hidden-state attribute removed.
pub open spec fn patched_workbook(s: Seq<u8>) -> Seq<u8> {
    strip_literal(strip_markers(s, wb_tag()), hidden_attr())
}

/// A worksheet document after patching: the sheet protection element removed.
pub open spec fn patched_sheet(s: Seq<u8>) -> Seq<u8> {
    strip_markers(s, sheet_tag())
}

/// Whether `pat` occurs in `s` at index `i`.
pub fn bytes_match_at(s: &Vec<u8>, pat: &Vec<u8>, i: usize) -> (r: bool)
    requires
        i <= s@.len(),
    ensures
        r == tag_at(s@, pat@, i as int),
{
    if s.len() - i < pat.len() {
        return false;
    }
    let mut k: usize = 0;
    while k < pat.len()
        invariant
            i + pat@.len() <= s@.len(),
            s@.len() <= usize::MAX,
            k <= pat@.len(),
            forall|m: int| 0 <= m < k ==> s@[i + m] == pat@[m],
        decreases pat@.len() - k,
    {
        if s[i + k] != pat[k] {
            proof {
                assert(s@.subrange(i as int, i + pat@.len()) != pat@) by {
                    assert(s@.subrange(i as int, i + pat@.len())[k as int] == s@[i + k]);
                }
            }
            return false;
        }
        k += 1;
    }
    proof {
        assert(s@.subrange(i as int, i + pat@.len()) =~= pat@);
    }
    true
}

/// Find where a non-greedy match that starts scanning at `from` would close:
/// the first `/>` at or after `from` that is not cut off by a newline.
fn find_close(s: &Vec<u8>, from: usize) -> (r: Option<usize>)
    requires
        from <= s@.len(),
    ensures
        (match r {
            Some(j) => lazy_close(s@, from as int, j as int),
            None => forall|j: int| !lazy_close(s@, from as int, j),
        }),
{
    let mut k: usize = from;
    while k < s.len()
        invariant
            from <= k <= s@.len(),
            forall|m: int| from <= m < k ==> s@[m] != 10u8 && !close_at(s@, m),
        decreases s@.len() - k,
    {
        let c = s[k];
        if c == 10u8 {
            proof {
                assert forall|j: int| !lazy_close(s@, from as int, j) by {
                    if lazy_close(s@, from as int, j) {
                        if j < k {
                            assert(!close_at(s@, j));
                        } else if j == k {
                            assert(s@[j] == 47u8);
                        } else {
                            assert(s@[k as int] != 10u8);
                        }
                    }
                }
            }
            return None;
        }
        if c == 47u8 && k + 1 < s.len() && s[k + 1] == 62u8 {
            return Some(k);
        }
        proof {
            assert(!close_at(s@, k as int));
        }
        k += 1;
    }
    proof {
        assert forall|j: int| !lazy_close(s@, from as int, j) by {
            if lazy_close(s@, from as int, j) {
                assert(j + 2 <= s@.len());
                assert(!close_at(s@, j));
            }
        }
    }
    None
}

/// A non-greedy match can end at only one place.
proof fn lemma_lazy_close_unique(s: Seq<u8>, from: int, j1: int, j2: int)
    requires
        lazy_close(s, from, j1),
        lazy_close(s, from, j2),
    ensures
        j1 == j2,
{
    if j1 < j2 {
        assert(!close_at(s, j1));
    }
    if j2 < j1 {
        assert(!close_at(s, j2));
    }
}

/// Remove every marker element that opens with `tag` from `s`, exactly as
/// `strip_markers` describes.
pub fn strip_tag(s: &Vec<u8>, tag: &Vec<u8>) -> (out: Vec<u8>)
    requires
        tag@.len() > 0,
    ensures
        out@ == strip_markers(s@, tag@),
{
    let mut out: Vec<u8> = Vec::new();
    let mut i: usize = 0;
    proof {
        assert(Seq::<u8>::empty() + strip_from(s@, tag@, 0) =~= strip_from(s@, tag@, 0));
    }
    while i < s.len()
        invariant
            tag@.len() > 0,
            i <= s@.len(),
            strip_markers(s@, tag@) == out@ + strip_from(s@, tag@, i as int),
        decreases s@.len() - i,
    {
        let mut matched = false;
        if bytes_match_at(s, tag, i) {
            match find_close(s, i + tag.len()) {
                Some(j) => {
                    proof {
                        assert(marker_at(s@, tag@, i as int, j as int));
                        let jj = choose|j2: int| marker_at(s@, tag@, i as int, j2);
                        lemma_lazy_close_unique(s@, i + tag@.len(), jj, j as int);
                        assert(marker_end(s@, tag@, i as int) == j + 2);
                    }
                    matched = true;
                    i = j + 2;
                }
                None => {
                    proof {
                        assert forall|j2: int| !marker_at(s@, tag@, i as int, j2) by {
                            assert(!lazy_close(s@, i + tag@.len(), j2));
                        }
                    }
                }
            }
        } else {
            proof {
                assert forall|j2: int| !marker_at(s@, tag@, i as int, j2) by {}
            }
        }
        if !matched {
            proof {
                assert(!marker_from(s@, tag@, i as int));
                assert(strip_from(s@, tag@, i as int) == seq![s@[i as int]] + strip_from(s@, tag@, i + 1));
                assert(out@.push(s@[i as int]) + strip_from(s@, tag@, i + 1) =~= out@ + (seq![s@[i as int]] + strip_from(s@, tag@, i + 1)));
            }
            out.push(s[i]);
            i += 1;
        }
    }
    proof {
        assert(strip_from(s@, tag@, i as int) =~= Seq::<u8>::empty());
        assert(out@ + Seq::<u8>::empty() =~= out@);
    }
    out
}

/// Remove every occurrence of the literal `lit` from `s`, exactly as
/// `strip_literal` describes.
pub fn strip_lit(s: &Vec<u8>, lit: &Vec<u8>) -> (out: Vec<u8>)
    requires
        lit@.len() > 0,
    ensures
        out@ == strip_literal(s@, lit@),
{
    let mut out: Vec<u8> = Vec::new();
    let mut i: usize = 0;
    proof {
        assert(Seq::<u8>::empty() + strip_lit_from(s@, lit@, 0) =~= strip_lit_from(s@, lit@, 0));
    }
    while i < s.len()
        invariant
            lit@.len() > 0,
            i <= s@.len(),
            strip_literal(s@, lit@) == out@ + strip_lit_from(s@, lit@, i as int),
        decreases s@.len() - i,
    {
        if bytes_match_at(s, lit, i) {
            i += lit.len();
        } else {
            proof {
                assert(strip_lit_from(s@, lit@, i as int) == seq![s@[i as int]] + strip_lit_from(s@, lit@, i + 1));
                assert(out@.push(s@[i as int]) + strip_lit_from(s@, lit@, i + 1) =~= out@ + (seq![s@[i as int]] + strip_lit_from(s@, lit@, i + 1)));
            }
            out.push(s[i]);
            i += 1;
        }
    }
    proof {
        assert(strip_lit_from(s@, lit@, i as int) =~= Seq::<u8>::empty());
        assert(out@ + Seq::<u8>::empty() =~= out@);
    }
    out
}

/// Marker removal copies every byte of a region in which no marker starts.
proof fn lemma_strip_segment(s: Seq<u8>, tag: Seq<u8>, a: int, b: int)
    requires
        0 <= a <= b <= s.len(),
        tag.len() > 0,
        forall|p: int| a <= p < b ==> !marker_from(s, tag, p),
    ensures
        strip_from(s, tag, a) == s.subrange(a, b) + strip_from(s, tag, b),
    decreases b - a,
{
    if a == b {
        assert(s.subrange(a, b) + strip_from(s, tag, b) =~= strip_from(s, tag, b));
    } else {
        lemma_strip_segment(s, tag, a + 1, b);
        assert(strip_from(s, tag, a) == seq![s[a]] + (s.subrange(a + 1, b) + strip_from(s, tag, b)));
        assert(seq![s[a]] + (s.subrange(a + 1, b) + strip_from(s, tag, b)) =~= s.subrange(a, b) + strip_from(s, tag, b));
    }
}

/// A document with no marker element is returned byte-identical by marker
/// removal.
pub proof fn lemma_no_marker_identity(s: Seq<u8>, tag: Seq<u8>)
    requires
        tag.len() > 0,
        !has_marker(s, tag),
    ensures
        strip_markers(s, tag) == s,
{
    lemma_strip_segment(s, tag, 0, s.len() as int);
    assert(strip_from(s, tag, s.len() as int) == Seq::<u8>::empty());
    assert(s.subrange(0, s.len() as int) + Seq::<u8>::empty() =~= s);
}

/// Literal removal copies every byte of a region in which the literal does
/// not occur.
proof fn lemma_strip_lit_segment(s: Seq<u8>, lit: Seq<u8>, a: int, b: int)
    requires
        0 <= a <= b <= s.len(),
        lit.len() > 0,
        forall|p: int| a <= p < b ==> !tag_at(s, lit, p),
    ensures
        strip_lit_from(s, lit, a) == s.subrange(a, b) + strip_lit_from(s, lit, b),
    decreases b - a,
{
    if a == b {
        assert(s.subrange(a, b) + strip_lit_from(s, lit, b) =~= strip_lit_from(s, lit, b));
    } else {
        lemma_strip_lit_segment(s, lit, a + 1, b);
        assert(strip_lit_from(s, lit, a) == seq![s[a]] + (s.subrange(a + 1, b) + strip_lit_from(s, lit, b)));
        assert(seq![s[a]] + (s.subrange(a + 1, b) + strip_lit_from(s, lit, b)) =~= s.subrange(a, b) + strip_lit_from(s, lit, b));
    }
}

/// A document in which the literal does not occur is returned byte-identical
/// by literal removal.
pub proof fn lemma_no_literal_identity(s: Seq<u8>, lit: Seq<u8>)
    requires
        lit.len() > 0,
        !has_literal(s, lit),
    ensures
        strip_literal(s, lit) == s,
{
    lemma_strip_lit_segment(s, lit, 0, s.len() as int);
    assert(strip_lit_from(s, lit, s.len() as int) == Seq::<u8>::empty());
    assert(s.subrange(0, s.len() as int) + Seq::<u8>::empty() =~= s);
}

/// A workbook descriptor without a protection marker and without a
/// hidden-state attribute passes through the workbook patch byte-identical.
pub proof fn lemma_patched_workbook_identity(s: Seq<u8>)
    requires
        !has_marker(s, wb_tag()),
        !has_literal(s, hidden_attr()),
    ensures
        patched_workbook(s) == s,
{
    lemma_no_marker_identity(s, wb_tag());
    lemma_no_literal_identity(s, hidden_attr());
}

/// A worksheet document without a sheet-protection marker passes through the
/// worksheet patch byte-identical.
pub proof fn lemma_patched_sheet_identity(s: Seq<u8>)
    requires
        !has_marker(s, sheet_tag()),
    ensures
        patched_sheet(s) == s,
{
    lemma_no_marker_identity(s, sheet_tag());
}

/// Removing the one marker of a document removes it for good: when the
/// opening tag occurs exactly once, closed on its line, and the text before
/// it does not end in a partial copy of the tag, the result is the document
/// with exactly that element cut out, and no marker remains in it. (Without
/// the last condition the cut can splice a fresh marker together out of its
/// two neighbours; such a document keeps a marker, as the scan never rescans
/// what a removal joins.)
pub proof fn lemma_single_marker_removed(s: Seq<u8>, tag: Seq<u8>, i: int, j: int)
    requires
        tag.len() > 0,
        marker_at(s, tag, i, j),
        forall|p: int| tag_at(s, tag, p) ==> p == i,
        forall|k: int| 1 <= k < tag.len() && 0 <= i - k ==> s.subrange(i - k, i) != tag.take(k),
    ensures
        strip_markers(s, tag) == s.take(i) + s.skip(j + 2),
        !has_marker(s.take(i) + s.skip(j + 2), tag),
{
    let cut = s.take(i) + s.skip(j + 2);
    assert(i + tag.len() <= j && j + 2 <= s.len());
    // Every position before `i` is outside any marker start.
    assert forall|p: int| 0 <= p < i implies !marker_from(s, tag, p) by {
        if marker_from(s, tag, p) {
            let jp = choose|jp: int| marker_at(s, tag, p, jp);
            assert(tag_at(s, tag, p));
        }
    }
    lemma_strip_segment(s, tag, 0, i);
    // At `i` the marker is removed, and it ends exactly at `j + 2`.
    assert(marker_from(s, tag, i));
    let jj = choose|j2: int| marker_at(s, tag, i, j2);
    lemma_lazy_close_unique(s, i + tag.len(), jj, j);
    assert(marker_end(s, tag, i) == j + 2);
    assert(strip_from(s, tag, i) == strip_from(s, tag, j + 2));
    // No marker starts at or after `j + 2`.
    assert forall|p: int| j + 2 <= p < s.len() implies !marker_from(s, tag, p) by {
        if marker_from(s, tag, p) {
            let jp = choose|jp: int| marker_at(s, tag, p, jp);
            assert(tag_at(s, tag, p));
        }
    }
    lemma_strip_segment(s, tag, j + 2, s.len() as int);
    assert(strip_from(s, tag, j + 2) == s.subrange(j + 2, s.len() as int) + Seq::<u8>::empty());
    assert(strip_from(s, tag, j + 2) =~= s.skip(j + 2));
    assert(strip_markers(s, tag) == s.subrange(0, i) + s.skip(j + 2));
    assert(s.subrange(0, i) =~= s.take(i));
    // The tag does not occur in the cut document at all.
    assert forall|q: int| !tag_at(cut, tag, q) by {
        if tag_at(cut, tag, q) {
            if q + tag.len() <= i {
                assert(cut.subrange(q, q + tag.len()) =~= s.subrange(q, q + tag.len()));
                assert(tag_at(s, tag, q));
                assert(q == i);
            } else if q >= i {
                let q2 = q - i + j + 2;
                assert(cut.subrange(q, q + tag.len()) =~= s.subrange(q2, q2 + tag.len()));
                assert(tag_at(s, tag, q2));
                assert(q2 == i);
            } else {
                let k = i - q;
                assert(1 <= k < tag.len());
                assert(cut.subrange(q, i) =~= s.subrange(i - k, i));
                assert(cut.subrange(q, i) =~= tag.take(k)) by {
                    assert forall|m: int| 0 <= m < k implies cut.subrange(q, i)[m] == tag.take(k)[m] by {
                        assert(cut.subrange(q, q + tag.len())[m] == tag[m]);
                    }
                }
                assert(s.subrange(i - k, i) == tag.take(k));
            }
        }
    }
    assert(!has_marker(cut, tag)) by {
        if has_marker(cut, tag) {
            let p = choose|p: int| marker_from(cut, tag, p);
            let jp = choose|jp: int| marker_at(cut, tag, p, jp);
            assert(tag_at(cut, tag, p));
        }
    }
}

/// Patching a workbook descriptor whose protection marker stands alone — the
/// tag occurs once, closed on its line, not preceded by a partial copy of the
/// tag — removes the whole element, and no protection marker remains. The
/// hidden-state pass then changes nothing when the cut document carries no
/// hidden-state attribute.
pub proof fn lemma_workbook_protection_removed(s: Seq<u8>, i: int, j: int)
    requires
        marker_at(s, wb_tag(), i, j),
        forall|p: int| tag_at(s, wb_tag(), p) ==> p == i,
        forall|k: int| 1 <= k < wb_tag().len() && 0 <= i - k ==> s.subrange(i - k, i) != wb_tag().take(k),
        !has_literal(s.take(i) + s.skip(j + 2), hidden_attr()),
    ensures
        patched_workbook(s) == s.take(i) + s.skip(j + 2),
        !has_marker(patched_workbook(s), wb_tag()),
{
    lemma_single_marker_removed(s, wb_tag(), i, j);
    lemma_no_literal_identity(s.take(i) + s.skip(j + 2), hidden_attr());
}

/// Patching a worksheet document whose sheet-protection marker stands alone
/// removes the whole element, and no sheet-protection marker remains.
pub proof fn lemma_sheet_protection_removed(s: Seq<u8>, i: int, j: int)
    requires
        marker_at(s, sheet_tag(), i, j),
        forall|p: int| tag_at(s, sheet_tag(), p) ==> p == i,
        forall|k: int| 1 <= k < sheet_tag().len() && 0 <= i - k ==> s.subrange(i - k, i) != sheet_tag().take(k),
    ensures
        patched_sheet(s) == s.take(i) + s.skip(j + 2),
        !has_marker(patched_sheet(s), sheet_tag()),
{
    lemma_single_marker_removed(s, sheet_tag(), i, j);
}

/// The bytes of `<workbookProtection`, as a vector.
pub fn wb_tag_vec() -> (v: Vec<u8>)
    ensures
        v@ == wb_tag(),
{
    let v: Vec<u8> = vec![60u8, 119u8, 111u8, 114u8, 107u8, 98u8, 111u8, 111u8, 107u8, 80u8, 114u8, 111u8, 116u8, 101u8, 99u8, 116u8, 105u8, 111u8, 110u8];
    proof {
        assert(v@ =~= wb_tag());
    }
    v
}

/// The bytes of `<sheetProtection`, as a vector.
pub fn sheet_tag_vec() -> (v: Vec<u8>)
    ensures
        v@ == sheet_tag(),
{
    let v: Vec<u8> = vec![60u8, 115u8, 104u8, 101u8, 101u8, 116u8, 80u8, 114u8, 111u8, 116u8, 101u8, 99u8, 116u8, 105u8, 111u8, 110u8];
    proof {
        assert(v@ =~= sheet_tag());
    }
    v
}

/// The bytes of `state="hidden" `, as a vector.
pub fn hidden_attr_vec() -> (v: Vec<u8>)
    ensures
        v@ == hidden_attr(),
{
    let v: Vec<u8> = vec![115u8, 116u8, 97u8, 116u8, 101u8, 61u8, 34u8, 104u8, 105u8, 100u8, 100u8, 101u8, 110u8, 34u8, 32u8];
    proof {
        assert(v@ =~= hidden_attr());
    }
    v
}

/// Patch a workbook descriptor: remove the workbook-protection element, then
/// every hidden-state attribute.
pub fn patch_workbook_bytes(content: &Vec<u8>) -> (out: Vec<u8>)
    ensures
        out@ == patched_workbook(content@),
{
    let tag = wb_tag_vec();
    let lit = hidden_attr_vec();
    let unprotected = strip_tag(content, &tag);
    strip_lit(&unprotected, &lit)
}

/// Patch a worksheet document: remove the sheet-protection element. Both the
/// check for the marker and its removal work on the raw text.
pub fn rm_protection(content: &Vec<u8>) -> (out: Vec<u8>)
    ensures
        out@ == patched_sheet(content@),
{
    let tag = sheet_tag_vec();
    strip_tag(content, &tag)
}

} // verus!
