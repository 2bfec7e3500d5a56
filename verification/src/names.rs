//! Entry paths: the directory-traversal guard and the classification of the
//! documents that the patcher touches.
//!
//! Entry paths use forward-slash separators. A path is safe to extract when
//! it is non-empty, relative, free of NUL bytes, and contains no
//! upward-traversal (`..`) component; everything else is skipped rather than
//! written.

use vstd::prelude::*;
use crate::patch::{tag_at, bytes_match_at};

verus! {

/// The bytes of `xl/workbook.xml`, the workbook descriptor's entry path.
pub open spec fn workbook_name() -> Seq<u8> {
    seq![120u8, 108u8, 47u8, 119u8, 111u8, 114u8, 107u8, 98u8, 111u8, 111u8, 107u8, 46u8, 120u8, 109u8, 108u8]
}

/// The bytes of `xl/worksheets/`, the worksheets subtree prefix.
pub open spec fn worksheets_prefix() -> Seq<u8> {
    seq![120u8, 108u8, 47u8, 119u8, 111u8, 114u8, 107u8, 115u8, 104u8, 101u8, 101u8, 116u8, 115u8, 47u8]
}

/// The bytes of `xl/worksheets`, the worksheets subtree itself.
pub open spec fn worksheets_dir() -> Seq<u8> {
    seq![120u8, 108u8, 47u8, 119u8, 111u8, 114u8, 107u8, 115u8, 104u8, 101u8, 101u8, 116u8, 115u8]
}

/// The bytes of `.xml`.
pub open spec fn xml_ext() -> Seq<u8> {
    seq![46u8, 120u8, 109u8, 108u8]
}

/// The bytes of `.xlsx`.
pub open spec fn xlsx_ext() -> Seq<u8> {
    seq![46u8, 120u8, 108u8, 115u8, 120u8]
}

/// The bytes of `_unpro.xlsx`, the suffix appended to an output archive name.
pub open spec fn unpro_suffix() -> Seq<u8> {
    seq![95u8, 117u8, 110u8, 112u8, 114u8, 111u8, 46u8, 120u8, 108u8, 115u8, 120u8]
}

/// `n` begins with `p`.
pub open spec fn starts_with(n: Seq<u8>, p: Seq<u8>) -> bool {
    tag_at(n, p, 0)
}

/// `n` ends with `suf`.
pub open spec fn ends_with(n: Seq<u8>, suf: Seq<u8>) -> bool {
    n.len() >= suf.len() && tag_at(n, suf, n.len() - suf.len())
}

/// An upward-traversal component `..` stands at index `i`: two dots bounded
/// by separators or by the ends of the path.
pub open spec fn dotdot_at(n: Seq<u8>, i: int) -> bool {
    0 <= i && i + 2 <= n.len() && n[i] == 46u8 && n[i + 1] == 46u8
    && (i == 0 || n[i - 1] == 47u8) && (i + 2 == n.len() || n[i + 2] == 47u8)
}

/// A safe entry path: non-empty, relative, free of NUL bytes and of
/// upward-traversal components. Anything else cannot be resolved safely
/// against the working tree and is skipped.
pub open spec fn is_safe_name(n: Seq<u8>) -> bool {
    n.len() > 0 && n[0] != 47u8
    && (forall|i: int| 0 <= i < n.len() ==> n[i] != 0u8)
    && !(exists|i: int| dotdot_at(n, i))
}

/// A directory entry: its path ends in a separator.
pub open spec fn is_dir_name(n: Seq<u8>) -> bool {
    n.len() > 0 && n[n.len() - 1] == 47u8
}

/// A worksheet document: a path in the worksheets subtree that ends in the
/// XML extension.
pub open spec fn is_worksheet_doc(n: Seq<u8>) -> bool {
    starts_with(n, worksheets_prefix()) && ends_with(n, xml_ext())
}

/// Extracting an entry of this path creates the worksheets subtree (the
/// subtree itself, or anything beneath it, which creates it as an ancestor).
pub open spec fn fills_worksheets_tree(n: Seq<u8>) -> bool {
    starts_with(n, worksheets_prefix()) || n == worksheets_dir()
}

/// An eligible archive name: it ends in the `.xlsx` extension.
pub open spec fn is_xlsx_name(n: Seq<u8>) -> bool {
    ends_with(n, xlsx_ext())
}

/// Whether `n` is a safe entry path.
pub fn check_safe_name(n: &Vec<u8>) -> (r: bool)
    ensures
        r == is_safe_name(n@),
{
    if n.len() == 0 {
        return false;
    }
    if n[0] == 47u8 {
        return false;
    }
    let mut i: usize = 0;
    while i < n.len()
        invariant
            i <= n@.len(),
            n@.len() <= usize::MAX,
            forall|m: int| 0 <= m < i ==> n@[m] != 0u8,
            forall|m: int| 0 <= m < i ==> !dotdot_at(n@, m),
        decreases n@.len() - i,
    {
        if n[i] == 0u8 {
            return false;
        }
        if n[i] == 46u8 && i + 1 < n.len() && n[i + 1] == 46u8
            && (i == 0 || n[i - 1] == 47u8)
            && (i + 2 == n.len() || n[i + 2] == 47u8)
        {
            proof {
                assert(dotdot_at(n@, i as int));
            }
            return false;
        }
        proof {
            assert(!dotdot_at(n@, i as int));
        }
        i += 1;
    }
    true
}

/// Whether `n` names a directory entry.
pub fn check_dir_name(n: &Vec<u8>) -> (r: bool)
    ensures
        r == is_dir_name(n@),
{
    n.len() > 0 && n[n.len() - 1] == 47u8
}

/// Whether `n` ends with `suf`.
pub fn check_ends_with(n: &Vec<u8>, suf: &Vec<u8>) -> (r: bool)
    ensures
        r == ends_with(n@, suf@),
{
    if n.len() < suf.len() {
        return false;
    }
    bytes_match_at(n, suf, n.len() - suf.len())
}

/// Whether `a` and `b` hold the same bytes.
pub fn bytes_eq(a: &Vec<u8>, b: &Vec<u8>) -> (r: bool)
    ensures
        r == (a@ == b@),
{
    if a.len() != b.len() {
        return false;
    }
    let r = bytes_match_at(a, b, 0);
    proof {
        if r {
            assert(a@.subrange(0, b@.len() as int) =~= a@);
        } else {
            if a@ == b@ {
                assert(a@.subrange(0, b@.len() as int) =~= b@);
            }
        }
    }
    r
}

/// The bytes of `xl/workbook.xml`, as a vector.
pub fn workbook_name_vec() -> (v: Vec<u8>)
    ensures
        v@ == workbook_name(),
{
    let v: Vec<u8> = vec![120u8, 108u8, 47u8, 119u8, 111u8, 114u8, 107u8, 98u8, 111u8, 111u8, 107u8, 46u8, 120u8, 109u8, 108u8];
    proof {
        assert(v@ =~= workbook_name());
    }
    v
}

/// The bytes of `xl/worksheets/`, as a vector.
pub fn worksheets_prefix_vec() -> (v: Vec<u8>)
    ensures
        v@ == worksheets_prefix(),
{
    let v: Vec<u8> = vec![120u8, 108u8, 47u8, 119u8, 111u8, 114u8, 107u8, 115u8, 104u8, 101u8, 101u8, 116u8, 115u8, 47u8];
    proof {
        assert(v@ =~= worksheets_prefix());
    }
    v
}

/// The bytes of `xl/worksheets`, as a vector.
pub fn worksheets_dir_vec() -> (v: Vec<u8>)
    ensures
        v@ == worksheets_dir(),
{
    let v: Vec<u8> = vec![120u8, 108u8, 47u8, 119u8, 111u8, 114u8, 107u8, 115u8, 104u8, 101u8, 101u8, 116u8, 115u8];
    proof {
        assert(v@ =~= worksheets_dir());
    }
    v
}

/// The bytes of `.xml`, as a vector.
pub fn xml_ext_vec() -> (v: Vec<u8>)
    ensures
        v@ == xml_ext(),
{
    let v: Vec<u8> = vec![46u8, 120u8, 109u8, 108u8];
    proof {
        assert(v@ =~= xml_ext());
    }
    v
}

/// The bytes of `.xlsx`, as a vector.
pub fn xlsx_ext_vec() -> (v: Vec<u8>)
    ensures
        v@ == xlsx_ext(),
{
    let v: Vec<u8> = vec![46u8, 120u8, 108u8, 115u8, 120u8];
    proof {
        assert(v@ =~= xlsx_ext());
    }
    v
}

/// Whether `n` names a worksheet document.
pub fn check_worksheet_doc(n: &Vec<u8>) -> (r: bool)
    ensures
        r == is_worksheet_doc(n@),
{
    let prefix = worksheets_prefix_vec();
    let ext = xml_ext_vec();
    if n.len() < prefix.len() {
        return false;
    }
    bytes_match_at(n, &prefix, 0) && check_ends_with(n, &ext)
}

/// Whether extracting an entry of path `n` creates the worksheets subtree.
pub fn check_fills_worksheets_tree(n: &Vec<u8>) -> (r: bool)
    ensures
        r == fills_worksheets_tree(n@),
{
    let prefix = worksheets_prefix_vec();
    let dir = worksheets_dir_vec();
    if n.len() >= prefix.len() && bytes_match_at(n, &prefix, 0) {
        return true;
    }
    bytes_eq(n, &dir)
}

/// Whether `n` names an eligible archive.
pub fn check_xlsx_name(n: &Vec<u8>) -> (r: bool)
    ensures
        r == is_xlsx_name(n@),
{
    let ext = xlsx_ext_vec();
    check_ends_with(n, &ext)
}

/// A copy of the given bytes.
pub fn clone_bytes(v: &Vec<u8>) -> (r: Vec<u8>)
    ensures
        r@ == v@,
{
    let mut r: Vec<u8> = Vec::new();
    let mut i: usize = 0;
    while i < v.len()
        invariant
            i <= v@.len(),
            r@ == v@.take(i as int),
        decreases v@.len() - i,
    {
        r.push(v[i]);
        proof {
            assert(v@.take(i as int).push(v@[i as int]) =~= v@.take(i + 1));
        }
        i += 1;
    }
    proof {
        assert(v@.take(v@.len() as int) =~= v@);
    }
    r
}

} // verus!
