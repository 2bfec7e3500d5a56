//! Batch mode: which files of a directory listing are eligible archives,
//! what the confirmation answer means, and how an output archive is named.

use vstd::prelude::*;
use crate::names::{is_xlsx_name, check_xlsx_name, clone_bytes, unpro_suffix};

verus! {

/// The names of a listing, as byte sequences.
pub open spec fn names_view(ns: Seq<Vec<u8>>) -> Seq<Seq<u8>> {
    ns.map_values(|v: Vec<u8>| v@)
}

/// The eligible archives of a directory listing, in order: the names that
/// end in the archive extension.
pub open spec fn eligible_spec(names: Seq<Seq<u8>>) -> Seq<Seq<u8>>
    decreases names.len(),
{
    if names.len() == 0 {
        Seq::empty()
    } else if is_xlsx_name(names.last()) {
        eligible_spec(names.drop_last()).push(names.last())
    } else {
        eligible_spec(names.drop_last())
    }
}

/// Keep the eligible archive names of a listing, in order.
pub fn eligible_xlsx_files(names: &Vec<Vec<u8>>) -> (r: Vec<Vec<u8>>)
    ensures
        names_view(r@) == eligible_spec(names_view(names@)),
{
    let mut r: Vec<Vec<u8>> = Vec::new();
    let mut i: usize = 0;
    proof {
        assert(names_view(r@) =~= eligible_spec(names_view(names@).take(0)));
    }
    while i < names.len()
        invariant
            i <= names@.len(),
            names_view(r@) == eligible_spec(names_view(names@).take(i as int)),
        decreases names@.len() - i,
    {
        proof {
            assert(names_view(names@).take(i + 1).drop_last() =~= names_view(names@).take(i as int));
            assert(names_view(names@).take(i + 1).last() == names_view(names@)[i as int]);
        }
        let ghost pre = names_view(r@);
        if check_xlsx_name(&names[i]) {
            r.push(clone_bytes(&names[i]));
            proof {
                assert(names_view(r@) =~= pre.push(names_view(names@)[i as int]));
            }
        }
        i += 1;
    }
    proof {
        assert(names_view(names@).take(names@.len() as int) =~= names_view(names@));
    }
    r
}

/// An ASCII whitespace byte: space, tab, or a line ending.
pub open spec fn is_ws_byte(b: u8) -> bool {
    b == 32u8 || b == 9u8 || b == 10u8 || b == 13u8
}

/// `s` with its leading whitespace removed.
pub open spec fn trim_front(s: Seq<u8>) -> Seq<u8>
    decreases s.len(),
{
    if s.len() > 0 && is_ws_byte(s[0]) {
        trim_front(s.skip(1))
    } else {
        s
    }
}

/// `s` with its trailing whitespace removed.
pub open spec fn trim_back(s: Seq<u8>) -> Seq<u8>
    decreases s.len(),
{
    if s.len() > 0 && is_ws_byte(s.last()) {
        trim_back(s.drop_last())
    } else {
        s
    }
}

/// `s` with whitespace removed at both ends.
pub open spec fn trimmed(s: Seq<u8>) -> Seq<u8> {
    trim_back(trim_front(s))
}

/// Read a confirmation answer: the run goes ahead unless the answer, with
/// surrounding whitespace ignored, is exactly `n`. Only ASCII whitespace is
/// ignored, deliberately: an answer padded with exotic Unicode spacing is
/// taken literally, and so proceeds.
pub fn should_proceed(answer: &Vec<u8>) -> (r: bool)
    ensures
        r == (trimmed(answer@) != seq![110u8]),
{
    let n = answer.len();
    let mut lo: usize = 0;
    proof {
        assert(answer@.skip(0) =~= answer@);
    }
    while lo < n && is_ws(answer[lo])
        invariant
            lo <= n,
            n == answer@.len(),
            trim_front(answer@) == trim_front(answer@.skip(lo as int)),
        decreases n - lo,
    {
        proof {
            assert(answer@.skip(lo as int).skip(1) =~= answer@.skip(lo + 1));
        }
        lo += 1;
    }
    proof {
        if lo == n {
            assert(answer@.skip(lo as int) =~= Seq::<u8>::empty());
        }
        assert(trim_front(answer@) == answer@.skip(lo as int));
        assert(answer@.skip(lo as int) =~= answer@.subrange(lo as int, n as int));
    }
    let mut hi: usize = n;
    while hi > lo && is_ws(answer[hi - 1])
        invariant
            lo <= hi <= n,
            n == answer@.len(),
            trim_back(answer@.subrange(lo as int, n as int)) == trim_back(
                answer@.subrange(lo as int, hi as int),
            ),
        decreases hi,
    {
        proof {
            assert(answer@.subrange(lo as int, hi as int).drop_last() =~= answer@.subrange(
                lo as int,
                hi - 1,
            ));
        }
        hi -= 1;
    }
    proof {
        if hi == lo {
            assert(answer@.subrange(lo as int, hi as int) =~= Seq::<u8>::empty());
        }
        assert(trimmed(answer@) == answer@.subrange(lo as int, hi as int));
    }
    if hi - lo == 1 && answer[lo] == 110u8 {
        proof {
            assert(answer@.subrange(lo as int, hi as int) =~= seq![110u8]);
        }
        false
    } else {
        proof {
            if trimmed(answer@) == seq![110u8] {
                assert(answer@.subrange(lo as int, hi as int)[0] == 110u8);
            }
        }
        true
    }
}

/// Whether `b` is an ASCII whitespace byte.
fn is_ws(b: u8) -> (r: bool)
    ensures
        r == is_ws_byte(b),
{
    b == 32u8 || b == 9u8 || b == 10u8 || b == 13u8
}

/// The part of the path after the last separator.
pub open spec fn basename(p: Seq<u8>) -> Seq<u8>
    decreases p.len(),
{
    if p.len() == 0 {
        Seq::empty()
    } else if p.last() == 47u8 {
        Seq::empty()
    } else {
        basename(p.drop_last()).push(p.last())
    }
}

/// The largest index of a dot in `b` other than the first byte; -1 when
/// there is none.
pub open spec fn last_dot(b: Seq<u8>) -> int
    decreases b.len(),
{
    if b.len() <= 1 {
        -1
    } else if b.last() == 46u8 {
        b.len() - 1
    } else {
        last_dot(b.drop_last())
    }
}

/// The name without its extension: everything before the last dot, unless
/// the only dot begins the name.
pub open spec fn stem_of(b: Seq<u8>) -> Seq<u8> {
    if last_dot(b) >= 1 {
        b.take(last_dot(b))
    } else {
        b
    }
}

/// The stem of a path: the part after the last separator, without its
/// extension. The working name that an archive's outputs derive from.
pub open spec fn file_stem_spec(p: Seq<u8>) -> Seq<u8> {
    stem_of(basename(p))
}

/// The basename is the suffix that follows the last separator.
proof fn lemma_basename(p: Seq<u8>, s: int)
    requires
        0 <= s <= p.len(),
        s == 0 || p[s - 1] == 47u8,
        forall|k: int| s <= k < p.len() ==> p[k] != 47u8,
    ensures
        basename(p) == p.skip(s),
    decreases p.len(),
{
    if p.len() == 0 {
        assert(p.skip(s) =~= Seq::<u8>::empty());
    } else if p.last() == 47u8 {
        assert(s == p.len());
        assert(p.skip(s) =~= Seq::<u8>::empty());
    } else if s == p.len() {
        assert(p[s - 1] != 47u8);
        assert(false);
    } else {
        lemma_basename(p.drop_last(), s);
        assert(basename(p.drop_last()).push(p.last()) =~= p.skip(s));
    }
}

/// Where a dot stands with no later dot, the last dot stands.
proof fn lemma_last_dot_some(b: Seq<u8>, j: int)
    requires
        1 <= j < b.len(),
        b[j] == 46u8,
        forall|k: int| j < k < b.len() ==> b[k] != 46u8,
    ensures
        last_dot(b) == j,
    decreases b.len(),
{
    if j == b.len() - 1 {
    } else {
        assert(b.last() != 46u8);
        lemma_last_dot_some(b.drop_last(), j);
    }
}

/// With no dot after the first byte, there is no last dot.
proof fn lemma_last_dot_none(b: Seq<u8>)
    requires
        forall|k: int| 1 <= k < b.len() ==> b[k] != 46u8,
    ensures
        last_dot(b) == -1,
    decreases b.len(),
{
    if b.len() > 1 {
        assert(b.last() != 46u8);
        lemma_last_dot_none(b.drop_last());
    }
}

/// The stem of a path, as the output naming uses it.
pub fn file_stem(path: &Vec<u8>) -> (r: Vec<u8>)
    ensures
        r@ == file_stem_spec(path@),
{
    let n = path.len();
    let mut start: usize = n;
    while start > 0 && path[start - 1] != 47u8
        invariant
            start <= n,
            n == path@.len(),
            forall|k: int| start <= k < n ==> path@[k] != 47u8,
        decreases start,
    {
        start -= 1;
    }
    proof {
        lemma_basename(path@, start as int);
    }
    let mut e: usize = n;
    while e > 0 && e - 1 > start && path[e - 1] != 46u8
        invariant
            start <= n,
            e <= n,
            forall|k: int| e <= k < n ==> path@[k] != 46u8,
            e == n || e > start,
            n == path@.len(),
        decreases e,
    {
        e -= 1;
    }
    let ghost b = path@.skip(start as int);
    let stop: usize;
    if e > 0 && e - 1 > start {
        proof {
            assert(b[e - 1 - start] == 46u8);
            assert forall|k: int| e - start - 1 < k < b.len() implies b[k] != 46u8 by {
                assert(path@[k + start] != 46u8);
            }
            lemma_last_dot_some(b, e - 1 - start);
        }
        stop = e - 1;
    } else {
        proof {
            assert forall|k: int| 1 <= k < b.len() implies b[k] != 46u8 by {
                assert(path@[k + start] != 46u8);
            }
            lemma_last_dot_none(b);
        }
        stop = n;
    }
    let mut r: Vec<u8> = Vec::new();
    let mut i: usize = start;
    while i < stop
        invariant
            start <= i <= stop <= n,
            n == path@.len(),
            r@ == path@.subrange(start as int, i as int),
        decreases stop - i,
    {
        r.push(path[i]);
        proof {
            assert(path@.subrange(start as int, i as int).push(path@[i as int]) =~= path@.subrange(
                start as int,
                i + 1,
            ));
        }
        i += 1;
    }
    proof {
        if stop < n {
            assert(b.take(last_dot(b)) =~= path@.subrange(start as int, stop as int));
        } else {
            assert(b =~= path@.subrange(start as int, stop as int));
        }
    }
    r
}

/// The output archive's name: the stem with the fixed suffix appended.
pub fn output_name(stem: &Vec<u8>) -> (r: Vec<u8>)
    ensures
        r@ == stem@ + unpro_suffix(),
{
    let mut r = clone_bytes(stem);
    r.push(95u8);
    r.push(117u8);
    r.push(110u8);
    r.push(112u8);
    r.push(114u8);
    r.push(111u8);
    r.push(46u8);
    r.push(120u8);
    r.push(108u8);
    r.push(115u8);
    r.push(120u8);
    proof {
        assert(r@ =~= stem@ + unpro_suffix());
    }
    r
}

} // verus!

