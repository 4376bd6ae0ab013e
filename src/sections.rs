//! Cutting a text into sections at a sequence of byte offsets.
use vstd::prelude::*;
use vstd::string::StringSliceAdditionalSpecFns;
use vstd::utf8::*;

use crate::error::SplitError;

verus! {

broadcast use vstd::utf8::group_utf8_lib;

/// The offsets at which a text of `len` bytes is cut for the given split
/// points: the points themselves (or zero where there are none), and then
/// the end of the text.
pub open spec fn boundaries(points: Seq<usize>, len: int) -> Seq<int> {
    let starts = if points.len() == 0 {
        seq![0int]
    } else {
        points.map_values(|p: usize| p as int)
    };
    starts.push(len)
}

/// The cuts `c` are in order, and each falls on a character boundary of
/// `bytes` (hence within it).
pub open spec fn well_cut(bytes: Seq<u8>, c: Seq<int>) -> bool {
    &&& forall|i: int| 0 <= i < c.len() - 1 ==> c[i] <= #[trigger] c[i + 1]
    &&& forall|i: int| 0 <= i < c.len() ==> is_char_boundary(bytes, #[trigger] c[i])
}

/// The pieces of `bytes` between consecutive cuts of `c`.
pub open spec fn pieces(bytes: Seq<u8>, c: Seq<int>) -> Seq<Seq<u8>> {
    Seq::new((c.len() - 1) as nat, |i: int| bytes.subrange(c[i], c[i + 1]))
}

/// The bytes of each of the given sections.
pub open spec fn section_bytes(s: Seq<&str>) -> Seq<Seq<u8>> {
    s.map_values(|x: &str| x.spec_bytes())
}

/// The result of cutting `bytes` at the boundaries of `points`.
pub open spec fn cut_result(bytes: Seq<u8>, points: Seq<usize>) -> Option<Seq<Seq<u8>>> {
    let c = boundaries(points, bytes.len() as int);
    if well_cut(bytes, c) {
        Some(pieces(bytes, c))
    } else {
        None
    }
}

/// The concatenation of `parts`, in order.
pub open spec fn joined(parts: Seq<Seq<u8>>) -> Seq<u8>
    decreases parts.len(),
{
    if parts.len() == 0 {
        Seq::empty()
    } else {
        joined(parts.drop_last()) + parts.last()
    }
}

/// Well-placed cuts of a valid encoding lie within it.
pub proof fn lemma_cuts_in_bounds(bytes: Seq<u8>, c: Seq<int>)
    requires
        valid_utf8(bytes),
        well_cut(bytes, c),
    ensures
        forall|i: int| 0 <= i < c.len() ==> 0 <= #[trigger] c[i] <= bytes.len(),
{
    assert forall|i: int| 0 <= i < c.len() implies 0 <= #[trigger] c[i] <= bytes.len() by {
        assert(is_char_boundary(bytes, c[i]));
    }
}

/// The pieces between the first `k + 1` ordered cuts join into the bytes
/// from the first cut to the last of them.
pub proof fn lemma_joined_pieces(bytes: Seq<u8>, c: Seq<int>, k: int)
    requires
        0 <= k < c.len(),
        forall|i: int| 0 <= i < c.len() - 1 ==> c[i] <= #[trigger] c[i + 1],
        forall|i: int| 0 <= i < c.len() ==> 0 <= #[trigger] c[i] <= bytes.len(),
    ensures
        joined(pieces(bytes, c.subrange(0, k + 1))) == bytes.subrange(c[0], c[k]),
        c[0] <= c[k],
    decreases k,
{
    let p = pieces(bytes, c.subrange(0, k + 1));
    if k == 0 {
        assert(p.len() == 0);
        assert(bytes.subrange(c[0], c[0]) =~= Seq::<u8>::empty());
    } else {
        lemma_joined_pieces(bytes, c, k - 1);
        assert(c[k - 1] <= c[(k - 1) + 1]);
        assert(p.drop_last() =~= pieces(bytes, c.subrange(0, k)));
        assert(p.last() == bytes.subrange(c[k - 1], c[k]));
        assert(bytes.subrange(c[0], c[k - 1]) + bytes.subrange(c[k - 1], c[k]) =~= bytes.subrange(
            c[0],
            c[k],
        ));
    }
}

/// Within a suffix of a valid encoding that starts on a character boundary,
/// the character boundaries are those of the whole, shifted.
proof fn lemma_suffix_boundary(bytes: Seq<u8>, cur: int, k: int)
    requires
        valid_utf8(bytes),
        0 <= cur <= bytes.len(),
        is_char_boundary(bytes, cur),
        valid_utf8(bytes.subrange(cur, bytes.len() as int)),
        0 <= k,
    ensures
        is_char_boundary(bytes.subrange(cur, bytes.len() as int), k) <==> is_char_boundary(
            bytes,
            cur + k,
        ),
{
    let rest = bytes.subrange(cur, bytes.len() as int);
    if k == 0 {
    } else if k == rest.len() {
        is_char_boundary_start_end_of_seq(rest);
        is_char_boundary_start_end_of_seq(bytes);
    } else if k < rest.len() {
        is_char_boundary_iff_not_is_continuation_byte(rest, k);
        is_char_boundary_iff_not_is_continuation_byte(bytes, cur + k);
        assert(rest[k] == bytes[cur + k]);
    } else {
    }
}

/// Cuts `text` at each split point and at its end, returning the pieces in
/// order; a text with no split point is returned whole. Fails where the
/// points are out of order, past the end, or not on character boundaries.
pub fn slice_sections<'a>(text: &'a str, points: &Vec<usize>) -> (r: Result<
    Vec<&'a str>,
    SplitError,
>)
    ensures
        r is Ok <==> cut_result(text.spec_bytes(), points@) is Some,
        r matches Ok(s) ==> section_bytes(s@) == cut_result(text.spec_bytes(), points@)->Some_0,
        r matches Err(e) ==> e == SplitError::MalformedPositions,
{
    let ghost bytes = text.spec_bytes();
    let n = text.as_bytes().len();
    let ghost c = boundaries(points@, n as int);
    let last: usize = if points.len() == 0 {
        1
    } else {
        points.len()
    };
    let mut cur: usize = if points.len() == 0 {
        0
    } else {
        points[0]
    };
    assert(c[0] == cur as int);
    if !text.is_char_boundary(cur) {
        assert(!is_char_boundary(bytes, c[0]));
        return Err(SplitError::MalformedPositions);
    }
    let (_, tail) = text.split_at(cur);
    let mut rest: &str = tail;
    let mut sections: Vec<&'a str> = Vec::new();
    let mut j: usize = 0;
    while j < last
        invariant
            bytes == text.spec_bytes(),
            c == boundaries(points@, n as int),
            n == bytes.len(),
            last + 1 == c.len(),
            0 <= j <= last,
            cur == c[j as int],
            cur <= n,
            rest.spec_bytes() == bytes.subrange(cur as int, n as int),
            forall|q: int| 0 <= q < j ==> c[q] <= #[trigger] c[q + 1],
            forall|q: int| 0 <= q <= j ==> is_char_boundary(bytes, #[trigger] c[q]),
            sections@.len() == j,
            forall|q: int|
                0 <= q < j ==> (#[trigger] sections@[q]).spec_bytes() == bytes.subrange(
                    c[q],
                    c[q + 1],
                ),
        decreases last - j,
    {
        let next: usize = if j + 1 < points.len() {
            points[j + 1]
        } else {
            n
        };
        assert(c[j + 1] == next as int);
        if next < cur {
            assert(!(c[j as int] <= c[j + 1]));
            return Err(SplitError::MalformedPositions);
        }
        let k = next - cur;
        let ok = rest.is_char_boundary(k);
        proof {
            lemma_suffix_boundary(bytes, cur as int, k as int);
        }
        if !ok {
            assert(!is_char_boundary(bytes, c[j + 1]));
            return Err(SplitError::MalformedPositions);
        }
        let (sec, tail) = rest.split_at(k);
        proof {
            assert(sec.spec_bytes() =~= bytes.subrange(cur as int, next as int));
            assert(tail.spec_bytes() =~= bytes.subrange(next as int, n as int));
        }
        sections.push(sec);
        rest = tail;
        cur = next;
        j = j + 1;
    }
    proof {
        assert(well_cut(bytes, c));
        assert(section_bytes(sections@) =~= pieces(bytes, c));
    }
    Ok(sections)
}

} // verus!
