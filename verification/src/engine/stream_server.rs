//! The HTTP `Range` arithmetic of the local stream server: which bytes of
//! a file of known size a request asks for, and whether it can be served.
use vstd::prelude::*;
use crate::text::{
    chars_of, decimal, find_char, find_char_exec, lemma_find_char, matches_at, matches_at_exec, push_all, push_decimal,
};

verus! {

/// A requested byte range: from `start`, to `end` inclusive or to the end.
#[derive(PartialEq, Eq, Structural, Clone, Copy, Debug)]
pub struct ByteRange {
    pub start: u64,
    pub end: Option<u64>,
}

pub open spec fn is_digit(c: char) -> bool {
    '0' <= c && c <= '9'
}

/// The value of a run of decimal digits.
pub open spec fn digits_value(s: Seq<char>) -> nat
    decreases s.len(),
{
    if s.len() == 0 {
        0
    } else {
        digits_value(s.drop_last()) * 10 + (s.last() as nat - 0x30) as nat
    }
}

/// `s` without a leading `+`.
pub open spec fn unsigned_part(s: Seq<char>) -> Seq<char> {
    if s.len() > 0 && s[0] == '+' {
        s.drop_first()
    } else {
        s
    }
}

pub open spec fn all_digits(d: Seq<char>) -> bool {
    forall|i: int| 0 <= i < d.len() ==> is_digit(#[trigger] d[i])
}

/// `u64::from_str`: an optional `+` then one or more decimal digits, of a
/// value that fits in 64 bits.
pub open spec fn parse_u64_spec(s: Seq<char>) -> Option<u64> {
    let d = unsigned_part(s);
    if d.len() > 0 && all_digits(d) && digits_value(d) <= u64::MAX {
        Some(digits_value(d) as u64)
    } else {
        None
    }
}

/// Parses the characters `v[lo..hi)` as `u64::from_str` does.
pub fn parse_u64(v: &Vec<char>, lo: usize, hi: usize) -> (r: Option<u64>)
    requires
        lo <= hi <= v@.len(),
    ensures
        r == parse_u64_spec(v@.subrange(lo as int, hi as int)),
{
    let ghost s = v@.subrange(lo as int, hi as int);
    let start: usize = if lo < hi && v[lo] == '+' {
        lo + 1
    } else {
        lo
    };
    let ghost d = unsigned_part(s);
    assert(d =~= v@.subrange(start as int, hi as int));
    if start >= hi {
        return None;
    }
    let mut val: u64 = 0;
    let mut i = start;
    while i < hi
        invariant
            lo <= start <= i <= hi <= v@.len(),
            s == v@.subrange(lo as int, hi as int),
            d == unsigned_part(s),
            d == v@.subrange(start as int, hi as int),
            forall|k: int| start <= k < i ==> is_digit(#[trigger] v@[k]),
            val == digits_value(v@.subrange(start as int, i as int)),
        decreases hi - i,
    {
        let c = v[i];
        if !('0' <= c && c <= '9') {
            assert(!is_digit(d[i - start]));
            assert(!all_digits(d));
            return None;
        }
        let dv: u64 = (c as u32 - 48) as u64;
        assert(v@.subrange(start as int, i + 1).drop_last() =~= v@.subrange(start as int, i as int));
        if val > (u64::MAX - dv) / 10 {
            proof {
                assert((val as int) * 10 + dv > u64::MAX) by (nonlinear_arith)
                    requires
                        val > (u64::MAX - dv) / 10,
                        dv <= 9,
                ;
                assert(digits_value(v@.subrange(start as int, i + 1)) == (val as int) * 10 + dv);
                if all_digits(d) {
                    lemma_digits_value_prefix(d, (i - start + 1) as int);
                    assert(d.take((i - start + 1) as int) =~= v@.subrange(start as int, i + 1));
                }
            }
            return None;
        }
        val = val * 10 + dv;
        i += 1;
    }
    assert(v@.subrange(start as int, i as int) =~= d);
    Some(val)
}

/// The value of a run of digits is at least that of any of its prefixes.
pub proof fn lemma_digits_value_prefix(d: Seq<char>, k: int)
    requires
        0 <= k <= d.len(),
        forall|i: int| 0 <= i < d.len() ==> is_digit(#[trigger] d[i]),
    ensures
        digits_value(d.take(k)) <= digits_value(d),
    decreases d.len() - k,
{
    if k < d.len() {
        lemma_digits_value_prefix(d, k + 1);
        assert(d.take(k + 1).drop_last() =~= d.take(k));
        assert(is_digit(d[k]));
    } else {
        assert(d.take(k) =~= d);
    }
}

/// What `parse_range` reads from the text of a `Range` header: after
/// `bytes=`, a start and an optional end separated by the first `-`. An end
/// that is not a number is read as no end.
pub open spec fn range_of(raw: Seq<char>) -> Option<ByteRange> {
    if !matches_at(raw, 0, "bytes="@) {
        None
    } else {
        let dash = find_char(raw, '-', 6, raw.len() as int);
        if dash >= raw.len() {
            None
        } else {
            match parse_u64_spec(raw.subrange(6, dash)) {
                None => None,
                Some(start) => {
                    let end_s = raw.subrange(dash + 1, raw.len() as int);
                    Some(ByteRange { start, end: if end_s.len() == 0 { None } else { parse_u64_spec(end_s) } })
                },
            }
        }
    }
}

/// The byte range of a request, from the text of its `Range` header
/// (`None` when it has none or it is not valid text).
pub fn parse_range(header: Option<&str>) -> (r: Option<ByteRange>)
    ensures
        r == match header {
            Some(h) => range_of(h@),
            None => None,
        },
{
    let h = match header {
        Some(h) => h,
        None => {
            return None;
        },
    };
    let v = chars_of(h);
    let prefix = chars_of("bytes=");
    proof {
        reveal_strlit("bytes=");
    }
    if !matches_at_exec(&v, 0, &prefix) {
        return None;
    }
    let dash = find_char_exec(&v, '-', 6, v.len());
    if dash >= v.len() {
        return None;
    }
    let start = match parse_u64(&v, 6, dash) {
        Some(s) => s,
        None => {
            return None;
        },
    };
    let end = if dash + 1 == v.len() {
        None
    } else {
        parse_u64(&v, dash + 1, v.len())
    };
    Some(ByteRange { start, end })
}

/// How a range that can be served is answered.
#[derive(PartialEq, Eq, Structural, Clone, Copy, Debug)]
pub enum RangeStatus {
    /// 200, the whole file.
    Full,
    /// 206, part of it.
    Partial,
}

/// The bytes to serve of a file of `total` bytes: the requested range (to
/// the last byte when it has no end), or the whole file without one;
/// `None` (416) when the start is past the end of the file or the end
/// before the start.
pub open spec fn served_range(range: Option<ByteRange>, total: u64) -> Option<(u64, u64, RangeStatus)> {
    let last = if total == 0 {
        0u64
    } else {
        (total - 1) as u64
    };
    let (start, end, status) = match range {
        Some(r) => (r.start, match r.end {
            Some(e) => e,
            None => last,
        }, RangeStatus::Partial),
        None => (0u64, last, RangeStatus::Full),
    };
    if start >= total || end < start {
        None
    } else {
        Some((start, end, status))
    }
}

/// The range to serve for a request with `range` on a file of `total`
/// bytes; `None` means the request cannot be satisfied (416).
pub fn resolve_range(range: Option<ByteRange>, total: u64) -> (r: Option<(u64, u64, RangeStatus)>)
    ensures
        r == served_range(range, total),
        r matches Some((s, e, _)) ==> s <= e && s < total,
{
    let last = total.saturating_sub(1);
    let (start, end, status) = match range {
        Some(r) => (r.start, match r.end {
            Some(e) => e,
            None => last,
        }, RangeStatus::Partial),
        None => (0, last, RangeStatus::Full),
    };
    if start >= total || end < start {
        None
    } else {
        Some((start, end, status))
    }
}

/// A request without a `Range` header on a non-empty file is served whole,
/// from its first to its last byte.
pub proof fn no_range_serves_whole_file(total: u64)
    requires
        total > 0,
    ensures
        served_range(None, total) == Some((0u64, (total - 1) as u64, RangeStatus::Full)),
{
}

/// The length and the `Content-Range` of the answer that serves bytes
/// `start..=end` of a file of `total` bytes: the range header only for a
/// partial answer.
pub fn range_response_headers(start: u64, end: u64, total: u64, status: RangeStatus) -> (r: (u64, Option<String>))
    requires
        start <= end < u64::MAX,
    ensures
        r.0 == end - start + 1,
        status == RangeStatus::Full ==> r.1 is None,
        status == RangeStatus::Partial ==> (r.1 matches Some(h) && h@ == "bytes "@ + decimal(start as nat) + "-"@
            + decimal(end as nat) + "/"@ + decimal(total as nat)),
{
    let len = end - start + 1;
    match status {
        RangeStatus::Full => (len, None),
        RangeStatus::Partial => {
            let mut h = "bytes ".to_owned();
            push_decimal(&mut h, start);
            push_all(&mut h, "-");
            push_decimal(&mut h, end);
            push_all(&mut h, "/");
            push_decimal(&mut h, total);
            (len, Some(h))
        },
    }
}

/// A served range is never empty and never starts past the file: an
/// accepted request on a file of `total` bytes serves at least one byte,
/// from a start inside the file.
pub proof fn served_ranges_are_inside(range: Option<ByteRange>, total: u64)
    ensures
        served_range(range, total) matches Some((s, e, _)) ==> s < total && s <= e,
        total == 0 ==> served_range(range, total) is None,
{
}


/// A `Range` request is served exactly as asked: from a start inside the
/// file, to the requested end when there is one (even past the end of the
/// file, as the original handler does) or to the last byte when there is
/// none, as a partial answer; a start past the file, or an end before the
/// start, cannot be satisfied.
pub proof fn ranges_are_served_as_requested(start: u64, end: Option<u64>, total: u64)
    ensures
        start < total ==> match end {
            Some(e) => (start <= e ==> served_range(Some(ByteRange { start, end: Some(e) }), total) == Some(
                (start, e, RangeStatus::Partial),
            )) && (e < start ==> served_range(Some(ByteRange { start, end: Some(e) }), total) is None),
            None => served_range(Some(ByteRange { start, end: None }), total) == Some(
                (start, (total - 1) as u64, RangeStatus::Partial),
            ),
        },
        start >= total ==> served_range(Some(ByteRange { start, end }), total) is None,
        served_range(Some(ByteRange { start, end }), total) matches Some((s, e, st)) ==> s == start && st
            == RangeStatus::Partial && (end matches Some(x) ==> e == x),
{
}

} // verus!
