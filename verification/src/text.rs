//! Small verified text helpers: ASCII case folding, substring search,
//! and decimal spelling for the wire contract's header values.

use vstd::prelude::*;
use vstd::string::{StrSliceExecFns, StringExecFns};

verus! {

/// Character code with an ASCII upper-case letter folded to lower case;
/// every other character keeps its own code.
pub open spec fn lower_code(c: char) -> int {
    if 65 <= c as int && c as int <= 90 {
        c as int + 32
    } else {
        c as int
    }
}

/// Equality up to ASCII case: same length, and the folded codes agree
/// position by position.
pub open spec fn eq_ignore_ascii_case(a: Seq<char>, b: Seq<char>) -> bool {
    &&& a.len() == b.len()
    &&& forall|i: int| 0 <= i < a.len() ==> lower_code(#[trigger] a[i]) == lower_code(b[i])
}

pub fn str_eq_ignore_ascii_case(a: &str, b: &str) -> (r: bool)
    ensures
        r == eq_ignore_ascii_case(a@, b@),
{
    let alen = a.unicode_len();
    let blen = b.unicode_len();
    if alen != blen {
        return false;
    }
    let mut i: usize = 0;
    while i < alen
        invariant
            alen == a@.len(),
            blen == b@.len(),
            alen == blen,
            i <= alen,
            forall|j: int| 0 <= j < i ==> lower_code(#[trigger] a@[j]) == lower_code(b@[j]),
        decreases alen - i,
    {
        let ca = a.get_char(i) as u32;
        let cb = b.get_char(i) as u32;
        let la: u32 = if 65 <= ca && ca <= 90 {
            ca + 32
        } else {
            ca
        };
        let lb: u32 = if 65 <= cb && cb <= 90 {
            cb + 32
        } else {
            cb
        };
        if la != lb {
            return false;
        }
        i = i + 1;
    }
    true
}

/// `needle` occurs in `hay` starting at character position `pos`.
pub open spec fn matches_at(hay: Seq<char>, needle: Seq<char>, pos: int) -> bool {
    &&& 0 <= pos
    &&& pos + needle.len() <= hay.len()
    &&& hay.subrange(pos, pos + needle.len()) == needle
}

/// `needle` occurs somewhere in `hay` (every string contains the empty one).
pub open spec fn contains_seq(hay: Seq<char>, needle: Seq<char>) -> bool {
    exists|pos: int| matches_at(hay, needle, pos)
}

/// Substring search by character positions.
pub fn str_contains(hay: &str, needle: &str) -> (r: bool)
    ensures
        r == contains_seq(hay@, needle@),
{
    let hlen = hay.unicode_len();
    let nlen = needle.unicode_len();
    if nlen > hlen {
        assert(forall|pos: int| !matches_at(hay@, needle@, pos));
        return false;
    }
    if nlen == 0 {
        proof {
            assert(hay@.subrange(0, 0) =~= needle@);
            assert(matches_at(hay@, needle@, 0));
        }
        return true;
    }
    let limit = hlen - nlen;
    let mut pos: usize = 0;
    while pos <= limit
        invariant
            hlen == hay@.len(),
            nlen == needle@.len(),
            nlen <= hlen,
            1 <= nlen,
            limit == hlen - nlen,
            pos <= limit + 1,
            forall|p: int| 0 <= p < pos ==> !matches_at(hay@, needle@, p),
        decreases limit + 1 - pos,
    {
        let mut j: usize = 0;
        let mut mismatch = false;
        while j < nlen
            invariant
                hlen == hay@.len(),
                nlen == needle@.len(),
                pos + nlen <= hlen,
                j <= nlen,
                !mismatch ==> forall|k: int| 0 <= k < j ==> hay@[pos + k] == needle@[k],
                mismatch ==> !matches_at(hay@, needle@, pos as int),
            decreases nlen - j,
        {
            if hay.get_char(pos + j) != needle.get_char(j) {
                proof {
                    if matches_at(hay@, needle@, pos as int) {
                        assert(hay@.subrange(pos as int, pos + nlen)[j as int] == hay@[pos + j]);
                    }
                }
                mismatch = true;
                j = nlen;
            } else {
                j = j + 1;
            }
        }
        if !mismatch {
            proof {
                assert(hay@.subrange(pos as int, pos + nlen) =~= needle@);
                assert(matches_at(hay@, needle@, pos as int));
            }
            return true;
        }
        pos = pos + 1;
    }
    proof {
        assert forall|p: int| !matches_at(hay@, needle@, p) by {
            if 0 <= p && p + needle@.len() <= hay@.len() {
                assert(p < pos);
            }
        }
    }
    false
}

/// The decimal digit character for one value below ten.
pub open spec fn digit_char(d: int) -> char {
    if d == 0 {
        '0'
    } else if d == 1 {
        '1'
    } else if d == 2 {
        '2'
    } else if d == 3 {
        '3'
    } else if d == 4 {
        '4'
    } else if d == 5 {
        '5'
    } else if d == 6 {
        '6'
    } else if d == 7 {
        '7'
    } else if d == 8 {
        '8'
    } else {
        '9'
    }
}

/// Decimal spelling of a positive value, most significant digit first.
pub open spec fn dec_rec(n: int) -> Seq<char>
    decreases n,
{
    if n <= 0 {
        Seq::<char>::empty()
    } else if n < 10 {
        seq![digit_char(n)]
    } else {
        dec_rec(n / 10).push(digit_char(n % 10))
    }
}

/// Decimal spelling of a value: a lone zero digit for zero, no leading
/// zeroes otherwise.
pub open spec fn dec_digits(n: int) -> Seq<char> {
    if n == 0 {
        seq!['0']
    } else {
        dec_rec(n)
    }
}

/// The digits of `rev` (least significant first) read back most
/// significant first.
pub open spec fn digits_of(rev: Seq<u64>) -> Seq<char>
    decreases rev.len(),
{
    if rev.len() == 0 {
        Seq::<char>::empty()
    } else {
        seq![digit_char(rev.last() as int)] + digits_of(rev.drop_last())
    }
}

/// Reading the digit list from its other end: the first stored digit
/// comes out last.
proof fn lemma_digits_of_first(rev: Seq<u64>)
    requires
        rev.len() > 0,
    ensures
        digits_of(rev) =~= digits_of(rev.drop_first()) + seq![digit_char(rev[0] as int)],
    decreases rev.len(),
{
    if rev.len() == 1 {
        assert(rev.drop_first() =~= Seq::<u64>::empty());
    } else {
        lemma_digits_of_first(rev.drop_last());
        assert(rev.drop_last().drop_first() =~= rev.drop_first().drop_last());
        assert(rev.drop_last()[0] == rev[0]);
        assert(rev.drop_first().last() == rev.last());
        let hd = seq![digit_char(rev.last() as int)];
        let tl = seq![digit_char(rev[0] as int)];
        let mid = digits_of(rev.drop_first().drop_last());
        assert(digits_of(rev.drop_last()) =~= mid + tl);
        assert(digits_of(rev.drop_first()) =~= hd + mid);
        assert(digits_of(rev) =~= hd + digits_of(rev.drop_last()));
        assert(hd + (mid + tl) =~= (hd + mid) + tl);
    }
}

fn digit_str(d: u64) -> (r: &'static str)
    requires
        d < 10,
    ensures
        r@ == seq![digit_char(d as int)],
{
    proof {
        reveal_strlit("0");
        reveal_strlit("1");
        reveal_strlit("2");
        reveal_strlit("3");
        reveal_strlit("4");
        reveal_strlit("5");
        reveal_strlit("6");
        reveal_strlit("7");
        reveal_strlit("8");
        reveal_strlit("9");
    }
    let r = match d {
        0 => "0",
        1 => "1",
        2 => "2",
        3 => "3",
        4 => "4",
        5 => "5",
        6 => "6",
        7 => "7",
        8 => "8",
        _ => "9",
    };
    proof {
        assert(r@ =~= seq![digit_char(d as int)]);
    }
    r
}

/// Decimal spelling of a value, as the wire contract writes offsets.
pub fn u64_to_string(n: u64) -> (r: String)
    ensures
        r@ == dec_digits(n as int),
{
    if n == 0 {
        proof {
            reveal_strlit("0");
        }
        let r = "0".to_owned();
        proof {
            assert(r@ =~= seq!['0']);
        }
        return r;
    }
    let mut rev: Vec<u64> = Vec::new();
    let mut m = n;
    proof {
        assert(dec_rec(n as int) =~= dec_rec(n as int) + digits_of(rev@));
    }
    while m > 0
        invariant
            n > 0,
            forall|i: int| 0 <= i < rev@.len() ==> rev@[i] < 10,
            m > 0 ==> dec_rec(n as int) =~= dec_rec(m as int) + digits_of(rev@),
            m == 0 ==> dec_rec(n as int) =~= digits_of(rev@),
        decreases m,
    {
        let ghost prev = rev@;
        let d = m % 10;
        rev.push(d);
        proof {
            assert(rev@.drop_last() =~= prev);
            assert(rev@.last() == d);
            assert(digits_of(rev@) =~= seq![digit_char(d as int)] + digits_of(prev));
            if m >= 10 {
                assert(dec_rec(m as int) == dec_rec(m as int / 10).push(
                    digit_char(m as int % 10),
                ));
                assert(dec_rec(m as int) + digits_of(prev) =~= dec_rec(m as int / 10) + (seq![
                    digit_char(m as int % 10),
                ] + digits_of(prev)));
            } else {
                assert(dec_rec(m as int) =~= seq![digit_char(m as int)]);
                assert(dec_rec(m as int) + digits_of(prev) =~= seq![digit_char(m as int)]
                    + digits_of(prev));
            }
        }
        m = m / 10;
    }
    let mut s = String::new();
    let mut i = rev.len();
    proof {
        assert(rev@.subrange(i as int, rev@.len() as int) =~= Seq::<u64>::empty());
        assert(s@ =~= digits_of(rev@.subrange(i as int, rev@.len() as int)));
    }
    while i > 0
        invariant
            i <= rev@.len(),
            forall|k: int| 0 <= k < rev@.len() ==> rev@[k] < 10,
            s@ == digits_of(rev@.subrange(i as int, rev@.len() as int)),
        decreases i,
    {
        i = i - 1;
        let ghost before = rev@.subrange(i as int + 1, rev@.len() as int);
        let piece = digit_str(rev[i]);
        s.append(piece);
        proof {
            let after = rev@.subrange(i as int, rev@.len() as int);
            assert(after.drop_first() =~= before);
            assert(after[0] == rev@[i as int]);
            lemma_digits_of_first(after);
        }
    }
    proof {
        assert(rev@.subrange(0, rev@.len() as int) =~= rev@);
    }
    s
}

/// The `Range` header value naming one chunk's inclusive byte range.
pub open spec fn range_header(start: u64, end: u64) -> Seq<char> {
    "bytes="@ + dec_digits(start as int) + "-"@ + dec_digits(end as int)
}

/// Spell the ranged request's header value, `bytes=start-end`.
pub fn range_header_value(start: u64, end: u64) -> (r: String)
    ensures
        r@ == range_header(start, end),
{
    let mut s = String::new();
    s.append("bytes=");
    let start_digits = u64_to_string(start);
    s.append(start_digits.as_str());
    s.append("-");
    let end_digits = u64_to_string(end);
    s.append(end_digits.as_str());
    s
}

} // verus!
