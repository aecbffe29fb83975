//! Lenient parsing of index lists such as `"0, 2-4, 7"`: comma-separated
//! indexes and inclusive ranges; a piece that does not parse is skipped.
use vstd::prelude::*;
use vstd::string::*;

verus! {

/// Unicode white space, as `char::is_whitespace` classifies it.
pub open spec fn is_space(c: char) -> bool {
    let u = c as u32;
    ||| 0x09 <= u <= 0x0D
    ||| u == 0x20
    ||| u == 0x85
    ||| u == 0xA0
    ||| u == 0x1680
    ||| 0x2000 <= u <= 0x200A
    ||| u == 0x2028
    ||| u == 0x2029
    ||| u == 0x202F
    ||| u == 0x205F
    ||| u == 0x3000
}

/// An ASCII decimal digit.
pub open spec fn is_digit(c: char) -> bool {
    '0' as u32 <= c as u32 <= '9' as u32
}

/// The value of an ASCII decimal digit.
pub open spec fn digit_value(c: char) -> nat {
    (c as u32 - '0' as u32) as nat
}

/// The first position at or after `i` that holds `c`, or the length.
pub open spec fn pos_from(s: Seq<char>, c: char, i: int) -> int
    decreases s.len() - i,
{
    if i >= s.len() {
        s.len() as int
    } else if s[i] == c {
        i
    } else {
        pos_from(s, c, i + 1)
    }
}

/// The first position at or after `i` that is not white space, or the length.
pub open spec fn skip_space(s: Seq<char>, i: int) -> int
    decreases s.len() - i,
{
    if i >= s.len() {
        s.len() as int
    } else if is_space(s[i]) {
        skip_space(s, i + 1)
    } else {
        i
    }
}

/// The end of `s[lo..j]` once trailing white space is removed.
pub open spec fn back_space(s: Seq<char>, lo: int, j: int) -> int
    decreases j - lo,
{
    if j <= lo {
        j
    } else if is_space(s[j - 1]) {
        back_space(s, lo, j - 1)
    } else {
        j
    }
}

/// `s` without leading and trailing white space.
pub open spec fn trim(s: Seq<char>) -> Seq<char> {
    let lo = skip_space(s, 0);
    s.subrange(lo, back_space(s, lo, s.len() as int))
}

/// Every character of `s` is a decimal digit.
pub open spec fn all_digits(s: Seq<char>) -> bool {
    forall|i: int| 0 <= i < s.len() ==> is_digit(#[trigger] s[i])
}

/// The number written in decimal by the digits `s`.
pub open spec fn decimal(s: Seq<char>) -> nat
    decreases s.len(),
{
    if s.len() == 0 {
        0
    } else {
        decimal(s.drop_last()) * 10 + digit_value(s.last())
    }
}

/// `s` read as an unsigned machine integer: an optional `+` and one or more
/// decimal digits whose value fits.
pub open spec fn number(s: Seq<char>) -> Option<usize> {
    let d = if s.len() > 0 && s[0] == '+' {
        s.drop_first()
    } else {
        s
    };
    decimal_fit(d)
}

/// The digits `d` as a machine integer: at least one digit, only digits,
/// and a value that fits.
pub open spec fn decimal_fit(d: Seq<char>) -> Option<usize> {
    if d.len() > 0 && all_digits(d) && decimal(d) <= usize::MAX {
        Some(decimal(d) as usize)
    } else {
        None
    }
}

/// `lo, lo + 1, ..., hi`.
pub open spec fn span(lo: usize, hi: usize) -> Seq<usize> {
    Seq::new((hi - lo + 1) as nat, |k: int| (lo + k) as usize)
}

/// The indexes that one comma-separated piece stands for: a single index,
/// or every index between the two ends of a range in ascending order, or
/// nothing when the piece does not parse.
pub open spec fn piece_indexes(t: Seq<char>) -> Seq<usize> {
    let p = trim(t);
    let k = pos_from(p, '-', 0);
    if k < p.len() {
        match (number(trim(p.subrange(0, k))), number(trim(p.subrange(k + 1, p.len() as int)))) {
            (Some(a), Some(b)) => if a <= b {
                span(a, b)
            } else {
                span(b, a)
            },
            _ => seq![],
        }
    } else {
        match number(p) {
            Some(v) => seq![v],
            None => seq![],
        }
    }
}

/// The indexes of the pieces of `s` from position `i` on, in order.
pub open spec fn indexes_from(s: Seq<char>, i: int) -> Seq<usize>
    decreases s.len() - i,
    via indexes_from_decreases
{
    let e = pos_from(s, ',', i);
    if e < s.len() {
        piece_indexes(s.subrange(i, e)) + indexes_from(s, e + 1)
    } else {
        piece_indexes(s.subrange(i, s.len() as int))
    }
}

#[via_fn]
proof fn indexes_from_decreases(s: Seq<char>, i: int) {
    lemma_pos_from_bounds(s, ',', i);
}

/// The indexes that the whole list `s` stands for.
pub open spec fn index_list(s: Seq<char>) -> Seq<usize> {
    indexes_from(s, 0)
}

proof fn lemma_pos_from_bounds(s: Seq<char>, c: char, i: int)
    ensures
        pos_from(s, c, i) <= s.len(),
        pos_from(s, c, i) < s.len() ==> i <= pos_from(s, c, i),
    decreases s.len() - i,
{
    if i < s.len() && s[i] != c {
        lemma_pos_from_bounds(s, c, i + 1);
    }
}

/// A longer run of digits never reads as a smaller number.
proof fn lemma_decimal_prefix(d: Seq<char>, k: int)
    requires
        0 <= k <= d.len(),
    ensures
        decimal(d.subrange(0, k)) <= decimal(d),
    decreases d.len() - k,
{
    if k < d.len() {
        lemma_decimal_prefix(d, k + 1);
        assert(d.subrange(0, k + 1).drop_last() == d.subrange(0, k));
    } else {
        assert(d.subrange(0, k) == d);
    }
}

fn is_space_char(c: char) -> (r: bool)
    ensures
        r == is_space(c),
{
    let u = c as u32;
    (0x09 <= u && u <= 0x0D) || u == 0x20 || u == 0x85 || u == 0xA0 || u == 0x1680 || (0x2000
        <= u && u <= 0x200A) || u == 0x2028 || u == 0x2029 || u == 0x202F || u == 0x205F || u
        == 0x3000
}

/// The characters of `s`, in order.
fn chars_of(s: &str) -> (r: Vec<char>)
    ensures
        r@ == s@,
{
    let n = s.unicode_len();
    let mut r: Vec<char> = Vec::new();
    let mut i: usize = 0;
    while i < n
        invariant
            n == s@.len(),
            i <= n,
            r@ == s@.subrange(0, i as int),
        decreases n - i,
    {
        r.push(s.get_char(i));
        i += 1;
    }
    assert(r@ == s@);
    r
}

/// `s[from..to]` as a vector of its own.
fn slice(s: &Vec<char>, from: usize, to: usize) -> (r: Vec<char>)
    requires
        from <= to <= s.len(),
    ensures
        r@ == s@.subrange(from as int, to as int),
{
    let mut r: Vec<char> = Vec::new();
    let mut i: usize = from;
    while i < to
        invariant
            from <= i <= to <= s.len(),
            r@ == s@.subrange(from as int, i as int),
        decreases to - i,
    {
        r.push(s[i]);
        i += 1;
    }
    r
}

/// The first position at or after `from` that holds `c`, or the length.
fn find_from(s: &Vec<char>, c: char, from: usize) -> (r: usize)
    requires
        from <= s.len(),
    ensures
        r == pos_from(s@, c, from as int),
{
    let mut i: usize = from;
    while i < s.len() && s[i] != c
        invariant
            from <= i <= s.len(),
            pos_from(s@, c, i as int) == pos_from(s@, c, from as int),
        decreases s.len() - i,
    {
        i += 1;
    }
    i
}

/// `s` without leading and trailing white space.
fn trim_chars(s: &Vec<char>) -> (r: Vec<char>)
    ensures
        r@ == trim(s@),
{
    let mut lo: usize = 0;
    while lo < s.len() && is_space_char(s[lo])
        invariant
            lo <= s.len(),
            skip_space(s@, lo as int) == skip_space(s@, 0),
        decreases s.len() - lo,
    {
        lo += 1;
    }
    let mut hi: usize = s.len();
    while hi > lo && is_space_char(s[hi - 1])
        invariant
            lo <= hi <= s.len(),
            skip_space(s@, 0) == lo,
            back_space(s@, lo as int, hi as int) == back_space(s@, lo as int, s.len() as int),
        decreases hi - lo,
    {
        hi -= 1;
    }
    slice(s, lo, hi)
}

/// The digits `d` read as a decimal number, when they are digits and fit.
fn read_decimal(d: &Vec<char>) -> (r: Option<usize>)
    ensures
        r == decimal_fit(d@),
{
    if d.len() == 0 {
        return None;
    }
    let mut v: usize = 0;
    let mut i: usize = 0;
    while i < d.len()
        invariant
            i <= d.len(),
            all_digits(d@.subrange(0, i as int)),
            v == decimal(d@.subrange(0, i as int)),
        decreases d.len() - i,
    {
        let u = d[i] as u32;
        if !('0' as u32 <= u && u <= '9' as u32) {
            assert(!is_digit(d@[i as int]));
            assert(!all_digits(d@));
            return None;
        }
        let ghost pre = d@.subrange(0, i as int);
        let ghost next = d@.subrange(0, i + 1);
        assert(next.drop_last() == pre);
        assert(next.last() == d@[i as int]);
        assert(decimal(next) == decimal(pre) * 10 + digit_value(d@[i as int]));
        let dv = (u - '0' as u32) as usize;
        let w = match v.checked_mul(10) {
            Some(m) => m.checked_add(dv),
            None => None,
        };
        match w {
            Some(w) => {
                v = w;
            },
            None => {
                proof {
                    if all_digits(d@) {
                        lemma_decimal_prefix(d@, i + 1);
                    }
                }
                return None;
            },
        }
        i += 1;
        assert(all_digits(d@.subrange(0, i as int)));
    }
    assert(d@.subrange(0, i as int) == d@);
    Some(v)
}

/// `s` read as an unsigned machine integer (see `number`).
fn parse_number(s: &Vec<char>) -> (r: Option<usize>)
    ensures
        r == number(s@),
{
    if s.len() > 0 && s[0] == '+' {
        assert(s@.drop_first() == s@.subrange(1, s.len() as int));
        read_decimal(&slice(s, 1, s.len()))
    } else {
        read_decimal(s)
    }
}

/// Appends `lo, lo + 1, ..., hi` to `out`.
fn push_span(out: &mut Vec<usize>, lo: usize, hi: usize)
    requires
        lo <= hi,
    ensures
        final(out)@ == old(out)@ + span(lo, hi),
{
    let mut i: usize = lo;
    while i < hi
        invariant
            lo <= i <= hi,
            out@ == old(out)@ + Seq::new((i - lo) as nat, |k: int| (lo + k) as usize),
        decreases hi - i,
    {
        out.push(i);
        i += 1;
        assert(out@ == old(out)@ + Seq::new((i - lo) as nat, |k: int| (lo + k) as usize));
    }
    out.push(hi);
    assert(out@ == old(out)@ + span(lo, hi));
}

/// Appends the indexes of one piece to `out`.
fn push_piece(out: &mut Vec<usize>, t: &Vec<char>)
    ensures
        final(out)@ == old(out)@ + piece_indexes(t@),
{
    let p = trim_chars(t);
    let k = find_from(&p, '-', 0);
    proof {
        lemma_pos_from_bounds(p@, '-', 0);
    }
    if k < p.len() {
        let a = parse_number(&trim_chars(&slice(&p, 0, k)));
        let b = parse_number(&trim_chars(&slice(&p, k + 1, p.len())));
        match (a, b) {
            (Some(a), Some(b)) => {
                if a <= b {
                    push_span(out, a, b);
                } else {
                    push_span(out, b, a);
                }
            },
            _ => {
                assert(out@ == old(out)@ + piece_indexes(t@));
            },
        }
    } else {
        match parse_number(&p) {
            Some(v) => {
                out.push(v);
            },
            None => {
                assert(out@ == old(out)@ + piece_indexes(t@));
            },
        }
    }
}

/// Parses a comma-separated list of indexes and inclusive ranges. White
/// space around pieces and range ends is ignored, empty pieces and pieces
/// that do not parse are skipped, a range expands in ascending order
/// whichever end comes first, and the pieces keep their order; nothing is
/// sorted or deduplicated.
pub fn parse_index_list(text: &str) -> (r: Vec<usize>)
    ensures
        r@ == index_list(text@),
{
    let s = chars_of(text);
    let mut out: Vec<usize> = Vec::new();
    let mut i: usize = 0;
    loop
        invariant_except_break
            out@ + indexes_from(s@, i as int) == index_list(s@),
        invariant
            i <= s.len(),
            s@ == text@,
        ensures
            out@ == index_list(s@),
        decreases s.len() - i,
    {
        let e = find_from(&s, ',', i);
        proof {
            lemma_pos_from_bounds(s@, ',', i as int);
        }
        let piece = slice(&s, i, e);
        let ghost before = out@;
        push_piece(&mut out, &piece);
        if e >= s.len() {
            assert(out@ == index_list(s@));
            break;
        }
        assert(indexes_from(s@, i as int) == piece_indexes(s@.subrange(i as int, e as int))
            + indexes_from(s@, e + 1));
        assert(before + indexes_from(s@, i as int) == out@ + indexes_from(s@, e + 1));
        i = e + 1;
    }
    out
}

} // verus!
