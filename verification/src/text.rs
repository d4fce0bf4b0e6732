//! Text primitives: decimal digits, whitespace trimming, and parsing of the
//! numeric fields that workflows read from terminal lines.

use vstd::prelude::*;

verus! {

/// The character for one decimal digit value.
pub open spec fn digit_char(d: int) -> char {
    if d == 0 { '0' }
    else if d == 1 { '1' }
    else if d == 2 { '2' }
    else if d == 3 { '3' }
    else if d == 4 { '4' }
    else if d == 5 { '5' }
    else if d == 6 { '6' }
    else if d == 7 { '7' }
    else if d == 8 { '8' }
    else { '9' }
}

/// The value of a decimal digit character, or -1 for any other character.
pub open spec fn digit_val(c: char) -> int {
    if c == '0' { 0 }
    else if c == '1' { 1 }
    else if c == '2' { 2 }
    else if c == '3' { 3 }
    else if c == '4' { 4 }
    else if c == '5' { 5 }
    else if c == '6' { 6 }
    else if c == '7' { 7 }
    else if c == '8' { 8 }
    else if c == '9' { 9 }
    else { -1 }
}

pub open spec fn is_digit(c: char) -> bool {
    digit_val(c) >= 0
}

/// The decimal representation of `n`, most significant digit first.
pub open spec fn digits_of(n: nat) -> Seq<char>
    decreases n,
{
    if n < 10 {
        seq![digit_char(n as int)]
    } else {
        digits_of(n / 10).push(digit_char((n % 10) as int))
    }
}

pub proof fn lemma_digits_of_wf(n: nat)
    ensures
        digits_of(n).len() >= 1,
        forall|i: int| 0 <= i < digits_of(n).len() ==> is_digit(#[trigger] digits_of(n)[i]),
    decreases n,
{
    if n >= 10 {
        lemma_digits_of_wf(n / 10);
    }
}

/// The numeric value of a digit string, read most significant digit first.
pub open spec fn text_val(s: Seq<char>) -> nat
    decreases s.len(),
{
    if s.len() == 0 {
        0
    } else {
        (text_val(s.drop_last()) * 10 + digit_val(s.last())) as nat
    }
}

pub open spec fn all_digits(s: Seq<char>) -> bool {
    forall|i: int| 0 <= i < s.len() ==> is_digit(#[trigger] s[i])
}

/// A digit string of at most two digits has a value of at most 99,
/// of at most one digit a value of at most 9.
pub proof fn lemma_text_val_two_digits(s: Seq<char>)
    requires
        s.len() <= 2,
        all_digits(s),
    ensures
        text_val(s) <= 99,
        s.len() <= 1 ==> text_val(s) <= 9,
{
    if s.len() >= 1 {
        assert(is_digit(s.last()) && digit_val(s.last()) <= 9);
        let dl = s.drop_last();
        assert(all_digits(dl));
        if s.len() == 2 {
            assert(is_digit(dl.last()) && digit_val(dl.last()) <= 9);
            assert(dl.drop_last() =~= Seq::<char>::empty());
            assert(text_val(dl) == text_val(dl.drop_last()) * 10 + digit_val(dl.last()));
        } else {
            assert(dl =~= Seq::<char>::empty());
        }
        assert(text_val(s) == text_val(dl) * 10 + digit_val(s.last()));
    }
}

fn digit_str(d: u64) -> (r: &'static str)
    requires
        d < 10,
    ensures
        r@ =~= seq![digit_char(d as int)],
{
    proof {
        reveal_strlit("0");
        reveal_strlit("1");
        reveal_strlit("2");
        reveal_strlit("3");
        reveal_strlit("4");
        reveal_strlit("5");
        reveal_strlit("6");
        reveal_strlit("7");
        reveal_strlit("8");
        reveal_strlit("9");
    }
    if d == 0 { "0" }
    else if d == 1 { "1" }
    else if d == 2 { "2" }
    else if d == 3 { "3" }
    else if d == 4 { "4" }
    else if d == 5 { "5" }
    else if d == 6 { "6" }
    else if d == 7 { "7" }
    else if d == 8 { "8" }
    else { "9" }
}

/// Render `n` in decimal, matching `digits_of`.
pub fn u64_to_string(n: u64) -> (r: String)
    ensures
        r@ == digits_of(n as nat),
    decreases n,
{
    if n < 10 {
        String::from_str(digit_str(n))
    } else {
        let mut s = u64_to_string(n / 10);
        s.append(digit_str(n % 10));
        proof {
            assert(digits_of((n / 10) as nat) + seq![digit_char((n % 10) as int)]
                =~= digits_of(n as nat));
        }
        s
    }
}

pub(crate) fn char_digit(c: char) -> (d: Option<u8>)
    ensures
        match d {
            Some(v) => digit_val(c) == v as int,
            None => !is_digit(c),
        },
{
    if c == '0' { Some(0) }
    else if c == '1' { Some(1) }
    else if c == '2' { Some(2) }
    else if c == '3' { Some(3) }
    else if c == '4' { Some(4) }
    else if c == '5' { Some(5) }
    else if c == '6' { Some(6) }
    else if c == '7' { Some(7) }
    else if c == '8' { Some(8) }
    else if c == '9' { Some(9) }
    else { None }
}

/// Parse the digit run `s[from..to]` into a value at most `cap`.
fn parse_digits_range(s: &str, from: usize, to: usize, cap: u64) -> (r: Option<u64>)
    requires
        from <= to <= s@.len(),
        cap <= (u64::MAX - 9) / 10,
    ensures
        ({
            let t = s@.subrange(from as int, to as int);
            match r {
                Some(v) => t.len() > 0 && all_digits(t) && v == text_val(t) && v <= cap,
                None => t.len() == 0 || !all_digits(t) || text_val(t) > cap,
            }
        }),
{
    if from == to {
        return None;
    }
    let mut i: usize = from;
    let mut acc: u64 = 0;
    let mut over: bool = false;
    while i < to
        invariant
            from <= i <= to <= s@.len(),
            cap <= (u64::MAX - 9) / 10,
            all_digits(s@.subrange(from as int, i as int)),
            !over ==> acc == text_val(s@.subrange(from as int, i as int)) && acc <= cap,
            over ==> text_val(s@.subrange(from as int, i as int)) > cap,
        decreases to - i,
    {
        let c = s.get_char(i);
        match char_digit(c) {
            None => {
                proof {
                    let t = s@.subrange(from as int, to as int);
                    assert(t[i - from] == s@[i as int]);
                    assert(!all_digits(t));
                }
                return None;
            },
            Some(dv) => {
                proof {
                    let pre = s@.subrange(from as int, i as int);
                    let ext = s@.subrange(from as int, i + 1);
                    assert(ext.drop_last() =~= pre);
                    assert(ext.last() == s@[i as int]);
                    assert(text_val(ext) == text_val(pre) * 10 + dv as int);
                    assert(all_digits(ext));
                }
                if !over {
                    let next: u64 = acc * 10 + dv as u64;
                    if next > cap {
                        over = true;
                        proof {
                            assert(text_val(s@.subrange(from as int, i + 1)) > cap);
                        }
                    } else {
                        acc = next;
                    }
                } else {
                    proof {
                        let pre = s@.subrange(from as int, i as int);
                        assert(text_val(pre) * 10 >= text_val(pre)) by (nonlinear_arith);
                    }
                }
            },
        }
        i = i + 1;
    }
    proof {
        assert(s@.subrange(from as int, to as int) =~= s@.subrange(from as int, i as int));
    }
    if over { None } else { Some(acc) }
}

/// Parsing of an unsigned 32-bit integer as `str::parse::<u32>` accepts it:
/// an optional leading `+`, then one or more decimal digits, rejecting
/// values above `u32::MAX`.
pub open spec fn parse_u32_spec(s: Seq<char>) -> Option<u32> {
    let t = if s.len() > 0 && s[0] == '+' { s.drop_first() } else { s };
    if t.len() > 0 && all_digits(t) && text_val(t) <= u32::MAX {
        Some(text_val(t) as u32)
    } else {
        None
    }
}

pub fn parse_u32(s: &str) -> (r: Option<u32>)
    ensures
        r == parse_u32_spec(s@),
{
    let len = s.unicode_len();
    let start: usize = if len > 0 && s.get_char(0) == '+' { 1 } else { 0 };
    proof {
        if start == 1 {
            assert(s@.drop_first() =~= s@.subrange(1, len as int));
        } else {
            assert(s@ =~= s@.subrange(0, len as int));
        }
    }
    match parse_digits_range(s, start, len, 0xFFFF_FFFFu64) {
        Some(v) => Some(v as u32),
        None => None,
    }
}

/// The largest whole-currency amount whose price in hundredths still fits
/// in 64 bits with a two-digit fraction added.
pub const PRICE_UNIT_CAP: u64 = (18446744073709551615 - 99) / 100;

/// Index of the first `.` in `s`, or `s.len()` if there is none.
pub open spec fn first_dot(s: Seq<char>) -> int
    decreases s.len(),
{
    if s.len() == 0 {
        0
    } else if s[0] == '.' {
        0
    } else {
        1 + first_dot(s.drop_first())
    }
}

pub proof fn lemma_first_dot_at(s: Seq<char>, d: int)
    requires
        0 <= d <= s.len(),
        forall|k: int| 0 <= k < d ==> s[k] != '.',
        d == s.len() || s[d] == '.',
    ensures
        first_dot(s) == d,
    decreases s.len(),
{
    if s.len() > 0 && s[0] != '.' {
        lemma_first_dot_at(s.drop_first(), d - 1);
    }
}

/// Parsing of a non-negative decimal price into hundredths (cents):
/// one or more digits, optionally followed by `.` and one or two fraction
/// digits; the whole part may not exceed `PRICE_UNIT_CAP`.
pub open spec fn price_cents_spec(s: Seq<char>) -> Option<u64> {
    let d = first_dot(s);
    let ip = s.take(d);
    if !(ip.len() > 0 && all_digits(ip) && text_val(ip) <= PRICE_UNIT_CAP) {
        None
    } else if d == s.len() {
        Some((text_val(ip) * 100) as u64)
    } else {
        let fp = s.skip(d + 1);
        if 1 <= fp.len() <= 2 && all_digits(fp) {
            let frac = if fp.len() == 1 { text_val(fp) * 10 } else { text_val(fp) };
            Some((text_val(ip) * 100 + frac) as u64)
        } else {
            None
        }
    }
}

fn find_dot(s: &str, i: usize, len: usize) -> (r: usize)
    requires
        len == s@.len(),
        i <= len,
    ensures
        i <= r <= len,
        forall|k: int| i <= k < r ==> s@[k] != '.',
        r == len || s@[r as int] == '.',
    decreases len - i,
{
    if i < len {
        if s.get_char(i) == '.' {
            i
        } else {
            find_dot(s, i + 1, len)
        }
    } else {
        i
    }
}

pub fn parse_price_cents(s: &str) -> (r: Option<u64>)
    ensures
        r == price_cents_spec(s@),
{
    let len = s.unicode_len();
    let d = find_dot(s, 0, len);
    proof {
        lemma_first_dot_at(s@, d as int);
        assert(s@.take(d as int) =~= s@.subrange(0, d as int));
    }
    match parse_digits_range(s, 0, d, PRICE_UNIT_CAP) {
        None => None,
        Some(units) => {
            proof {
                assert(units * 100 + 99 <= u64::MAX) by (nonlinear_arith)
                    requires units <= (18446744073709551615u64 - 99) / 100;
            }
            if d == len {
                Some(units * 100)
            } else {
                let flen: usize = len - (d + 1);
                proof {
                    assert(s@.skip(d + 1) =~= s@.subrange(d + 1, len as int));
                }
                if flen == 0 || flen > 2 {
                    None
                } else {
                    match parse_digits_range(s, d + 1, len, 99) {
                        None => {
                            proof {
                                let fp = s@.subrange(d + 1, len as int);
                                if all_digits(fp) {
                                    lemma_text_val_two_digits(fp);
                                }
                            }
                            None
                        },
                        Some(f) => {
                            proof {
                                lemma_text_val_two_digits(s@.subrange(d + 1, len as int));
                            }
                            if flen == 1 {
                                Some(units * 100 + f * 10)
                            } else {
                                Some(units * 100 + f)
                            }
                        },
                    }
                }
            }
        },
    }
}

/// Whitespace as the terminal lines carry it.
pub open spec fn is_space(c: char) -> bool {
    c == ' ' || c == '\t' || c == '\n' || c == '\r'
}

pub open spec fn trim_front(s: Seq<char>) -> Seq<char>
    decreases s.len(),
{
    if s.len() > 0 && is_space(s[0]) {
        trim_front(s.drop_first())
    } else {
        s
    }
}

pub open spec fn trim_back(s: Seq<char>) -> Seq<char>
    decreases s.len(),
{
    if s.len() > 0 && is_space(s.last()) {
        trim_back(s.drop_last())
    } else {
        s
    }
}

/// `s` with leading and trailing whitespace removed.
pub open spec fn trim_spec(s: Seq<char>) -> Seq<char> {
    trim_back(trim_front(s))
}

proof fn lemma_trim_front_is_skip(s: Seq<char>, i: int)
    requires
        0 <= i <= s.len(),
        forall|j: int| 0 <= j < i ==> is_space(s[j]),
        i == s.len() || !is_space(s[i]),
    ensures
        trim_front(s) == s.skip(i),
    decreases i,
{
    if i == 0 {
        assert(s.skip(0) =~= s);
    } else {
        lemma_trim_front_is_skip(s.drop_first(), i - 1);
        assert(s.drop_first().skip(i - 1) =~= s.skip(i));
    }
}

proof fn lemma_trim_back_is_take(s: Seq<char>, j: int)
    requires
        0 <= j <= s.len(),
        forall|k: int| j <= k < s.len() ==> is_space(s[k]),
        j == 0 || !is_space(s[j - 1]),
    ensures
        trim_back(s) == s.take(j),
    decreases s.len(),
{
    if s.len() > 0 && is_space(s.last()) {
        assert(j < s.len());
        lemma_trim_back_is_take(s.drop_last(), j);
        assert(s.drop_last().take(j) =~= s.take(j));
    } else {
        assert(j == s.len());
        assert(s.take(j) =~= s);
    }
}

fn is_space_char(c: char) -> (r: bool)
    ensures
        r == is_space(c),
{
    c == ' ' || c == '\t' || c == '\n' || c == '\r'
}

fn scan_spaces(s: &str, i: usize, len: usize) -> (r: usize)
    requires
        len == s@.len(),
        i <= len,
    ensures
        i <= r <= len,
        forall|j: int| i <= j < r ==> is_space(s@[j]),
        r == len || !is_space(s@[r as int]),
    decreases len - i,
{
    if i < len {
        if is_space_char(s.get_char(i)) {
            scan_spaces(s, i + 1, len)
        } else {
            i
        }
    } else {
        i
    }
}

fn scan_spaces_back(s: &str, j: usize) -> (r: usize)
    requires
        j <= s@.len(),
    ensures
        r <= j,
        forall|k: int| r <= k < j ==> is_space(s@[k]),
        r == 0 || !is_space(s@[r - 1]),
    decreases j,
{
    if j > 0 {
        if is_space_char(s.get_char(j - 1)) {
            scan_spaces_back(s, j - 1)
        } else {
            j
        }
    } else {
        0
    }
}

/// `s` with leading and trailing whitespace removed, as `trim_spec` says.
pub fn trim(s: &str) -> (r: String)
    ensures
        r@ == trim_spec(s@),
{
    let len = s.unicode_len();
    let start = scan_spaces(s, 0, len);
    if start == len {
        proof {
            lemma_trim_front_is_skip(s@, start as int);
            assert(s@.skip(len as int) =~= Seq::<char>::empty());
        }
        String::new()
    } else {
        let end = scan_spaces_back(s, len);
        proof {
            assert(end > start) by {
                if end <= start {
                    assert(is_space(s@[start as int]));
                }
            }
            lemma_trim_front_is_skip(s@, start as int);
            let t = s@.skip(start as int);
            assert(forall|k: int| end - start <= k < t.len() ==> is_space(#[trigger] t[k]));
            assert(!is_space(t[end - start - 1]));
            lemma_trim_back_is_take(t, end - start);
            assert(t.take(end - start) =~= s@.subrange(start as int, end as int));
        }
        let sub = s.substring_char(start, end);
        sub.to_owned()
    }
}

} // verus!
