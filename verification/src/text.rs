//! Character-level text handling: whitespace trimming, decimal numbers,
//! prefixes, suffixes and substrings, stated over `Seq<char>`.
use vstd::prelude::*;

verus! {

/// The characters of `s`, in order.
pub fn chars_of(s: &str) -> (v: Vec<char>)
    ensures
        v@ == s@,
{
    let mut out: Vec<char> = Vec::new();
    for c in it: s.chars()
        invariant
            out@ == it.seq().take(it.index() as int),
            it.seq() == s@,
    {
        out.push(c);
    }
    out
}

/// `String::push`: the standard library appends the character to the end
/// of the string; the contract states exactly that.
#[verifier::external_body]
fn push_char(s: &mut String, c: char)
    ensures
        final(s)@ == old(s)@.push(c),
{
    s.push(c);
}

/// The string made of the characters `cs[from..to]`.
pub fn string_from_chars(cs: &Vec<char>, from: usize, to: usize) -> (r: String)
    requires
        from <= to <= cs@.len(),
    ensures
        r@ == cs@.subrange(from as int, to as int),
{
    let mut out = String::new();
    let mut i = from;
    while i < to
        invariant
            from <= i <= to <= cs@.len(),
            out@ == cs@.subrange(from as int, i as int),
        decreases to - i,
    {
        push_char(&mut out, cs[i]);
        proof {
            assert(cs@.subrange(from as int, i + 1) =~= cs@.subrange(from as int, i as int).push(cs@[i as int]));
        }
        i = i + 1;
    }
    out
}

/// Whether `c` has the Unicode `White_Space` property (what
/// `char::is_whitespace` tests).
pub open spec fn is_white_space(c: char) -> bool {
    ||| ('\u{9}' <= c && c <= '\u{d}')
    ||| c == ' '
    ||| c == '\u{85}'
    ||| c == '\u{a0}'
    ||| c == '\u{1680}'
    ||| ('\u{2000}' <= c && c <= '\u{200a}')
    ||| c == '\u{2028}'
    ||| c == '\u{2029}'
    ||| c == '\u{202f}'
    ||| c == '\u{205f}'
    ||| c == '\u{3000}'
}

/// Tests the `White_Space` property.
pub fn white_space(c: char) -> (r: bool)
    ensures
        r == is_white_space(c),
{
    ('\u{9}' <= c && c <= '\u{d}') || c == ' ' || c == '\u{85}' || c == '\u{a0}' || c == '\u{1680}'
        || ('\u{2000}' <= c && c <= '\u{200a}') || c == '\u{2028}' || c == '\u{2029}' || c
        == '\u{202f}' || c == '\u{205f}' || c == '\u{3000}'
}

/// `s` without its leading white space.
pub open spec fn trim_start(s: Seq<char>) -> Seq<char>
    decreases s.len(),
{
    if s.len() > 0 && is_white_space(s[0]) {
        trim_start(s.drop_first())
    } else {
        s
    }
}

/// `s` without its trailing white space.
pub open spec fn trim_end(s: Seq<char>) -> Seq<char>
    decreases s.len(),
{
    if s.len() > 0 && is_white_space(s.last()) {
        trim_end(s.drop_last())
    } else {
        s
    }
}

/// `s` without leading and trailing white space (what `str::trim` gives).
pub open spec fn trim(s: Seq<char>) -> Seq<char> {
    trim_end(trim_start(s))
}

proof fn lemma_trim_start_from(s: Seq<char>, i: int)
    requires
        0 <= i <= s.len(),
        forall|j: int| 0 <= j < i ==> is_white_space(#[trigger] s[j]),
    ensures
        trim_start(s) == trim_start(s.subrange(i, s.len() as int)),
    decreases i,
{
    if i > 0 {
        assert(s.drop_first().subrange(i - 1, s.drop_first().len() as int) =~= s.subrange(i, s.len() as int));
        lemma_trim_start_from(s.drop_first(), i - 1);
    } else {
        assert(s.subrange(0, s.len() as int) =~= s);
    }
}

proof fn lemma_trim_end_to(s: Seq<char>, k: int)
    requires
        0 <= k <= s.len(),
        forall|j: int| k <= j < s.len() ==> is_white_space(#[trigger] s[j]),
    ensures
        trim_end(s) == trim_end(s.subrange(0, k)),
    decreases s.len() - k,
{
    if k < s.len() {
        assert(s.drop_last().subrange(0, k) =~= s.subrange(0, k));
        lemma_trim_end_to(s.drop_last(), k);
    } else {
        assert(s.subrange(0, k) =~= s);
    }
}

/// The bounds `[from, to)` of `cs[start..end]` with surrounding white space
/// removed.
pub fn trim_bounds(cs: &Vec<char>, start: usize, end: usize) -> (r: (usize, usize))
    requires
        start <= end <= cs@.len(),
    ensures
        start <= r.0 <= r.1 <= end,
        cs@.subrange(r.0 as int, r.1 as int) == trim(cs@.subrange(start as int, end as int)),
{
    let ghost s = cs@.subrange(start as int, end as int);
    let mut i = start;
    while i < end && white_space(cs[i])
        invariant
            start <= i <= end <= cs@.len(),
            s == cs@.subrange(start as int, end as int),
            forall|j: int| start <= j < i ==> is_white_space(#[trigger] cs@[j]),
        decreases end - i,
    {
        i = i + 1;
    }
    let ghost rest = cs@.subrange(i as int, end as int);
    proof {
        assert forall|j: int| 0 <= j < i - start implies is_white_space(#[trigger] s[j]) by {
            assert(s[j] == cs@[start + j]);
        }
        lemma_trim_start_from(s, i - start);
        assert(s.subrange(i - start, s.len() as int) =~= rest);
        if rest.len() > 0 {
            assert(rest[0] == cs@[i as int]);
        }
        assert(trim_start(rest) == rest);
    }
    let mut k = end;
    while k > i && white_space(cs[k - 1])
        invariant
            start <= i <= k <= end <= cs@.len(),
            rest == cs@.subrange(i as int, end as int),
            forall|j: int| k <= j < end ==> is_white_space(#[trigger] cs@[j]),
        decreases k - i,
    {
        k = k - 1;
    }
    proof {
        assert forall|j: int| k - i <= j < rest.len() implies is_white_space(#[trigger] rest[j]) by {
            assert(rest[j] == cs@[i + j]);
        }
        lemma_trim_end_to(rest, k - i);
        let t = rest.subrange(0, k - i);
        assert(t =~= cs@.subrange(i as int, k as int));
        if t.len() > 0 {
            assert(t.last() == cs@[k - 1]);
        }
        assert(trim_end(t) == t);
    }
    (i, k)
}

/// `s` with surrounding white space removed.
pub fn trimmed(s: &str) -> (r: String)
    ensures
        r@ == trim(s@),
{
    let cs = chars_of(s);
    let (from, to) = trim_bounds(&cs, 0, cs.len());
    proof {
        assert(cs@.subrange(0, cs@.len() as int) =~= cs@);
    }
    string_from_chars(&cs, from, to)
}

// ---------------------------------------------------------------------------
// Decimal numbers.
// ---------------------------------------------------------------------------

/// Whether `c` is an ASCII decimal digit.
pub open spec fn is_digit(c: char) -> bool {
    '0' <= c && c <= '9'
}

/// The number that the decimal digits `d` spell.
pub open spec fn digits_value(d: Seq<char>) -> nat
    decreases d.len(),
{
    if d.len() == 0 {
        0
    } else {
        digits_value(d.drop_last()) * 10 + (d.last() as nat - '0' as nat) as nat
    }
}

/// `s` without one leading `+`.
pub open spec fn without_plus(s: Seq<char>) -> Seq<char> {
    if s.len() > 0 && s[0] == '+' {
        s.drop_first()
    } else {
        s
    }
}

/// Whether every character of `d` is an ASCII digit.
pub open spec fn all_digits(d: Seq<char>) -> bool {
    forall|i: int| 0 <= i < d.len() ==> is_digit(#[trigger] d[i])
}

/// What `str::parse` gives for an unsigned integer type whose largest
/// value is `max`: an optional `+`, then one or more ASCII digits whose
/// value does not exceed `max`.
pub open spec fn parse_unsigned(s: Seq<char>, max: nat) -> Option<nat> {
    let d = without_plus(s);
    if d.len() > 0 && all_digits(d) && digits_value(d) <= max {
        Some(digits_value(d))
    } else {
        None
    }
}

proof fn lemma_parse_rejects(s: Seq<char>, d: Seq<char>, max: nat, j: int)
    requires
        d == without_plus(s),
        0 <= j < d.len(),
        !is_digit(d[j]) || digits_value(d) > max,
    ensures
        parse_unsigned(s, max) is None,
{
}

proof fn lemma_digits_value_grows(d: Seq<char>, k: int)
    requires
        0 <= k <= d.len(),
        forall|i: int| 0 <= i < d.len() ==> is_digit(#[trigger] d[i]),
    ensures
        digits_value(d.subrange(0, k)) <= digits_value(d),
    decreases d.len() - k,
{
    if k < d.len() {
        assert(d.drop_last().subrange(0, k) =~= d.subrange(0, k));
        lemma_digits_value_grows(d.drop_last(), k);
    } else {
        assert(d.subrange(0, k) =~= d);
    }
}

/// Parses `cs[start..end]` as an unsigned decimal number no larger than
/// `max`, as `str::parse` does for an unsigned integer type.
pub fn parse_decimal(cs: &Vec<char>, start: usize, end: usize, max: u64) -> (r: Option<u64>)
    requires
        start <= end <= cs@.len(),
    ensures
        match parse_unsigned(cs@.subrange(start as int, end as int), max as nat) {
            Some(v) => r == Some(v as u64),
            None => r is None,
        },
{
    let ghost s = cs@.subrange(start as int, end as int);
    let mut i = start;
    if i < end && cs[i] == '+' {
        i = i + 1;
    }
    let ghost d = cs@.subrange(i as int, end as int);
    proof {
        if s.len() > 0 && s[0] == '+' {
            assert(s.drop_first() =~= d);
        } else {
            assert(s =~= d);
        }
    }
    if i == end {
        return None;
    }
    let digits_start = i;
    let mut acc: u64 = 0;
    while i < end
        invariant
            start <= digits_start <= i <= end <= cs@.len(),
            d == cs@.subrange(digits_start as int, end as int),
            s == cs@.subrange(start as int, end as int),
            d == without_plus(s),
            forall|j: int| digits_start <= j < i ==> is_digit(#[trigger] cs@[j]),
            acc == digits_value(cs@.subrange(digits_start as int, i as int)),
            acc <= max,
        decreases end - i,
    {
        let c = cs[i];
        if !('0' <= c && c <= '9') {
            proof {
                assert(d[i - digits_start] == c);
                assert(!is_digit(d[i - digits_start]));
                lemma_parse_rejects(s, d, max as nat, i - digits_start);
            }
            return None;
        }
        let digit = (c as u32 - '0' as u32) as u64;
        proof {
            let next = cs@.subrange(digits_start as int, i + 1);
            assert(next.drop_last() =~= cs@.subrange(digits_start as int, i as int));
            assert(digits_value(next) == acc * 10 + digit);
        }
        if digit > max || acc > (max - digit) / 10 {
            proof {
                let next = cs@.subrange(digits_start as int, i + 1);
                assert(acc * 10 + digit > max) by (nonlinear_arith)
                    requires
                        digit > max || acc > (max - digit) / 10,
                        digit <= 9,
                ;
                if all_digits(d) {
                    lemma_digits_value_grows(d, i + 1 - digits_start);
                    assert(d.subrange(0, i + 1 - digits_start) =~= next);
                    assert(digits_value(d) > max);
                    lemma_parse_rejects(s, d, max as nat, 0);
                } else {
                    let j = choose|j: int| 0 <= j < d.len() && !is_digit(#[trigger] d[j]);
                    lemma_parse_rejects(s, d, max as nat, j);
                }
            }
            return None;
        }
        assert(acc * 10 + digit <= max) by (nonlinear_arith)
            requires
                acc <= (max - digit) / 10,
                digit <= max,
        ;
        acc = acc * 10 + digit;
        i = i + 1;
    }
    proof {
        assert(cs@.subrange(digits_start as int, i as int) =~= d);
    }
    Some(acc)
}

/// Parses the whole of `s` as a `u64`.
pub fn parse_u64(s: &str) -> (r: Option<u64>)
    ensures
        match parse_unsigned(s@, u64::MAX as nat) {
            Some(v) => r == Some(v as u64),
            None => r is None,
        },
{
    let cs = chars_of(s);
    proof {
        assert(cs@.subrange(0, cs@.len() as int) =~= cs@);
    }
    parse_decimal(&cs, 0, cs.len(), u64::MAX)
}

/// The decimal digit for `d < 10`.
pub open spec fn digit_char(d: nat) -> char {
    ('0' as nat + d) as char
}

/// The decimal spelling of `n`, without leading zeros.
pub open spec fn decimal(n: nat) -> Seq<char>
    decreases n,
{
    if n < 10 {
        seq![digit_char(n)]
    } else {
        decimal(n / 10).push(digit_char(n % 10))
    }
}

/// The decimal spelling of `n` is one or more digits that spell `n`.
pub proof fn lemma_decimal_digits(n: nat)
    ensures
        decimal(n).len() >= 1,
        all_digits(decimal(n)),
        digits_value(decimal(n)) == n,
    decreases n,
{
    if n >= 10 {
        lemma_decimal_digits(n / 10);
        let d = decimal(n / 10);
        let e = d.push(digit_char(n % 10));
        assert(e.drop_last() =~= d);
        assert forall|i: int| 0 <= i < e.len() implies is_digit(#[trigger] e[i]) by {
            if i < d.len() {
                assert(e[i] == d[i]);
            }
        }
        assert(n == (n / 10) * 10 + n % 10);
        assert(e.last() == digit_char(n % 10));
        assert(digit_char(n % 10) as nat == '0' as nat + n % 10);
        assert(digits_value(e) == digits_value(d) * 10 + (e.last() as nat - '0' as nat) as nat);
        assert(digits_value(e) == n);
        assert(decimal(n) == e);
    } else {
        assert(digit_char(n) as nat == '0' as nat + n);
        let e = decimal(n);
        assert(e == seq![digit_char(n)]);
        assert(e.drop_last() =~= Seq::<char>::empty());
        assert(digits_value(e.drop_last()) == 0);
        assert(e.last() == digit_char(n));
        assert(digits_value(e) == n);
    }
}

/// Reading back a decimal spelling gives the number: `str::parse` of
/// `n.to_string()` is `n` for every `n` up to the type's largest value.
pub proof fn law_decimal_parses_back(n: nat, max: nat)
    requires
        n <= max,
    ensures
        parse_unsigned(decimal(n), max) == Some(n),
{
    lemma_decimal_digits(n);
    assert(is_digit(decimal(n)[0]));
}

/// Appends the decimal spelling of `n` to `out`.
pub fn push_decimal(out: &mut String, n: u64)
    ensures
        final(out)@ == old(out)@ + decimal(n as nat),
    decreases n,
{
    if n >= 10 {
        push_decimal(out, n / 10);
    }
    let d = (n % 10) as u32;
    let c = char_from_digit(d);
    push_char(out, c);
    proof {
        if n >= 10 {
            assert(old(out)@ + decimal(n as nat) =~= (old(out)@ + decimal((n / 10) as nat)).push(c));
        } else {
            assert(old(out)@ + decimal(n as nat) =~= old(out)@.push(c));
        }
    }
}

/// The character of the decimal digit `d`.
fn char_from_digit(d: u32) -> (c: char)
    requires
        d < 10,
    ensures
        c == digit_char(d as nat),
{
    match d {
        0 => '0',
        1 => '1',
        2 => '2',
        3 => '3',
        4 => '4',
        5 => '5',
        6 => '6',
        7 => '7',
        8 => '8',
        _ => '9',
    }
}

/// The decimal spelling of `n`.
pub fn decimal_string(n: u64) -> (r: String)
    ensures
        r@ == decimal(n as nat),
{
    let mut out = String::new();
    push_decimal(&mut out, n);
    proof {
        assert(Seq::<char>::empty() + decimal(n as nat) =~= decimal(n as nat));
    }
    out
}

// ---------------------------------------------------------------------------
// Prefixes, suffixes and substrings.
// ---------------------------------------------------------------------------

/// Whether `s` begins with `p`.
pub open spec fn has_prefix(s: Seq<char>, p: Seq<char>) -> bool {
    p.len() <= s.len() && s.subrange(0, p.len() as int) == p
}

/// Whether `s` ends with `p`.
pub open spec fn has_suffix(s: Seq<char>, p: Seq<char>) -> bool {
    p.len() <= s.len() && s.subrange(s.len() - p.len(), s.len() as int) == p
}

/// Whether `p` occurs in `s`.
pub open spec fn contains(s: Seq<char>, p: Seq<char>) -> bool {
    exists|i: int| 0 <= i && i + p.len() <= s.len() && #[trigger] s.subrange(i, i + p.len()) == p
}

/// Whether `cs[at..]` begins with `p`.
pub fn matches_at(cs: &Vec<char>, at: usize, p: &Vec<char>) -> (r: bool)
    requires
        at <= cs@.len(),
    ensures
        r == (at + p@.len() <= cs@.len() && cs@.subrange(at as int, at + p@.len()) == p@),
{
    if p.len() > cs.len() - at {
        return false;
    }
    let n = cs.len();
    let mut j: usize = 0;
    while j < p.len()
        invariant
            n == cs@.len(),
            at + p@.len() <= cs@.len(),
            0 <= j <= p@.len(),
            forall|k: int| 0 <= k < j ==> cs@[at + k] == p@[k],
        decreases p@.len() - j,
    {
        if cs[at + j] != p[j] {
            proof {
                assert(cs@.subrange(at as int, at + p@.len())[j as int] == cs@[at + j]);
            }
            return false;
        }
        j = j + 1;
    }
    proof {
        assert(cs@.subrange(at as int, at + p@.len()) =~= p@);
    }
    true
}

/// Whether `p` occurs in `cs`.
pub fn contains_chars(cs: &Vec<char>, p: &Vec<char>) -> (r: bool)
    ensures
        r == contains(cs@, p@),
{
    if p.len() > cs.len() {
        return false;
    }
    let n = cs.len();
    let last = n - p.len();
    let mut i: usize = 0;
    loop
        invariant
            n == cs@.len(),
            p@.len() <= cs@.len(),
            last == cs@.len() - p@.len(),
            0 <= i <= last,
            forall|k: int| 0 <= k < i ==> #[trigger] cs@.subrange(k, k + p@.len()) != p@,
        decreases last - i,
    {
        if matches_at(cs, i, p) {
            return true;
        }
        if i == last {
            return false;
        }
        i = i + 1;
    }
}

/// `c` with ASCII capitals made small.
pub open spec fn ascii_lower(c: char) -> char {
    if 'A' <= c && c <= 'Z' {
        ((c as u32) + 32) as char
    } else {
        c
    }
}

/// `s` with ASCII capitals made small (what `to_ascii_lowercase` gives).
pub open spec fn ascii_lowercase(s: Seq<char>) -> Seq<char> {
    Seq::new(s.len(), |i: int| ascii_lower(s[i]))
}

/// The characters of `s` with ASCII capitals made small.
pub fn lowercase_chars(s: &str) -> (r: Vec<char>)
    ensures
        r@ == ascii_lowercase(s@),
{
    let cs = chars_of(s);
    let mut out: Vec<char> = Vec::new();
    let mut i: usize = 0;
    while i < cs.len()
        invariant
            0 <= i <= cs@.len(),
            cs@ == s@,
            out@ =~= ascii_lowercase(cs@.subrange(0, i as int)),
        decreases cs@.len() - i,
    {
        let c = cs[i];
        let lower = if 'A' <= c && c <= 'Z' {
            let code = c as u32 + 32;
            proof {
                assert(code <= 0x7a);
            }
            char_from_ascii(code)
        } else {
            c
        };
        out.push(lower);
        i = i + 1;
    }
    proof {
        assert(cs@.subrange(0, cs@.len() as int) =~= cs@);
    }
    out
}

/// The character with code `code < 128`.
fn char_from_ascii(code: u32) -> (c: char)
    requires
        code < 128,
    ensures
        c as u32 == code,
{
    (code as u8) as char
}


// ---------------------------------------------------------------------------
// Lines and separators.
// ---------------------------------------------------------------------------

/// The index of the first `c` in `s`, or the length of `s`.
pub open spec fn find_first(s: Seq<char>, c: char) -> int
    decreases s.len(),
{
    if s.len() == 0 {
        0
    } else if s[0] == c {
        0
    } else {
        1 + find_first(s.drop_first(), c)
    }
}

proof fn lemma_find_first_bounds(s: Seq<char>, c: char)
    ensures
        0 <= find_first(s, c) <= s.len(),
        find_first(s, c) < s.len() ==> s[find_first(s, c)] == c,
        forall|j: int| 0 <= j < find_first(s, c) ==> s[j] != c,
    decreases s.len(),
{
    if s.len() > 0 && s[0] != c {
        lemma_find_first_bounds(s.drop_first(), c);
        assert forall|j: int| 0 <= j < find_first(s, c) implies s[j] != c by {
            if j > 0 {
                assert(s[j] == s.drop_first()[j - 1]);
            }
        }
    }
}

/// `find_first` of `s` is `k` when `s[k]` is the first `c` (or `k` is the
/// length and there is none).
pub proof fn lemma_find_first_is(s: Seq<char>, c: char, k: int)
    requires
        0 <= k <= s.len(),
        k < s.len() ==> s[k] == c,
        forall|j: int| 0 <= j < k ==> s[j] != c,
    ensures
        find_first(s, c) == k,
    decreases k,
{
    if k > 0 {
        assert forall|j: int| 0 <= j < k - 1 implies s.drop_first()[j] != c by {
            assert(s.drop_first()[j] == s[j + 1]);
        }
        lemma_find_first_is(s.drop_first(), c, k - 1);
    }
}

/// The index of the first `c` in `cs[from..to]` (relative to `cs`), or `to`.
pub fn find_char(cs: &Vec<char>, from: usize, to: usize, c: char) -> (r: usize)
    requires
        from <= to <= cs@.len(),
    ensures
        from <= r <= to,
        r - from == find_first(cs@.subrange(from as int, to as int), c),
{
    let mut i = from;
    while i < to && cs[i] != c
        invariant
            from <= i <= to <= cs@.len(),
            forall|j: int| from <= j < i ==> cs@[j] != c,
        decreases to - i,
    {
        i = i + 1;
    }
    proof {
        let s = cs@.subrange(from as int, to as int);
        assert forall|j: int| 0 <= j < i - from implies s[j] != c by {
            assert(s[j] == cs@[from + j]);
        }
        lemma_find_first_is(s, c, i - from);
    }
    i
}

/// `s` without one trailing carriage return.
pub open spec fn strip_cr(s: Seq<char>) -> Seq<char> {
    if s.len() > 0 && s.last() == '\r' {
        s.drop_last()
    } else {
        s
    }
}

/// The lines of `s` as `str::lines` gives them: split at each newline, a
/// final newline ends the last line, and a carriage return before a
/// newline is dropped (one at the very end, with no newline after it,
/// stays).
pub open spec fn split_lines(s: Seq<char>) -> Seq<Seq<char>>
    decreases s.len(),
{
    if s.len() == 0 {
        seq![]
    } else {
        let k = find_first(s, '\n');
        if k < s.len() {
            if 0 <= k {
                seq![strip_cr(s.subrange(0, k))] + split_lines(s.subrange(k + 1, s.len() as int))
            } else {
                seq![]
            }
        } else {
            seq![s]
        }
    }
}

/// The bounds of the lines of `cs`, each as `[start, end)`.
pub fn line_bounds(cs: &Vec<char>) -> (r: Vec<(usize, usize)>)
    ensures
        r@.len() == split_lines(cs@).len(),
        forall|i: int|
            0 <= i < r@.len() ==> {
                &&& (#[trigger] r@[i]).0 <= r@[i].1 <= cs@.len()
                &&& cs@.subrange(r@[i].0 as int, r@[i].1 as int) == split_lines(cs@)[i]
            },
{
    let mut out: Vec<(usize, usize)> = Vec::new();
    let mut pos: usize = 0;
    let n = cs.len();
    proof {
        assert(cs@.subrange(0, n as int) =~= cs@);
    }
    while pos < n
        invariant
            n == cs@.len(),
            0 <= pos <= n,
            split_lines(cs@) == out@.map_values(|b: (usize, usize)| cs@.subrange(b.0 as int, b.1 as int))
                + split_lines(cs@.subrange(pos as int, n as int)),
            forall|i: int| 0 <= i < out@.len() ==> (#[trigger] out@[i]).0 <= out@[i].1 <= cs@.len(),
        decreases n - pos,
    {
        let ghost rest = cs@.subrange(pos as int, n as int);
        let k = find_char(cs, pos, n, '\n');
        proof {
            lemma_find_first_bounds(rest, '\n');
        }
        let mut end = k;
        if k < n && end > pos && cs[end - 1] == '\r' {
            end = end - 1;
        }
        let ghost line = cs@.subrange(pos as int, end as int);
        proof {
            let whole = cs@.subrange(pos as int, k as int);
            assert(whole =~= rest.subrange(0, k - pos));
            if k < n && k > pos && cs@[k - 1] == '\r' {
                assert(whole.drop_last() =~= line);
            } else {
                assert(whole =~= line);
            }
            assert(k < n ==> strip_cr(whole) == line);
            assert(k == n ==> whole == line);
        }
        let ghost before = out@;
        out.push((pos, end));
        proof {
            let f = |b: (usize, usize)| cs@.subrange(b.0 as int, b.1 as int);
            assert(out@.map_values(f) =~= before.map_values(f).push(line));
            if k < n {
                assert(rest.subrange(k - pos + 1, rest.len() as int) =~= cs@.subrange(k + 1, n as int));
                assert(split_lines(rest) == seq![line] + split_lines(cs@.subrange(k + 1, n as int)));
            } else {
                assert(rest.subrange(0, k - pos) =~= rest);
                assert(split_lines(rest) == seq![line]);
                assert(cs@.subrange(n as int, n as int) =~= Seq::<char>::empty());
            }
        }
        if k < n {
            pos = k + 1;
        } else {
            pos = n;
        }
        proof {
            let f = |b: (usize, usize)| cs@.subrange(b.0 as int, b.1 as int);
            assert(before.map_values(f).push(line) + split_lines(cs@.subrange(pos as int, n as int))
                =~= before.map_values(f) + (seq![line] + split_lines(cs@.subrange(pos as int, n as int))));
        }
    }
    proof {
        let f = |b: (usize, usize)| cs@.subrange(b.0 as int, b.1 as int);
        assert(cs@.subrange(n as int, n as int) =~= Seq::<char>::empty());
        assert(split_lines(cs@) =~= out@.map_values(f));
        assert forall|i: int| 0 <= i < out@.len() implies cs@.subrange(
            (#[trigger] out@[i]).0 as int,
            out@[i].1 as int,
        ) == split_lines(cs@)[i] by {
            assert(out@.map_values(f)[i] == f(out@[i]));
        }
    }
    out
}


/// Whether two strings hold the same characters.
pub fn same_text(a: &str, b: &str) -> (r: bool)
    ensures
        r == (a@ == b@),
{
    let x = chars_of(a);
    let y = chars_of(b);
    if x.len() != y.len() {
        return false;
    }
    let mut i: usize = 0;
    while i < x.len()
        invariant
            0 <= i <= x@.len(),
            x@.len() == y@.len(),
            x@ == a@,
            y@ == b@,
            forall|j: int| 0 <= j < i ==> x@[j] == y@[j],
        decreases x@.len() - i,
    {
        if x[i] != y[i] {
            assert(x@[i as int] != y@[i as int]);
            return false;
        }
        i = i + 1;
    }
    assert(x@ =~= y@);
    true
}

/// The view of an optional string.
pub open spec fn opt_text(s: Option<String>) -> Option<Seq<char>> {
    match s {
        Some(t) => Some(t@),
        None => None,
    }
}

/// A file's contents with surrounding white space removed, when there is
/// something left (what reading a one-value sysfs file gives).
pub open spec fn nonempty_trimmed(contents: Option<Seq<char>>) -> Option<Seq<char>> {
    match contents {
        Some(t) => if trim(t).len() > 0 {
            Some(trim(t))
        } else {
            None
        },
        None => None,
    }
}

/// Trims file contents and drops them when nothing is left.
pub fn trimmed_value(contents: &Option<String>) -> (r: Option<String>)
    ensures
        opt_text(r) == nonempty_trimmed(opt_text(*contents)),
{
    match contents {
        Some(text) => {
            let t = trimmed(text.as_str());
            if t.as_str().is_empty() {
                None
            } else {
                Some(t)
            }
        },
        None => None,
    }
}


/// Whether `cs[from..to]` holds exactly the characters of `p`.
pub fn span_is(cs: &Vec<char>, from: usize, to: usize, p: &str) -> (r: bool)
    requires
        from <= to <= cs@.len(),
    ensures
        r == (cs@.subrange(from as int, to as int) == p@),
{
    let pc = chars_of(p);
    if to - from != pc.len() {
        proof {
            assert(cs@.subrange(from as int, to as int).len() != p@.len());
        }
        return false;
    }
    let m = matches_at(cs, from, &pc);
    m
}

/// `s` without leading copies of `c`.
pub open spec fn strip_start_char(s: Seq<char>, c: char) -> Seq<char>
    decreases s.len(),
{
    if s.len() > 0 && s[0] == c {
        strip_start_char(s.drop_first(), c)
    } else {
        s
    }
}

/// `s` without trailing copies of `c`.
pub open spec fn strip_end_char(s: Seq<char>, c: char) -> Seq<char>
    decreases s.len(),
{
    if s.len() > 0 && s.last() == c {
        strip_end_char(s.drop_last(), c)
    } else {
        s
    }
}

/// `s` without leading and trailing copies of `c` (what `trim_matches`
/// with one character gives).
pub open spec fn strip_char(s: Seq<char>, c: char) -> Seq<char> {
    strip_end_char(strip_start_char(s, c), c)
}

proof fn lemma_strip_start_from(s: Seq<char>, c: char, i: int)
    requires
        0 <= i <= s.len(),
        forall|j: int| 0 <= j < i ==> #[trigger] s[j] == c,
    ensures
        strip_start_char(s, c) == strip_start_char(s.subrange(i, s.len() as int), c),
    decreases i,
{
    if i > 0 {
        assert(s.drop_first().subrange(i - 1, s.drop_first().len() as int) =~= s.subrange(i, s.len() as int));
        lemma_strip_start_from(s.drop_first(), c, i - 1);
    } else {
        assert(s.subrange(0, s.len() as int) =~= s);
    }
}

proof fn lemma_strip_end_to(s: Seq<char>, c: char, k: int)
    requires
        0 <= k <= s.len(),
        forall|j: int| k <= j < s.len() ==> #[trigger] s[j] == c,
    ensures
        strip_end_char(s, c) == strip_end_char(s.subrange(0, k), c),
    decreases s.len() - k,
{
    if k < s.len() {
        assert(s.drop_last().subrange(0, k) =~= s.subrange(0, k));
        lemma_strip_end_to(s.drop_last(), c, k);
    } else {
        assert(s.subrange(0, k) =~= s);
    }
}

/// The bounds of `cs[start..end]` without leading and trailing `c`.
pub fn strip_char_bounds(cs: &Vec<char>, start: usize, end: usize, c: char) -> (r: (usize, usize))
    requires
        start <= end <= cs@.len(),
    ensures
        start <= r.0 <= r.1 <= end,
        cs@.subrange(r.0 as int, r.1 as int) == strip_char(cs@.subrange(start as int, end as int), c),
{
    let ghost s = cs@.subrange(start as int, end as int);
    let mut i = start;
    while i < end && cs[i] == c
        invariant
            start <= i <= end <= cs@.len(),
            forall|j: int| start <= j < i ==> #[trigger] cs@[j] == c,
        decreases end - i,
    {
        i = i + 1;
    }
    let ghost rest = cs@.subrange(i as int, end as int);
    proof {
        assert forall|j: int| 0 <= j < i - start implies #[trigger] s[j] == c by {
            assert(s[j] == cs@[start + j]);
        }
        lemma_strip_start_from(s, c, i - start);
        assert(s.subrange(i - start, s.len() as int) =~= rest);
        if rest.len() > 0 {
            assert(rest[0] == cs@[i as int]);
        }
        assert(strip_start_char(rest, c) == rest);
    }
    let mut k = end;
    while k > i && cs[k - 1] == c
        invariant
            start <= i <= k <= end <= cs@.len(),
            forall|j: int| k <= j < end ==> #[trigger] cs@[j] == c,
        decreases k - i,
    {
        k = k - 1;
    }
    proof {
        assert forall|j: int| k - i <= j < rest.len() implies #[trigger] rest[j] == c by {
            assert(rest[j] == cs@[i + j]);
        }
        lemma_strip_end_to(rest, c, k - i);
        let t = rest.subrange(0, k - i);
        assert(t =~= cs@.subrange(i as int, k as int));
        if t.len() > 0 {
            assert(t.last() == cs@[k - 1]);
        }
        assert(strip_end_char(t, c) == t);
    }
    (i, k)
}

/// The index of the first white space in `s`, or its length.
pub open spec fn first_white_space(s: Seq<char>) -> int
    decreases s.len(),
{
    if s.len() == 0 {
        0
    } else if is_white_space(s[0]) {
        0
    } else {
        1 + first_white_space(s.drop_first())
    }
}

/// The first white-space-separated word of `s`, if there is one (what
/// `split_whitespace().next()` gives).
pub open spec fn first_word(s: Seq<char>) -> Option<Seq<char>> {
    let t = trim_start(s);
    if t.len() == 0 {
        None
    } else {
        Some(t.subrange(0, first_white_space(t)))
    }
}

proof fn lemma_first_white_space_is(s: Seq<char>, k: int)
    requires
        0 <= k <= s.len(),
        k < s.len() ==> is_white_space(s[k]),
        forall|j: int| 0 <= j < k ==> !is_white_space(#[trigger] s[j]),
    ensures
        first_white_space(s) == k,
    decreases k,
{
    if k > 0 {
        assert forall|j: int| 0 <= j < k - 1 implies !is_white_space(#[trigger] s.drop_first()[j]) by {
            assert(s.drop_first()[j] == s[j + 1]);
        }
        lemma_first_white_space_is(s.drop_first(), k - 1);
    }
}

/// The first word of white space, then a word, then white space or
/// nothing, is that word.
pub proof fn lemma_first_word_of(pad: Seq<char>, w: Seq<char>, tail: Seq<char>)
    requires
        forall|i: int| 0 <= i < pad.len() ==> is_white_space(#[trigger] pad[i]),
        w.len() > 0,
        forall|i: int| 0 <= i < w.len() ==> !is_white_space(#[trigger] w[i]),
        tail.len() > 0 ==> is_white_space(tail[0]),
    ensures
        first_word(pad + w + tail) == Some(w),
{
    let s = pad + w + tail;
    assert forall|j: int| 0 <= j < pad.len() implies is_white_space(#[trigger] s[j]) by {
        assert(s[j] == pad[j]);
    }
    lemma_trim_start_from(s, pad.len() as int);
    let t = w + tail;
    assert(s.subrange(pad.len() as int, s.len() as int) =~= t);
    assert(t[0] == w[0]);
    assert(trim_start(t) == t);
    assert forall|j: int| 0 <= j < w.len() implies !is_white_space(#[trigger] t[j]) by {
        assert(t[j] == w[j]);
    }
    if tail.len() > 0 {
        assert(t[w.len() as int] == tail[0]);
    }
    lemma_first_white_space_is(t, w.len() as int);
    assert(t.subrange(0, w.len() as int) =~= w);
}

/// The bounds of the first word of `cs[start..end]`, if it has one.
pub fn first_word_bounds(cs: &Vec<char>, start: usize, end: usize) -> (r: Option<(usize, usize)>)
    requires
        start <= end <= cs@.len(),
    ensures
        match first_word(cs@.subrange(start as int, end as int)) {
            Some(w) => r matches Some(b) && start <= b.0 <= b.1 <= end && cs@.subrange(b.0 as int, b.1 as int) == w,
            None => r is None,
        },
{
    let ghost s = cs@.subrange(start as int, end as int);
    let mut i = start;
    while i < end && white_space(cs[i])
        invariant
            start <= i <= end <= cs@.len(),
            forall|j: int| start <= j < i ==> is_white_space(#[trigger] cs@[j]),
        decreases end - i,
    {
        i = i + 1;
    }
    let ghost t = cs@.subrange(i as int, end as int);
    proof {
        assert forall|j: int| 0 <= j < i - start implies is_white_space(#[trigger] s[j]) by {
            assert(s[j] == cs@[start + j]);
        }
        lemma_trim_start_from(s, i - start);
        assert(s.subrange(i - start, s.len() as int) =~= t);
        if t.len() > 0 {
            assert(t[0] == cs@[i as int]);
        }
        assert(trim_start(t) == t);
    }
    if i == end {
        return None;
    }
    let mut k = i;
    while k < end && !white_space(cs[k])
        invariant
            i <= k <= end <= cs@.len(),
            forall|j: int| i <= j < k ==> !is_white_space(#[trigger] cs@[j]),
        decreases end - k,
    {
        k = k + 1;
    }
    proof {
        assert forall|j: int| 0 <= j < k - i implies !is_white_space(#[trigger] t[j]) by {
            assert(t[j] == cs@[i + j]);
        }
        if k < end {
            assert(t[k - i] == cs@[k as int]);
        }
        lemma_first_white_space_is(t, k - i);
        assert(t.subrange(0, k - i) =~= cs@.subrange(i as int, k as int));
    }
    Some((i, k))
}


/// The pieces of `s` between occurrences of `c` (what `str::split` with
/// one character gives; there is always at least one piece).
pub open spec fn split_on(s: Seq<char>, c: char) -> Seq<Seq<char>>
    decreases s.len(),
{
    let k = find_first(s, c);
    if 0 <= k < s.len() {
        seq![s.subrange(0, k)] + split_on(s.subrange(k + 1, s.len() as int), c)
    } else {
        seq![s]
    }
}

/// The bounds of the pieces of `cs` between occurrences of `c`.
pub fn split_bounds(cs: &Vec<char>, c: char) -> (r: Vec<(usize, usize)>)
    ensures
        r@.len() == split_on(cs@, c).len(),
        forall|i: int|
            0 <= i < r@.len() ==> {
                &&& (#[trigger] r@[i]).0 <= r@[i].1 <= cs@.len()
                &&& cs@.subrange(r@[i].0 as int, r@[i].1 as int) == split_on(cs@, c)[i]
            },
{
    let mut out: Vec<(usize, usize)> = Vec::new();
    let mut pos: usize = 0;
    let n = cs.len();
    proof {
        assert(cs@.subrange(0, n as int) =~= cs@);
    }
    loop
        invariant
            n == cs@.len(),
            0 <= pos <= n,
            split_on(cs@, c) == out@.map_values(|b: (usize, usize)| cs@.subrange(b.0 as int, b.1 as int))
                + split_on(cs@.subrange(pos as int, n as int), c),
            forall|i: int| 0 <= i < out@.len() ==> (#[trigger] out@[i]).0 <= out@[i].1 <= cs@.len(),
        decreases n - pos,
    {
        let ghost rest = cs@.subrange(pos as int, n as int);
        let k = find_char(cs, pos, n, c);
        proof {
            lemma_find_first_bounds(rest, c);
            assert(rest.subrange(0, k - pos) =~= cs@.subrange(pos as int, k as int));
        }
        let ghost before = out@;
        out.push((pos, k));
        proof {
            let f = |b: (usize, usize)| cs@.subrange(b.0 as int, b.1 as int);
            assert(out@.map_values(f) =~= before.map_values(f).push(cs@.subrange(pos as int, k as int)));
        }
        if k == n {
            proof {
                let f = |b: (usize, usize)| cs@.subrange(b.0 as int, b.1 as int);
                assert(rest =~= cs@.subrange(pos as int, k as int));
                assert(split_on(rest, c) == seq![rest]);
                assert(split_on(cs@, c) =~= out@.map_values(f));
                assert forall|i: int| 0 <= i < out@.len() implies cs@.subrange(
                    (#[trigger] out@[i]).0 as int,
                    out@[i].1 as int,
                ) == split_on(cs@, c)[i] by {
                    assert(out@.map_values(f)[i] == f(out@[i]));
                }
            }
            return out;
        }
        proof {
            let f = |b: (usize, usize)| cs@.subrange(b.0 as int, b.1 as int);
            assert(rest.subrange(k - pos + 1, rest.len() as int) =~= cs@.subrange(k + 1, n as int));
            assert(split_on(rest, c) == seq![cs@.subrange(pos as int, k as int)] + split_on(
                cs@.subrange(k + 1, n as int),
                c,
            ));
            assert(before.map_values(f).push(cs@.subrange(pos as int, k as int)) + split_on(
                cs@.subrange(k + 1, n as int),
                c,
            ) =~= before.map_values(f) + split_on(rest, c));
        }
        pos = k + 1;
    }
}

} // verus!
