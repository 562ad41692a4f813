//! Text as sequences of characters: the few string operations the rest of the
//! library needs, each with the sequence it computes.
use vstd::prelude::*;
use vstd::slice::slice_subrange;
use vstd::string::*;

verus! {

/// `String::push` appends one character.
pub assume_specification[ String::push ](s: &mut String, c: char)
    ensures
        final(s)@ == old(s)@.push(c),
;

/// The characters of `s`, in order.
pub fn chars_of(s: &str) -> (r: Vec<char>)
    ensures
        r@ == s@,
{
    let mut out: Vec<char> = Vec::new();
    for c in it: s.chars()
        invariant
            out@ == it.seq().take(it.index() as int),
            it.seq() == s@,
    {
        out.push(c);
        assert(it.seq().take(it.index() as int).push(it.seq()[it.index() as int]) =~= it.seq().take(it.index() as int + 1));
    }
    assert(s@.take(s@.len() as int) =~= s@);
    out
}

/// The string whose characters are `v`.
pub fn string_of(v: &[char]) -> (r: String)
    ensures
        r@ == v@,
{
    let mut s = String::new();
    let mut i: usize = 0;
    while i < v.len()
        invariant
            i <= v.len(),
            s@ == v@.take(i as int),
        decreases v.len() - i,
    {
        s.push(v[i]);
        assert(v@.take(i as int).push(v@[i as int]) =~= v@.take(i as int + 1));
        i += 1;
    }
    assert(v@.take(v@.len() as int) =~= v@);
    s
}

/// Whether two character slices hold the same text.
pub fn same_chars(a: &[char], b: &[char]) -> (r: bool)
    ensures
        r == (a@ == b@),
{
    if a.len() != b.len() {
        return false;
    }
    let mut i: usize = 0;
    while i < a.len()
        invariant
            i <= a.len(),
            a.len() == b.len(),
            a@.take(i as int) == b@.take(i as int),
        decreases a.len() - i,
    {
        if a[i] != b[i] {
            assert(a@[i as int] != b@[i as int]);
            return false;
        }
        assert(a@.take(i as int + 1) =~= a@.take(i as int).push(a@[i as int]));
        assert(b@.take(i as int + 1) =~= b@.take(i as int).push(b@[i as int]));
        i += 1;
    }
    assert(a@.take(a@.len() as int) =~= a@);
    assert(b@.take(b@.len() as int) =~= b@);
    true
}

/// Whether two strings hold the same text.
pub fn same_text(a: &str, b: &str) -> (r: bool)
    ensures
        r == (a@ == b@),
{
    let x = chars_of(a);
    let y = chars_of(b);
    same_chars(&x, &y)
}

/// An owned copy of `s`.
pub fn owned(s: &str) -> (r: String)
    ensures
        r@ == s@,
{
    let v = chars_of(s);
    string_of(&v)
}

/// The ASCII lower-case form of a character; any other character stays.
pub open spec fn lower_char(c: char) -> char {
    if 'A' <= c <= 'Z' {
        ((c as u8) + 32u8) as char
    } else {
        c
    }
}

/// The text with every ASCII letter in lower case.
pub open spec fn ascii_lower(s: Seq<char>) -> Seq<char> {
    Seq::new(s.len(), |i: int| lower_char(s[i]))
}

pub fn to_lower_char(c: char) -> (r: char)
    ensures
        r == lower_char(c),
{
    if 'A' <= c && c <= 'Z' {
        ((c as u8) + 32u8) as char
    } else {
        c
    }
}

/// `s` with every ASCII letter in lower case.
pub fn lower_chars(s: &[char]) -> (r: Vec<char>)
    ensures
        r@ == ascii_lower(s@),
{
    let mut out: Vec<char> = Vec::new();
    let mut i: usize = 0;
    while i < s.len()
        invariant
            i <= s.len(),
            out@ == ascii_lower(s@).take(i as int),
        decreases s.len() - i,
    {
        out.push(to_lower_char(s[i]));
        i += 1;
        assert(ascii_lower(s@).take(i as int) =~= ascii_lower(s@).take(i as int - 1).push(lower_char(s@[i as int - 1])));
    }
    assert(ascii_lower(s@).take(s@.len() as int) =~= ascii_lower(s@));
    out
}

/// Lower-casing twice is lower-casing once.
pub proof fn ascii_lower_idempotent(s: Seq<char>)
    ensures
        ascii_lower(ascii_lower(s)) == ascii_lower(s),
{
    assert forall|c: char| #[trigger] lower_char(lower_char(c)) == lower_char(c) by {
        if 'A' <= c <= 'Z' {
            let b: u8 = c as u8;
            assert(c as u8 >= 65 && c as u8 <= 90);
            assert(lower_char(c) as u32 >= 97);
        }
    }
    assert(ascii_lower(ascii_lower(s)) =~= ascii_lower(s));
}


/// The text of each owned string in a list.
pub open spec fn strings(v: Seq<String>) -> Seq<Seq<char>> {
    Seq::new(v.len(), |i: int| v[i]@)
}

/// The text of each character vector in a list.
pub open spec fn texts(v: Seq<Vec<char>>) -> Seq<Seq<char>> {
    Seq::new(v.len(), |i: int| v[i]@)
}

/// Whether `s` occurs in the list `v`.
pub fn list_has(v: &Vec<String>, s: &str) -> (r: bool)
    ensures
        r == strings(v@).contains(s@),
{
    let mut i: usize = 0;
    while i < v.len()
        invariant
            i <= v.len(),
            forall|k: int| 0 <= k < i ==> v@[k]@ != s@,
        decreases v.len() - i,
    {
        if same_text(v[i].as_str(), s) {
            assert(strings(v@)[i as int] == s@);
            return true;
        }
        i += 1;
    }
    false
}

/// The same list of strings, owned separately.
pub fn clone_strings(v: &Vec<String>) -> (r: Vec<String>)
    ensures
        r@ == v@,
{
    let mut out: Vec<String> = Vec::new();
    let mut i: usize = 0;
    while i < v.len()
        invariant
            i <= v.len(),
            out@ == v@.take(i as int),
        decreases v.len() - i,
    {
        out.push(v[i].clone());
        assert(v@.take(i as int).push(v@[i as int]) =~= v@.take(i as int + 1));
        i += 1;
    }
    assert(v@.take(v@.len() as int) =~= v@);
    out
}

/// The decimal digit for `d`, where `d < 10`.
pub open spec fn digit_char(d: nat) -> char {
    (48 + d) as char
}

/// `n` written in decimal, without leading zeros.
pub open spec fn decimal(n: nat) -> Seq<char>
    decreases n,
{
    if n < 10 {
        seq![digit_char(n)]
    } else {
        decimal(n / 10).push(digit_char(n % 10))
    }
}

/// `n` written in decimal.
pub fn decimal_of(n: u64) -> (r: String)
    ensures
        r@ == decimal(n as nat),
    decreases n,
{
    if n < 10 {
        let mut s = String::new();
        s.push((48u8 + n as u8) as char);
        assert(s@ =~= decimal(n as nat));
        s
    } else {
        let mut s = decimal_of(n / 10);
        s.push((48u8 + (n % 10) as u8) as char);
        s
    }
}

/// The lower-case hexadecimal digit for `d`, where `d < 16`.
pub open spec fn hex_char(d: nat) -> char {
    if d < 10 { (48 + d) as char } else { (87 + d) as char }
}

/// `n` written in lower-case hexadecimal, without leading zeros.
pub open spec fn hexadecimal(n: nat) -> Seq<char>
    decreases n,
{
    if n < 16 {
        seq![hex_char(n)]
    } else {
        hexadecimal(n / 16).push(hex_char(n % 16))
    }
}

pub fn hex_digit(d: u8) -> (r: char)
    requires
        d < 16,
    ensures
        r == hex_char(d as nat),
{
    if d < 10 { (48u8 + d) as char } else { (87u8 + d) as char }
}

/// `n` written in lower-case hexadecimal.
pub fn hexadecimal_of(n: u64) -> (r: String)
    ensures
        r@ == hexadecimal(n as nat),
    decreases n,
{
    if n < 16 {
        let mut s = String::new();
        s.push(hex_digit(n as u8));
        assert(s@ =~= hexadecimal(n as nat));
        s
    } else {
        let mut s = hexadecimal_of(n / 16);
        s.push(hex_digit((n % 16) as u8));
        s
    }
}

pub open spec fn is_digit(c: char) -> bool {
    '0' <= c <= '9'
}

pub open spec fn all_digits(s: Seq<char>) -> bool {
    forall|i: int| 0 <= i < s.len() ==> is_digit(#[trigger] s[i])
}

/// The number that a run of decimal digits stands for.
pub open spec fn digits_value(s: Seq<char>) -> nat
    decreases s.len(),
{
    if s.len() == 0 {
        0
    } else {
        digits_value(s.drop_last()) * 10 + (s.last() as nat - 48) as nat
    }
}

/// `s` without one leading plus sign.
pub open spec fn without_plus(s: Seq<char>) -> Seq<char> {
    if s.len() > 0 && s[0] == '+' { s.skip(1) } else { s }
}

/// What `s` reads as, as an unsigned decimal number of at most `max`: an
/// optional plus sign and then one or more digits.
pub open spec fn parsed(s: Seq<char>, max: nat) -> Option<nat> {
    let body = without_plus(s);
    if body.len() > 0 && all_digits(body) && digits_value(body) <= max {
        Some(digits_value(body))
    } else {
        None
    }
}

proof fn digits_value_grows(s: Seq<char>, n: int)
    requires
        0 <= n <= s.len(),
        all_digits(s),
    ensures
        digits_value(s.take(n)) <= digits_value(s),
    decreases s.len(),
{
    if n == s.len() {
        assert(s.take(n) =~= s);
    } else {
        assert(s.drop_last().take(n) =~= s.take(n));
        digits_value_grows(s.drop_last(), n);
        assert(is_digit(s.last()));
    }
}

/// Reads an unsigned decimal number of at most `max`.
pub fn parse_unsigned(s: &[char], max: u64) -> (r: Option<u64>)
    ensures
        r matches Some(n) ==> parsed(s@, max as nat) == Some(n as nat),
        r is None ==> parsed(s@, max as nat) is None,
{
    let start: usize = if s.len() > 0 && s[0] == '+' { 1 } else { 0 };
    let ghost body = without_plus(s@);
    assert(body =~= s@.skip(start as int));
    if start == s.len() {
        return None;
    }
    let mut i: usize = start;
    let mut value: u64 = 0;
    while i < s.len()
        invariant
            start <= i <= s.len(),
            start <= 1,
            body == s@.skip(start as int),
            body == without_plus(s@),
            all_digits(body.take(i - start)),
            value == digits_value(body.take(i - start)),
            value <= max,
        decreases s.len() - i,
    {
        let c = s[i];
        let ghost k = i - start;
        assert(body[k] == c);
        if !('0' <= c && c <= '9') {
            assert(!is_digit(body[k]));
            return None;
        }
        let d: u64 = (c as u8 - 48u8) as u64;
        assert(body.take(k + 1).drop_last() =~= body.take(k));
        assert(body.take(k + 1).last() == c);
        assert(digits_value(body.take(k + 1)) == value * 10 + d);
        assert(all_digits(body.take(k + 1))) by {
            assert forall|j: int| 0 <= j < k + 1 implies is_digit(#[trigger] body.take(k + 1)[j]) by {
                if j < k {
                    assert(body.take(k)[j] == body.take(k + 1)[j]);
                }
            }
        }
        if value > (u64::MAX - d) / 10 || value * 10 + d > max {
            proof {
                if all_digits(body) {
                    digits_value_grows(body, k + 1);
                }
                assert(value * 10 + d > max);
            }
            return None;
        }
        value = value * 10 + d;
        i += 1;
    }
    assert(body.take(i - start) =~= body);
    Some(value)
}

/// Unicode white space.
pub open spec fn is_white(c: char) -> bool {
    ||| '\u{9}' <= c <= '\u{d}'
    ||| c == ' '
    ||| c == '\u{85}'
    ||| c == '\u{a0}'
    ||| c == '\u{1680}'
    ||| '\u{2000}' <= c <= '\u{200a}'
    ||| c == '\u{2028}'
    ||| c == '\u{2029}'
    ||| c == '\u{202f}'
    ||| c == '\u{205f}'
    ||| c == '\u{3000}'
}

pub fn white(c: char) -> (r: bool)
    ensures
        r == is_white(c),
{
    ('\u{9}' <= c && c <= '\u{d}') || c == ' ' || c == '\u{85}' || c == '\u{a0}' || c == '\u{1680}' || (
    '\u{2000}' <= c && c <= '\u{200a}') || c == '\u{2028}' || c == '\u{2029}' || c == '\u{202f}' || c
        == '\u{205f}' || c == '\u{3000}'
}

/// `s` without leading white space.
pub open spec fn trim_front(s: Seq<char>) -> Seq<char>
    decreases s.len(),
{
    if s.len() > 0 && is_white(s[0]) { trim_front(s.skip(1)) } else { s }
}

/// `s` without trailing white space.
pub open spec fn trim_back(s: Seq<char>) -> Seq<char>
    decreases s.len(),
{
    if s.len() > 0 && is_white(s.last()) { trim_back(s.drop_last()) } else { s }
}

/// `s` without white space at either end.
pub open spec fn trimmed(s: Seq<char>) -> Seq<char> {
    trim_back(trim_front(s))
}

/// `s` without leading white space.
pub fn trim_start(s: &[char]) -> (r: &[char])
    ensures
        r@ == trim_front(s@),
{
    let mut i: usize = 0;
    assert(s@.skip(0) =~= s@);
    while i < s.len() && white(s[i])
        invariant
            i <= s.len(),
            trim_front(s@.skip(i as int)) == trim_front(s@),
        decreases s.len() - i,
    {
        assert(s@.skip(i as int).skip(1) =~= s@.skip(i as int + 1));
        i += 1;
    }
    assert(s@.skip(i as int) =~= s@.subrange(i as int, s@.len() as int));
    slice_subrange(s, i, s.len())
}

/// `s` without white space at either end.
pub fn trim(s: &[char]) -> (r: &[char])
    ensures
        r@ == trimmed(s@),
{
    let t = trim_start(s);
    let mut n: usize = t.len();
    assert(t@.take(t@.len() as int) =~= t@);
    while n > 0 && white(t[n - 1])
        invariant
            n <= t.len(),
            trim_back(t@.take(n as int)) == trim_back(t@),
        decreases n,
    {
        assert(t@.take(n as int).drop_last() =~= t@.take(n as int - 1));
        n -= 1;
    }
    assert(t@.take(n as int) =~= t@.subrange(0, n as int));
    slice_subrange(t, 0, n)
}

/// The place of the first `c` in `s`, or the length of `s` where there is none.
pub open spec fn index_of(s: Seq<char>, c: char) -> nat
    decreases s.len(),
{
    if s.len() == 0 || s[0] == c { 0 } else { 1 + index_of(s.skip(1), c) }
}

/// What `index_of` finds: the first place of `c`, or the end.
pub proof fn index_of_first(s: Seq<char>, c: char)
    ensures
        index_of(s, c) <= s.len(),
        index_of(s, c) < s.len() ==> s[index_of(s, c) as int] == c,
        forall|i: int| 0 <= i < index_of(s, c) ==> s[i] != c,
    decreases s.len(),
{
    if s.len() > 0 && s[0] != c {
        index_of_first(s.skip(1), c);
        assert forall|i: int| 0 <= i < index_of(s, c) implies s[i] != c by {
            if i > 0 {
                assert(s.skip(1)[i - 1] == s[i]);
            }
        }
    }
}

pub fn find_char(s: &[char], c: char) -> (r: usize)
    ensures
        r == index_of(s@, c),
        r <= s.len(),
        r < s.len() ==> s@[r as int] == c,
        forall|i: int| 0 <= i < r ==> s@[i] != c,
{
    let mut i: usize = 0;
    assert(s@.skip(0) =~= s@);
    while i < s.len() && s[i] != c
        invariant
            i <= s.len(),
            index_of(s@, c) == i + index_of(s@.skip(i as int), c),
        decreases s.len() - i,
    {
        assert(s@.skip(i as int).skip(1) =~= s@.skip(i as int + 1));
        i += 1;
    }
    proof {
        index_of_first(s@, c);
    }
    i
}

/// The pieces of `s` between the places where `sep` stands.
pub open spec fn split_on(s: Seq<char>, sep: char) -> Seq<Seq<char>>
    decreases s.len(),
{
    let n = index_of(s, sep) as int;
    if n >= s.len() {
        seq![s]
    } else {
        seq![s.take(n)] + split_on(s.skip(n + 1), sep)
    }
}

/// The pieces of `s` between the places where `sep` stands.
pub fn split(s: &[char], sep: char) -> (r: Vec<Vec<char>>)
    ensures
        texts(r@) == split_on(s@, sep),
        r.len() >= 1,
{
    let mut out: Vec<Vec<char>> = Vec::new();
    let mut rest: &[char] = s;
    assert(texts(out@) + split_on(rest@, sep) =~= split_on(s@, sep));
    loop
        invariant
            texts(out@) + split_on(rest@, sep) == split_on(s@, sep),
        decreases rest.len(),
    {
        let n = find_char(rest, sep);
        let piece = slice_subrange(rest, 0, n);
        let ghost before = out@;
        out.push(vstd::slice::slice_to_vec(piece));
        assert(texts(out@) =~= texts(before).push(piece@));
        assert(piece@ =~= rest@.take(n as int));
        if n == rest.len() {
            assert(rest@.take(n as int) =~= rest@);
            assert(texts(before).push(piece@) =~= texts(before) + seq![rest@]);
            return out;
        }
        assert(rest@.skip(n as int + 1) =~= rest@.subrange(n as int + 1, rest@.len() as int));
        assert(texts(before) + (seq![rest@.take(n as int)] + split_on(rest@.skip(n as int + 1), sep)) =~= texts(
            out@,
        ) + split_on(rest@.skip(n as int + 1), sep));
        rest = slice_subrange(rest, n + 1, rest.len());
    }
}

/// The number of characters before the first white space.
pub open spec fn word_len(s: Seq<char>) -> nat
    decreases s.len(),
{
    if s.len() == 0 || is_white(s[0]) { 0 } else { 1 + word_len(s.skip(1)) }
}

proof fn word_len_bound(s: Seq<char>)
    ensures
        word_len(s) <= s.len(),
    decreases s.len(),
{
    if s.len() > 0 && !is_white(s[0]) {
        word_len_bound(s.skip(1));
    }
}

proof fn trim_front_bound(s: Seq<char>)
    ensures
        trim_front(s).len() <= s.len(),
        trim_front(s).len() > 0 ==> !is_white(trim_front(s)[0]),
    decreases s.len(),
{
    if s.len() > 0 && is_white(s[0]) {
        trim_front_bound(s.skip(1));
    }
}

/// The words of `s`: its maximal runs of characters that are not white space.
pub open spec fn words_of(s: Seq<char>) -> Seq<Seq<char>>
    decreases s.len(),
    via words_of_decreases
{
    let t = trim_front(s);
    if t.len() == 0 {
        seq![]
    } else {
        seq![t.take(word_len(t) as int)] + words_of(t.skip(word_len(t) as int))
    }
}

#[via_fn]
proof fn words_of_decreases(s: Seq<char>) {
    trim_front_bound(s);
    word_len_bound(trim_front(s));
}

/// The words of `s`.
pub fn words(s: &[char]) -> (r: Vec<Vec<char>>)
    ensures
        texts(r@) == words_of(s@),
{
    let mut out: Vec<Vec<char>> = Vec::new();
    let mut rest: &[char] = s;
    assert(texts(out@) + words_of(rest@) =~= words_of(s@));
    loop
        invariant
            texts(out@) + words_of(rest@) == words_of(s@),
        decreases rest.len(),
    {
        let t = trim_start(rest);
        proof {
            trim_front_bound(rest@);
            word_len_bound(t@);
        }
        if t.len() == 0 {
            assert(texts(out@) + words_of(rest@) =~= texts(out@));
            return out;
        }
        let mut n: usize = 0;
        assert(t@.skip(0) =~= t@);
        while n < t.len() && !white(t[n])
            invariant
                n <= t.len(),
                word_len(t@) == n + word_len(t@.skip(n as int)),
            decreases t.len() - n,
        {
            assert(t@.skip(n as int).skip(1) =~= t@.skip(n as int + 1));
            n += 1;
        }
        let piece = slice_subrange(t, 0, n);
        let ghost before = out@;
        out.push(vstd::slice::slice_to_vec(piece));
        assert(piece@ =~= t@.take(n as int));
        assert(texts(out@) =~= texts(before).push(piece@));
        assert(t@.skip(n as int) =~= t@.subrange(n as int, t@.len() as int));
        assert(texts(before) + (seq![t@.take(n as int)] + words_of(t@.skip(n as int))) =~= texts(out@) + words_of(
            t@.skip(n as int),
        ));
        rest = slice_subrange(t, n, t.len());
    }
}

/// A line without the carriage return that stands before its line feed.
pub open spec fn without_cr(s: Seq<char>) -> Seq<char> {
    if s.len() > 0 && s.last() == '\r' { s.drop_last() } else { s }
}

/// The lines of `s`, without their line ends. A line feed at the very end
/// begins no further line.
pub open spec fn lines_of(s: Seq<char>) -> Seq<Seq<char>>
    decreases s.len(),
{
    let n = index_of(s, '\n') as int;
    if s.len() == 0 {
        seq![]
    } else if n >= s.len() {
        seq![s]
    } else {
        seq![without_cr(s.take(n))] + lines_of(s.skip(n + 1))
    }
}

/// The lines of `s`, without their line ends.
pub fn lines(s: &[char]) -> (r: Vec<Vec<char>>)
    ensures
        texts(r@) == lines_of(s@),
{
    let mut out: Vec<Vec<char>> = Vec::new();
    let mut rest: &[char] = s;
    assert(texts(out@) + lines_of(rest@) =~= lines_of(s@));
    loop
        invariant
            texts(out@) + lines_of(rest@) == lines_of(s@),
        decreases rest.len(),
    {
        if rest.len() == 0 {
            assert(texts(out@) + lines_of(rest@) =~= texts(out@));
            return out;
        }
        let n = find_char(rest, '\n');
        let ghost before = out@;
        if n == rest.len() {
            out.push(vstd::slice::slice_to_vec(rest));
            assert(texts(out@) =~= texts(before) + seq![rest@]);
            return out;
        }
        let end: usize = if n > 0 && rest[n - 1] == '\r' { n - 1 } else { n };
        let piece = slice_subrange(rest, 0, end);
        out.push(vstd::slice::slice_to_vec(piece));
        assert(piece@ =~= without_cr(rest@.take(n as int)));
        assert(texts(out@) =~= texts(before).push(piece@));
        assert(rest@.skip(n as int + 1) =~= rest@.subrange(n as int + 1, rest@.len() as int));
        assert(texts(before) + (seq![without_cr(rest@.take(n as int))] + lines_of(rest@.skip(n as int + 1)))
            =~= texts(out@) + lines_of(rest@.skip(n as int + 1)));
        rest = slice_subrange(rest, n + 1, rest.len());
    }
}

/// Whether `s` ends in `tail`.
pub open spec fn ends_in(s: Seq<char>, tail: Seq<char>) -> bool {
    s.len() >= tail.len() && s.skip(s.len() - tail.len()) == tail
}

pub fn ends_with(s: &[char], tail: &[char]) -> (r: bool)
    ensures
        r == ends_in(s@, tail@),
{
    if s.len() < tail.len() {
        return false;
    }
    let part = slice_subrange(s, s.len() - tail.len(), s.len());
    assert(part@ =~= s@.skip(s@.len() - tail@.len()));
    same_chars(part, tail)
}

/// Whether `s` begins with `head`.
pub open spec fn begins_with(s: Seq<char>, head: Seq<char>) -> bool {
    s.len() >= head.len() && s.take(head.len() as int) == head
}

pub fn starts_with(s: &[char], head: &[char]) -> (r: bool)
    ensures
        r == begins_with(s@, head@),
{
    if s.len() < head.len() {
        return false;
    }
    let part = slice_subrange(s, 0, head.len());
    assert(part@ =~= s@.take(head@.len() as int));
    same_chars(part, head)
}

/// Whether `part` occurs in `s`.
pub open spec fn occurs_in(part: Seq<char>, s: Seq<char>) -> bool {
    exists|i: int| 0 <= i <= s.len() && #[trigger] begins_with(s.skip(i), part)
}

pub fn contains(s: &[char], part: &[char]) -> (r: bool)
    ensures
        r == occurs_in(part@, s@),
{
    let mut i: usize = 0;
    loop
        invariant
            i <= s.len(),
            forall|k: int| 0 <= k < i ==> !begins_with(s@.skip(k), part@),
        decreases s.len() - i,
    {
        let tail = slice_subrange(s, i, s.len());
        assert(tail@ =~= s@.skip(i as int));
        if starts_with(tail, part) {
            return true;
        }
        if i == s.len() {
            return false;
        }
        i += 1;
    }
}

/// `str::to_lowercase`: the text in lower case by the Unicode tables, which
/// are not written out here.
pub uninterp spec fn unicode_lower(s: Seq<char>) -> Seq<char>;

/// `str::to_lowercase` gives the Unicode lower case of a text, and nothing
/// else decides what it is.
#[verifier::external_body]
pub(crate) fn to_lowercase(s: &str) -> (r: String)
    ensures
        r@ == unicode_lower(s@),
{
    s.to_lowercase()
}

/// `std::str::from_utf8` takes exactly the bytes that are well-formed UTF-8,
/// and gives the characters that they encode.
#[verifier::external_body]
pub(crate) fn utf8_text(bytes: &[u8]) -> (r: Option<String>)
    ensures
        r is Some <==> vstd::utf8::valid_utf8(bytes@),
        r matches Some(s) ==> s@ == vstd::utf8::decode_utf8(bytes@),
{
    std::str::from_utf8(bytes).ok().map(|s| s.to_string())
}

/// A string as the debug format writes it: in quotes, with special characters
/// escaped by tables that are not written out here.
pub uninterp spec fn debug_text(s: Seq<char>) -> Seq<char>;

/// `format!` with the debug format of a string depends on its text alone.
#[verifier::external_body]
pub(crate) fn debug_string(s: &str) -> (r: String)
    ensures
        r@ == debug_text(s@),
{
    format!("{:?}", s)
}

/// An optional string as the debug format writes it.
pub open spec fn debug_option(s: Option<Seq<char>>) -> Seq<char> {
    match s {
        Some(t) => "Some("@ + debug_text(t) + ")"@,
        None => "None"@,
    }
}

/// The text of an optional string.
pub open spec fn text_of(s: Option<String>) -> Option<Seq<char>> {
    match s {
        Some(t) => Some(t@),
        None => None,
    }
}

pub fn debug_option_string(s: &Option<String>) -> (r: String)
    ensures
        r@ == debug_option(text_of(*s)),
{
    match s {
        Some(t) => {
            let mut out = owned("Some(");
            out.append(debug_string(t.as_str()).as_str());
            out.append(")");
            out
        },
        None => owned("None"),
    }
}

/// Whether an optional string holds a text.
pub fn option_is(s: &Option<String>, t: &str) -> (r: bool)
    ensures
        r == (text_of(*s) == Some(t@)),
{
    match s {
        Some(x) => same_text(x.as_str(), t),
        None => false,
    }
}

pub fn clone_option(s: &Option<String>) -> (r: Option<String>)
    ensures
        r == *s,
{
    match s {
        Some(x) => Some(x.clone()),
        None => None,
    }
}

/// Texts with a separator between them.
pub open spec fn joined(parts: Seq<Seq<char>>, sep: Seq<char>) -> Seq<char>
    decreases parts.len(),
{
    if parts.len() == 0 {
        Seq::empty()
    } else if parts.len() == 1 {
        parts[0]
    } else {
        joined(parts.drop_last(), sep) + sep + parts.last()
    }
}

/// Texts with a separator between them.
pub fn join(parts: &Vec<String>, sep: &str) -> (r: String)
    ensures
        r@ == joined(strings(parts@), sep@),
{
    let ghost all = strings(parts@);
    let mut s = String::new();
    let mut i: usize = 0;
    while i < parts.len()
        invariant
            i <= parts.len(),
            all == strings(parts@),
            s@ == joined(all.take(i as int), sep@),
        decreases parts.len() - i,
    {
        if i > 0 {
            s.append(sep);
        }
        s.append(parts[i].as_str());
        proof {
            let t = all.take(i as int + 1);
            assert(t.drop_last() =~= all.take(i as int));
            if i == 0 {
                assert(Seq::<char>::empty() + t[0] =~= t[0]);
            }
        }
        i += 1;
    }
    assert(all.take(i as int) =~= all);
    s
}

pub open spec fn is_hex(c: char) -> bool {
    ||| '0' <= c <= '9'
    ||| 'a' <= c <= 'f'
    ||| 'A' <= c <= 'F'
}

/// The value of a hexadecimal digit.
pub open spec fn hex_value(c: char) -> nat {
    if '0' <= c <= '9' {
        (c as nat - 48) as nat
    } else if 'a' <= c <= 'f' {
        (c as nat - 87) as nat
    } else {
        (c as nat - 55) as nat
    }
}

pub open spec fn all_hex(s: Seq<char>) -> bool {
    forall|i: int| 0 <= i < s.len() ==> is_hex(#[trigger] s[i])
}

/// The number that a run of hexadecimal digits stands for.
pub open spec fn hex_number(s: Seq<char>) -> nat
    decreases s.len(),
{
    if s.len() == 0 {
        0
    } else {
        hex_number(s.drop_last()) * 16 + hex_value(s.last())
    }
}

/// What `s` reads as, as an unsigned hexadecimal number of at most `max`: an
/// optional plus sign and then one or more digits.
pub open spec fn parsed_hex(s: Seq<char>, max: nat) -> Option<nat> {
    let body = without_plus(s);
    if body.len() > 0 && all_hex(body) && hex_number(body) <= max {
        Some(hex_number(body))
    } else {
        None
    }
}

pub fn hex_digit_value(c: char) -> (r: Option<u8>)
    ensures
        r matches Some(v) ==> is_hex(c) && v == hex_value(c) && v < 16,
        r is None ==> !is_hex(c),
{
    if '0' <= c && c <= '9' {
        Some(c as u8 - 48u8)
    } else if 'a' <= c && c <= 'f' {
        Some(c as u8 - 87u8)
    } else if 'A' <= c && c <= 'F' {
        Some(c as u8 - 55u8)
    } else {
        None
    }
}

proof fn hex_number_grows(s: Seq<char>, n: int)
    requires
        0 <= n <= s.len(),
    ensures
        hex_number(s.take(n)) <= hex_number(s),
    decreases s.len(),
{
    if n == s.len() {
        assert(s.take(n) =~= s);
    } else {
        assert(s.drop_last().take(n) =~= s.take(n));
        hex_number_grows(s.drop_last(), n);
    }
}

/// Reads an unsigned hexadecimal number of at most `max`.
pub fn parse_hex(s: &[char], max: u64) -> (r: Option<u64>)
    ensures
        r matches Some(n) ==> parsed_hex(s@, max as nat) == Some(n as nat),
        r is None ==> parsed_hex(s@, max as nat) is None,
{
    let start: usize = if s.len() > 0 && s[0] == '+' { 1 } else { 0 };
    let ghost body = without_plus(s@);
    assert(body =~= s@.skip(start as int));
    if start == s.len() {
        return None;
    }
    let mut i: usize = start;
    let mut value: u64 = 0;
    while i < s.len()
        invariant
            start <= i <= s.len(),
            start <= 1,
            body == s@.skip(start as int),
            body == without_plus(s@),
            all_hex(body.take(i - start)),
            value == hex_number(body.take(i - start)),
            value <= max,
        decreases s.len() - i,
    {
        let ghost k = i - start;
        assert(body[k] == s@[i as int]);
        let d: u64 = match hex_digit_value(s[i]) {
            Some(v) => v as u64,
            None => {
                assert(!is_hex(body[k]));
                return None;
            },
        };
        assert(body.take(k + 1).drop_last() =~= body.take(k));
        assert(body.take(k + 1).last() == s@[i as int]);
        assert(hex_number(body.take(k + 1)) == value * 16 + d);
        assert(all_hex(body.take(k + 1))) by {
            assert forall|j: int| 0 <= j < k + 1 implies is_hex(#[trigger] body.take(k + 1)[j]) by {
                if j < k {
                    assert(body.take(k)[j] == body.take(k + 1)[j]);
                }
            }
        }
        if value > (u64::MAX - d) / 16 || value * 16 + d > max {
            proof {
                hex_number_grows(body, k + 1);
                assert(value * 16 + d > max);
            }
            return None;
        }
        value = value * 16 + d;
        i += 1;
    }
    assert(body.take(i - start) =~= body);
    Some(value)
}

/// The ASCII upper-case form of a character; any other character stays.
pub open spec fn upper_char(c: char) -> char {
    if 'a' <= c <= 'z' {
        ((c as u8) - 32u8) as char
    } else {
        c
    }
}

/// The text with every ASCII letter in upper case.
pub open spec fn ascii_upper(s: Seq<char>) -> Seq<char> {
    Seq::new(s.len(), |i: int| upper_char(s[i]))
}

/// `s` with every ASCII letter in upper case.
pub fn upper_chars(s: &[char]) -> (r: Vec<char>)
    ensures
        r@ == ascii_upper(s@),
{
    let mut out: Vec<char> = Vec::new();
    let mut i: usize = 0;
    while i < s.len()
        invariant
            i <= s.len(),
            out@ == ascii_upper(s@).take(i as int),
        decreases s.len() - i,
    {
        let c = s[i];
        let u = if 'a' <= c && c <= 'z' { ((c as u8) - 32u8) as char } else { c };
        out.push(u);
        i += 1;
        assert(ascii_upper(s@).take(i as int) =~= ascii_upper(s@).take(i as int - 1).push(upper_char(s@[i as int - 1])));
    }
    assert(ascii_upper(s@).take(s@.len() as int) =~= ascii_upper(s@));
    out
}

/// A string in ASCII lower case.
pub fn lower_string(s: &str) -> (r: String)
    ensures
        r@ == ascii_lower(s@),
{
    string_of(&lower_chars(&chars_of(s)))
}

proof fn decimal_digits(n: nat)
    ensures
        all_digits(decimal(n)),
        decimal(n).len() >= 1,
        digits_value(decimal(n)) == n,
    decreases n,
{
    if n < 10 {
        let s = decimal(n);
        assert(s.drop_last().len() == 0);
        assert(digits_value(s.drop_last()) == 0);
    } else {
        decimal_digits(n / 10);
        let front = decimal(n / 10);
        let s = decimal(n);
        assert(s.drop_last() =~= front);
        assert forall|i: int| 0 <= i < s.len() implies is_digit(#[trigger] s[i]) by {
            if i < front.len() {
                assert(s[i] == front[i]);
            }
        }
    }
}

/// A number that is written in decimal is read back, where it is not more than
/// the greatest that is asked for. It has digits only.
pub proof fn decimals_are_read_back(n: nat, max: nat)
    ensures
        n <= max ==> parsed(decimal(n), max) == Some(n),
        n > max ==> parsed(decimal(n), max) is None,
        forall|i: int| 0 <= i < decimal(n).len() ==> '0' <= #[trigger] decimal(n)[i] <= '9',
        decimal(n).len() >= 1,
{
    decimal_digits(n);
    assert(is_digit(decimal(n)[0]));
}

/// Numbers are written digit by digit, the highest first: what a number less
/// than ten adds to ten times another is the digit behind it.
pub proof fn decimals_are_written_digit_by_digit(n: nat, d: nat)
    requires
        d < 10,
    ensures
        decimal(d) == seq![(48 + d) as char],
        n > 0 ==> decimal(10 * n + d) == decimal(n).push((48 + d) as char),
{
    if n > 0 {
        assert((10 * n + d) / 10 == n && (10 * n + d) % 10 == d);
    }
}

/// What is read is a number that was written with digits and at most one plus
/// sign before them.
pub proof fn only_digits_are_read(s: Seq<char>, max: nat)
    ensures
        parsed(s, max) is Some ==> s.len() > 0 && parsed(s, max)->0 <= max && forall|i: int|
            0 < i < s.len() ==> '0' <= #[trigger] s[i] <= '9',
        parsed(s, max) is Some ==> s[0] == '+' || '0' <= s[0] <= '9',
{
    if parsed(s, max) is Some {
        let body = without_plus(s);
        if s[0] == '+' {
            assert forall|i: int| 0 < i < s.len() implies '0' <= #[trigger] s[i] <= '9' by {
                assert(is_digit(body[i - 1]));
            }
        } else {
            assert(is_digit(body[0]));
            assert forall|i: int| 0 < i < s.len() implies '0' <= #[trigger] s[i] <= '9' by {
                assert(is_digit(body[i]));
            }
        }
    }
}

/// Text without the separator is one part.
pub proof fn no_split(s: Seq<char>, sep: char)
    requires
        !s.contains(sep),
    ensures
        split_on(s, sep) == seq![s],
{
    index_of_first(s, sep);
    let n = index_of(s, sep);
    if n < s.len() {
        assert(s.contains(s[n as int]));
    }
}

/// Text before the first separator is the first part, and what follows the
/// separator is split further.
pub proof fn splitting_once(head: Seq<char>, tail: Seq<char>, sep: char)
    requires
        !head.contains(sep),
    ensures
        split_on(head.push(sep) + tail, sep) == seq![head] + split_on(tail, sep),
{
    let s = head.push(sep) + tail;
    index_of_first(s, sep);
    let n = index_of(s, sep) as int;
    assert(s[head.len() as int] == sep);
    if n < head.len() {
        assert(s[n] == head[n]);
        assert(head.contains(head[n]));
    }
    assert(n == head.len());
    assert(s.take(n) =~= head);
    assert(s.skip(n + 1) =~= tail);
}

proof fn hex_digits(n: nat)
    ensures
        all_hex(hexadecimal(n)),
        hexadecimal(n).len() >= 1,
        hex_number(hexadecimal(n)) == n,
        is_hex(hexadecimal(n)[0]),
    decreases n,
{
    if n < 16 {
        let s = hexadecimal(n);
        assert(s.drop_last().len() == 0);
        assert(hex_number(s.drop_last()) == 0);
        assert(hex_value(hex_char(n)) == n);
    } else {
        hex_digits(n / 16);
        let front = hexadecimal(n / 16);
        let s = hexadecimal(n);
        assert(s.drop_last() =~= front);
        assert(hex_value(hex_char(n % 16)) == n % 16);
        assert forall|i: int| 0 <= i < s.len() implies is_hex(#[trigger] s[i]) by {
            if i < front.len() {
                assert(s[i] == front[i]);
            }
        }
        assert(s[0] == front[0]);
    }
}

/// A number that is written in hexadecimal is read back, where it is not more
/// than the greatest that is asked for.
pub proof fn hexadecimals_are_read_back(n: nat, max: nat)
    ensures
        n <= max ==> parsed_hex(hexadecimal(n), max) == Some(n),
        n > max ==> parsed_hex(hexadecimal(n), max) is None,
        all_hex(hexadecimal(n)),
        hexadecimal(n).len() >= 1,
{
    hex_digits(n);
}

/// Hexadecimal digits are read without regard to case.
pub proof fn hexadecimal_digits(d: nat)
    requires
        d < 16,
    ensures
        d < 10 ==> hex_char(d) as nat == 48 + d,
        d >= 10 ==> hex_char(d) as nat == 97 + (d - 10),
        is_hex(hex_char(d)),
        hex_value(hex_char(d)) == d,
        d >= 10 ==> hex_value((65 + (d - 10)) as char) == d,
{
}

/// Hexadecimal numbers are written digit by digit, the highest first.
pub proof fn hexadecimals_are_written_digit_by_digit(n: nat, d: nat)
    requires
        d < 16,
    ensures
        hexadecimal(d) == seq![hex_char(d)],
        n > 0 ==> hexadecimal(16 * n + d) == hexadecimal(n).push(hex_char(d)),
{
    if n > 0 {
        assert((16 * n + d) / 16 == n && (16 * n + d) % 16 == d);
    }
}

/// An upper-case letter becomes the lower-case one, 32 places on; every other
/// character stays. The other way round it is the same.
pub proof fn letters_change_case(c: char)
    ensures
        'A' <= c <= 'Z' ==> lower_char(c) as nat == c as nat + 32,
        !('A' <= c <= 'Z') ==> lower_char(c) == c,
        'a' <= c <= 'z' ==> upper_char(c) as nat == c as nat - 32,
        !('a' <= c <= 'z') ==> upper_char(c) == c,
        'a' <= c <= 'z' ==> lower_char(upper_char(c)) == c,
        'A' <= c <= 'Z' ==> upper_char(lower_char(c)) == c,
{
}

/// Text changes case character by character.
pub proof fn text_changes_case_one_by_one(s: Seq<char>, t: Seq<char>)
    ensures
        ascii_lower(s).len() == s.len(),
        ascii_lower(s + t) == ascii_lower(s) + ascii_lower(t),
        ascii_upper(s + t) == ascii_upper(s) + ascii_upper(t),
        ascii_lower(ascii_upper(s)) == ascii_lower(s),
{
    assert(ascii_lower(s + t) =~= ascii_lower(s) + ascii_lower(t));
    assert(ascii_upper(s + t) =~= ascii_upper(s) + ascii_upper(t));
    assert(ascii_lower(ascii_upper(s)) =~= ascii_lower(s));
}

proof fn joining_from_the_front(first: Seq<char>, rest: Seq<Seq<char>>, sep: Seq<char>)
    requires
        rest.len() > 0,
    ensures
        joined(seq![first] + rest, sep) == first + sep + joined(rest, sep),
    decreases rest.len(),
{
    let all = seq![first] + rest;
    assert(all.drop_last() =~= seq![first] + rest.drop_last());
    assert(all.last() == rest.last());
    if rest.len() == 1 {
        assert(all.drop_last() =~= seq![first]);
        assert(joined(seq![first], sep) == first);
        assert(joined(rest, sep) == rest[0]);
    } else {
        joining_from_the_front(first, rest.drop_last(), sep);
        assert(joined(all, sep) =~= first + sep + joined(rest, sep));
    }
}

/// What is split at a separator and joined with it again is what it was; no part
/// holds the separator.
pub proof fn joining_undoes_splitting(s: Seq<char>, sep: char)
    ensures
        joined(split_on(s, sep), seq![sep]) == s,
        split_on(s, sep).len() >= 1,
        forall|i: int| 0 <= i < split_on(s, sep).len() ==> !(#[trigger] split_on(s, sep)[i]).contains(sep),
    decreases s.len(),
{
    let n = index_of(s, sep) as int;
    index_of_first(s, sep);
    if n < s.len() {
        let rest = s.skip(n + 1);
        joining_undoes_splitting(rest, sep);
        joining_from_the_front(s.take(n), split_on(rest, sep), seq![sep]);
        assert(s.take(n) + seq![sep] + rest =~= s);
        let all = split_on(s, sep);
        assert forall|i: int| 0 <= i < all.len() implies !(#[trigger] all[i]).contains(sep) by {
            if i > 0 {
                assert(all[i] == split_on(rest, sep)[i - 1]);
            }
        }
    }
}

/// Joining puts the separator between the parts, and nothing before or behind
/// them.
pub proof fn joining_part_by_part(parts: Seq<Seq<char>>, part: Seq<char>, sep: Seq<char>)
    ensures
        parts.len() == 0 ==> joined(parts, sep).len() == 0,
        joined(seq![part], sep) == part,
        parts.len() > 0 ==> joined(parts.push(part), sep) == joined(parts, sep) + sep + part,
{
    assert(parts.push(part).drop_last() =~= parts);
}

proof fn front_trimmed(s: Seq<char>)
    ensures
        ({
            let t = trim_front(s);
            let n = s.len() - t.len();
            &&& 0 <= n <= s.len()
            &&& t == s.skip(n)
            &&& t.len() > 0 ==> !is_white(t[0])
            &&& forall|i: int| 0 <= i < n ==> is_white(#[trigger] s[i])
        }),
    decreases s.len(),
{
    if s.len() > 0 && is_white(s[0]) {
        front_trimmed(s.skip(1));
        let t = trim_front(s);
        let n = s.len() - t.len();
        assert(s.skip(1).skip(n - 1) =~= s.skip(n));
        assert forall|i: int| 0 <= i < n implies is_white(#[trigger] s[i]) by {
            if i > 0 {
                assert(s.skip(1)[i - 1] == s[i]);
            }
        }
    } else {
        assert(s.skip(0) =~= s);
    }
}

proof fn back_trimmed(s: Seq<char>)
    ensures
        ({
            let t = trim_back(s);
            &&& t.len() <= s.len()
            &&& t == s.take(t.len() as int)
            &&& t.len() > 0 ==> !is_white(t.last())
            &&& forall|i: int| t.len() <= i < s.len() ==> is_white(#[trigger] s[i])
        }),
    decreases s.len(),
{
    if s.len() > 0 && is_white(s.last()) {
        let d = s.drop_last();
        back_trimmed(d);
        let t = trim_back(s);
        assert(d.take(t.len() as int) =~= s.take(t.len() as int));
        assert forall|i: int| t.len() <= i < s.len() implies is_white(#[trigger] s[i]) by {
            if i < d.len() {
                assert(d[i] == s[i]);
            }
        }
    } else {
        assert(s.take(s.len() as int) =~= s);
    }
}

/// Trimming takes white space away at both ends, all of it and nothing else.
pub proof fn trimming_takes_white_space_away(s: Seq<char>)
    ensures
        ({
            let t = trimmed(s);
            &&& t.len() > 0 ==> !is_white(t[0]) && !is_white(t.last())
            &&& exists|a: int, b: int|
                0 <= a <= b <= s.len() && t == #[trigger] s.subrange(a, b) && (forall|i: int|
                    0 <= i < a ==> is_white(#[trigger] s[i])) && (forall|i: int|
                    b <= i < s.len() ==> is_white(#[trigger] s[i]))
        }),
        is_white(' ') && is_white('\n') && is_white('\t') && is_white('\r'),
{
    front_trimmed(s);
    let f = trim_front(s);
    back_trimmed(f);
    let t = trimmed(s);
    let a = s.len() - f.len();
    let b = a + t.len();
    assert(t =~= s.subrange(a, b));
    if t.len() > 0 {
        assert(t[0] == f[0]);
    }
    assert forall|i: int| b <= i < s.len() implies is_white(#[trigger] s[i]) by {
        assert(f[i - a] == s[i]);
    }
}

proof fn word_ends(s: Seq<char>)
    ensures
        word_len(s) <= s.len(),
        forall|i: int| 0 <= i < word_len(s) ==> !is_white(#[trigger] s[i]),
        word_len(s) < s.len() ==> is_white(s[word_len(s) as int]),
    decreases s.len(),
{
    if s.len() > 0 && !is_white(s[0]) {
        word_ends(s.skip(1));
        assert forall|i: int| 0 <= i < word_len(s) implies !is_white(#[trigger] s[i]) by {
            if i > 0 {
                assert(s.skip(1)[i - 1] == s[i]);
            }
        }
        if word_len(s) < s.len() {
            assert(s.skip(1)[word_len(s) - 1] == s[word_len(s) as int]);
        }
    }
}

/// A word stands before white space; what follows the white space is read
/// further. White space alone has no words.
pub proof fn words_stand_between_white_space(word: Seq<char>, gap: char, rest: Seq<char>)
    requires
        word.len() > 0,
        forall|i: int| 0 <= i < word.len() ==> !is_white(#[trigger] word[i]),
        is_white(gap),
    ensures
        words_of(word) == seq![word],
        words_of(word.push(gap) + rest) == seq![word] + words_of(rest),
        words_of(Seq::<char>::empty()).len() == 0,
        words_of(seq![gap] + rest) == words_of(rest),
{
    let empty = Seq::<char>::empty();
    assert(trim_front(empty) =~= empty);
    assert(words_of(empty) =~= Seq::<Seq<char>>::empty());
    word_ends(word);
    assert(trim_front(word) == word);
    if word_len(word) < word.len() {
        assert(!is_white(word[word_len(word) as int]));
    }
    assert(word.take(word.len() as int) =~= word);
    assert(word.skip(word.len() as int) =~= empty);
    assert(words_of(word) =~= seq![word]);
    let s = word.push(gap) + rest;
    assert(s[0] == word[0]);
    assert(trim_front(s) == s);
    word_ends(s);
    let n = word_len(s) as int;
    assert(s[word.len() as int] == gap);
    if n < word.len() {
        assert(s[n] == word[n]);
    }
    assert(n == word.len());
    assert(s.take(n) =~= word);
    let tail = s.skip(n);
    assert(tail =~= seq![gap] + rest);
    leading_gap(gap, rest);
}

proof fn leading_gap(gap: char, rest: Seq<char>)
    requires
        is_white(gap),
    ensures
        words_of(seq![gap] + rest) == words_of(rest),
{
    let s = seq![gap] + rest;
    assert(s.skip(1) =~= rest);
    assert(trim_front(s) == trim_front(rest));
}

/// A line stands before a line break, without a carriage return at its end; what
/// follows is read further. The last line may lack the break.
pub proof fn lines_stand_before_breaks(line: Seq<char>, rest: Seq<char>)
    requires
        !line.contains('\n'),
    ensures
        line.len() > 0 ==> lines_of(line) == seq![line],
        lines_of(line.push('\n') + rest) == seq![
            if line.len() > 0 && line.last() == '\r' { line.drop_last() } else { line },
        ] + lines_of(rest),
        lines_of(Seq::<char>::empty()).len() == 0,
{
    index_of_first(line, '\n');
    if index_of(line, '\n') < line.len() {
        assert(line.contains(line[index_of(line, '\n') as int]));
    }
    let s = line.push('\n') + rest;
    index_of_first(s, '\n');
    let n = index_of(s, '\n') as int;
    assert(s[line.len() as int] == '\n');
    if n < line.len() {
        assert(s[n] == line[n]);
        assert(line.contains(line[n]));
    }
    assert(s.take(n) =~= line);
    assert(s.skip(n + 1) =~= rest);
}

/// Text ends in what stands at its end, begins with what stands at its
/// beginning, and holds what stands in it.
pub proof fn parts_of_text(head: Seq<char>, part: Seq<char>, tail: Seq<char>)
    ensures
        ends_in(head + tail, tail),
        begins_with(head + tail, head),
        occurs_in(part, head + part + tail),
        ends_in(head, tail) ==> exists|front: Seq<char>| #[trigger] (front + tail) == head,
        begins_with(head, part) ==> exists|back: Seq<char>| #[trigger] (part + back) == head,
{
    let s = head + part + tail;
    assert((head + tail).skip((head + tail).len() - tail.len()) =~= tail);
    assert((head + tail).take(head.len() as int) =~= head);
    assert(s.skip(head.len() as int).take(part.len() as int) =~= part);
    assert(begins_with(s.skip(head.len() as int), part));
    if ends_in(head, tail) {
        let front = head.take(head.len() - tail.len());
        assert(front + tail =~= head);
    }
    if begins_with(head, part) {
        let back = head.skip(part.len() as int);
        assert(part + back =~= head);
    }
}

/// Text holds a part only where it is made of something before it, the part and
/// something behind it.
pub proof fn parts_occur_where_they_stand(part: Seq<char>, s: Seq<char>)
    requires
        occurs_in(part, s),
    ensures
        exists|i: int| 0 <= i && i + part.len() <= s.len() && #[trigger] s.subrange(i, i + part.len()) == part,
{
    let i = choose|i: int| 0 <= i <= s.len() && #[trigger] begins_with(s.skip(i), part);
    assert(s.skip(i).take(part.len() as int) =~= s.subrange(i, i + part.len()));
}

} // verus!
