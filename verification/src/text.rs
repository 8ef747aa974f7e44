//! Character and number text helpers shared by the lexer and the writer.
//!
//! Source positions in this compiler are byte offsets into UTF-8 text, so
//! the specifications here measure character sequences by the length of
//! their UTF-8 encoding.
use vstd::prelude::*;
use vstd::utf8::*;

verus! {

/// Unicode `White_Space` characters (what `char::is_whitespace` accepts).
pub open spec fn is_ws(c: char) -> bool {
    let u = c as u32;
    ||| 0x09 <= u <= 0x0D
    ||| u == 0x20
    ||| u == 0x85
    ||| u == 0xA0
    ||| u == 0x1680
    ||| 0x2000 <= u <= 0x200A
    ||| u == 0x2028
    ||| u == 0x2029
    ||| u == 0x202F
    ||| u == 0x205F
    ||| u == 0x3000
}

/// Whether `c` is a Unicode white-space character.
pub fn is_whitespace(c: char) -> (b: bool)
    ensures
        b == is_ws(c),
{
    let u = c as u32;
    (0x09 <= u && u <= 0x0D) || u == 0x20 || u == 0x85 || u == 0xA0 || u == 0x1680 || (0x2000
        <= u && u <= 0x200A) || u == 0x2028 || u == 0x2029 || u == 0x202F || u == 0x205F || u
        == 0x3000
}

/// Number of bytes of the UTF-8 encoding of `c`.
pub open spec fn utf8_width(c: char) -> nat {
    let u = c as u32;
    if u <= 0x7F {
        1
    } else if u <= 0x7FF {
        2
    } else if u <= 0xFFFF {
        3
    } else {
        4
    }
}

/// Number of bytes of the UTF-8 encoding of `s`.
pub open spec fn byte_len(s: Seq<char>) -> nat
    decreases s.len(),
{
    if s.len() == 0 {
        0
    } else {
        byte_len(s.drop_last()) + utf8_width(s.last())
    }
}

/// Byte offset of the character at position `k` of `s`.
pub open spec fn byte_offset(s: Seq<char>, k: int) -> nat {
    byte_len(s.take(k))
}

pub proof fn lemma_byte_offset_step(s: Seq<char>, k: int)
    requires
        0 <= k < s.len(),
    ensures
        byte_offset(s, k + 1) == byte_offset(s, k) + utf8_width(s[k]),
{
    assert(s.take(k + 1).drop_last() =~= s.take(k));
}

pub proof fn lemma_byte_len_concat(a: Seq<char>, b: Seq<char>)
    ensures
        byte_len(a + b) == byte_len(a) + byte_len(b),
    decreases b.len(),
{
    if b.len() > 0 {
        assert((a + b).drop_last() =~= a + b.drop_last());
        lemma_byte_len_concat(a, b.drop_last());
    } else {
        assert(a + b =~= a);
    }
}

pub proof fn lemma_byte_offset_mono(s: Seq<char>, j: int, k: int)
    requires
        0 <= j <= k <= s.len(),
    ensures
        byte_offset(s, j) + (k - j) <= byte_offset(s, k),
    decreases k - j,
{
    if j < k {
        lemma_byte_offset_mono(s, j, k - 1);
        lemma_byte_offset_step(s, k - 1);
    }
}

proof fn lemma_encode_scalar_len(c: char)
    ensures
        encode_scalar(c as u32).len() == utf8_width(c),
{
    char_is_scalar(c);
}

proof fn lemma_encode_utf8_concat(a: Seq<char>, b: Seq<char>)
    ensures
        encode_utf8(a + b) == encode_utf8(a) + encode_utf8(b),
    decreases a.len(),
{
    if a.len() == 0 {
        assert(a + b =~= b);
        assert(encode_utf8(a) =~= Seq::<u8>::empty());
        assert(encode_utf8(a) + encode_utf8(b) =~= encode_utf8(b));
    } else {
        assert((a + b).drop_first() =~= a.drop_first() + b);
        lemma_encode_utf8_concat(a.drop_first(), b);
        assert(encode_utf8(a + b) =~= encode_utf8(a) + encode_utf8(b));
    }
}

/// `byte_len` is the length of the UTF-8 encoding, i.e. what `str::len` returns.
pub proof fn lemma_byte_len_is_utf8_len(s: Seq<char>)
    ensures
        byte_len(s) == encode_utf8(s).len(),
    decreases s.len(),
{
    if s.len() > 0 {
        lemma_byte_len_is_utf8_len(s.drop_last());
        assert(s =~= s.drop_last() + seq![s.last()]);
        lemma_encode_utf8_concat(s.drop_last(), seq![s.last()]);
        assert(seq![s.last()].drop_first() =~= Seq::<char>::empty());
        assert(encode_utf8(seq![s.last()]) =~= encode_scalar(s.last() as u32) + encode_utf8(
            Seq::<char>::empty(),
        ));
        lemma_encode_scalar_len(s.last());
    }
}

/// Number of bytes of the UTF-8 encoding of `c`.
pub fn char_width(c: char) -> (w: usize)
    ensures
        w == utf8_width(c),
{
    let u = c as u32;
    if u <= 0x7F {
        1
    } else if u <= 0x7FF {
        2
    } else if u <= 0xFFFF {
        3
    } else {
        4
    }
}

/// The characters of `s`, in order.
pub fn chars_of(s: &str) -> (v: Vec<char>)
    ensures
        v@ == s@,
{
    broadcast use vstd::string::group_string_axioms;

    let mut v: Vec<char> = Vec::new();
    let n = s.unicode_len();
    let mut i: usize = 0;
    while i < n
        invariant
            n == s@.len(),
            i <= n,
            v@ == s@.take(i as int),
        decreases n - i,
    {
        let c = s.get_char(i);
        v.push(c);
        assert(s@.take(i + 1) =~= s@.take(i as int).push(c));
        i = i + 1;
    }
    assert(s@.take(n as int) =~= s@);
    v
}

/// Appends the character `c` to `s` (`String::push`).
#[verifier::external_body]
pub fn push_char(s: &mut String, c: char)
    ensures
        final(s)@ == old(s)@.push(c),
{
    s.push(c);
}

/// A string holding exactly the characters of `v`.
pub fn string_from_chars(v: &Vec<char>) -> (s: String)
    ensures
        s@ == v@,
{
    let mut s = String::new();
    let mut i: usize = 0;
    while i < v.len()
        invariant
            i <= v.len(),
            s@ == v@.take(i as int),
        decreases v.len() - i,
    {
        push_char(&mut s, v[i]);
        assert(v@.take(i + 1) =~= v@.take(i as int).push(v@[i as int]));
        i = i + 1;
    }
    assert(v@.take(v.len() as int) =~= v@);
    s
}

/// Lower-case hexadecimal digit for `d < 16`.
pub open spec fn hex_digit(d: nat) -> char {
    if d == 0 {
        '0'
    } else if d == 1 {
        '1'
    } else if d == 2 {
        '2'
    } else if d == 3 {
        '3'
    } else if d == 4 {
        '4'
    } else if d == 5 {
        '5'
    } else if d == 6 {
        '6'
    } else if d == 7 {
        '7'
    } else if d == 8 {
        '8'
    } else if d == 9 {
        '9'
    } else if d == 10 {
        'a'
    } else if d == 11 {
        'b'
    } else if d == 12 {
        'c'
    } else if d == 13 {
        'd'
    } else if d == 14 {
        'e'
    } else {
        'f'
    }
}

/// Lower-case hexadecimal representation of `n`, without leading zeros
/// (`"0"` for zero).
pub open spec fn hex_digits(n: nat) -> Seq<char>
    decreases n,
{
    if n < 16 {
        seq![hex_digit(n)]
    } else {
        hex_digits(n / 16).push(hex_digit(n % 16))
    }
}

/// Decimal representation of `n`, without leading zeros (`"0"` for zero).
pub open spec fn dec_digits(n: nat) -> Seq<char>
    decreases n,
{
    if n < 10 {
        seq![hex_digit(n)]
    } else {
        dec_digits(n / 10).push(hex_digit(n % 10))
    }
}

/// `s` left-padded with `'0'` to at least `w` characters.
pub open spec fn zero_pad(s: Seq<char>, w: nat) -> Seq<char> {
    if s.len() < w {
        Seq::new((w - s.len()) as nat, |i: int| '0') + s
    } else {
        s
    }
}

/// What `format!("{:w$x}", n).replace(" ", "0")` produces.
pub open spec fn hex_padded(n: nat, w: nat) -> Seq<char> {
    zero_pad(hex_digits(n), w)
}

/// Value of a lower-case hexadecimal digit character (0 for any other
/// character).
pub open spec fn hex_digit_value(c: char) -> nat {
    if '0' <= c && c <= '9' {
        (c as u32 - '0' as u32) as nat
    } else if 'a' <= c && c <= 'f' {
        (c as u32 - 'a' as u32 + 10) as nat
    } else {
        0
    }
}

/// The number that the hexadecimal text `s` stands for.
pub open spec fn hex_value(s: Seq<char>) -> nat
    decreases s.len(),
{
    if s.len() == 0 {
        0
    } else {
        hex_value(s.drop_last()) * 16 + hex_digit_value(s.last())
    }
}

proof fn lemma_hex_digit_value(d: nat)
    requires
        d < 16,
    ensures
        hex_digit_value(hex_digit(d)) == d,
{
}

proof fn lemma_hex_digits_value(n: nat)
    ensures
        hex_value(hex_digits(n)) == n,
        1 <= hex_digits(n).len(),
    decreases n,
{
    if n < 16 {
        lemma_hex_digit_value(n);
        assert(seq![hex_digit(n)].drop_last() =~= Seq::<char>::empty());
        assert(hex_value(Seq::<char>::empty()) == 0);
    } else {
        lemma_hex_digits_value(n / 16);
        lemma_hex_digit_value(n % 16);
        let s = hex_digits(n / 16).push(hex_digit(n % 16));
        assert(s.drop_last() =~= hex_digits(n / 16));
        assert(s.last() == hex_digit(n % 16));
        assert(hex_value(s) == (n / 16) * 16 + n % 16);
    }
}

proof fn lemma_zeros_value(k: nat, s: Seq<char>)
    ensures
        hex_value(Seq::new(k, |i: int| '0') + s) == hex_value(s),
    decreases s.len(), k,
{
    let z = Seq::new(k, |i: int| '0');
    if s.len() == 0 {
        assert(z + s =~= z);
        if k > 0 {
            lemma_zeros_value((k - 1) as nat, s);
            assert(z.drop_last() =~= Seq::new((k - 1) as nat, |i: int| '0') + s);
        }
    } else {
        lemma_zeros_value(k, s.drop_last());
        assert((z + s).drop_last() =~= z + s.drop_last());
    }
}

proof fn lemma_hex_digits_width(n: nat, w: nat)
    requires
        1 <= w,
        n < vstd::arithmetic::power::pow(16, w),
    ensures
        hex_digits(n).len() <= w,
    decreases n,
{
    reveal(vstd::arithmetic::power::pow);
    if n >= 16 {
        assert(w > 1) by {
            if w == 1 {
                assert(vstd::arithmetic::power::pow(16, 0) == 1);
            }
        }
        assert(n / 16 < vstd::arithmetic::power::pow(16, (w - 1) as nat));
        lemma_hex_digits_width(n / 16, (w - 1) as nat);
    }
}

/// A lower-case hexadecimal digit character.
pub open spec fn is_lower_hex(c: char) -> bool {
    ('0' <= c && c <= '9') || ('a' <= c && c <= 'f')
}

proof fn lemma_hex_digits_lower(n: nat)
    ensures
        forall|i: int| 0 <= i < hex_digits(n).len() ==> is_lower_hex(#[trigger] hex_digits(n)[i]),
    decreases n,
{
    if n >= 16 {
        lemma_hex_digits_value(n / 16);
        lemma_hex_digits_lower(n / 16);
        let d = (n % 16) as nat;
        assert(is_lower_hex(hex_digit(d)));
        let s = hex_digits(n / 16).push(hex_digit(d));
        assert forall|i: int| 0 <= i < s.len() implies is_lower_hex(#[trigger] s[i]) by {
            if i < s.len() - 1 {
                assert(s[i] == hex_digits(n / 16)[i]);
            }
        }
    } else {
        assert(is_lower_hex(hex_digit(n)));
    }
}

/// Zero-padded hexadecimal text reads back as the number it was made from,
/// holds lower-case hexadecimal digits only, is as long as the digits of the
/// number or `w` when that is more, and a number below `16^w` takes exactly
/// `w` characters.
pub proof fn law_hex_padded_reads_back(n: nat, w: nat)
    ensures
        hex_value(hex_padded(n, w)) == n,
        forall|i: int| 0 <= i < hex_padded(n, w).len() ==> is_lower_hex(#[trigger] hex_padded(n, w)[i]),
        hex_padded(n, w).len() == if hex_digits(n).len() < w {
            w as int
        } else {
            hex_digits(n).len() as int
        },
        1 <= w && n < vstd::arithmetic::power::pow(16, w) ==> hex_padded(n, w).len() == w,
{
    lemma_hex_digits_lower(n);
    let p = hex_padded(n, w);
    assert forall|i: int| 0 <= i < p.len() implies is_lower_hex(#[trigger] p[i]) by {
        let s = hex_digits(n);
        if s.len() < w {
            let z = Seq::new((w - s.len()) as nat, |k: int| '0');
            assert(p == z + s);
            if i < z.len() {
                assert(p[i] == z[i]);
            } else {
                assert(p[i] == s[i - z.len()]);
            }
        }
    }
    lemma_hex_digits_value(n);
    let s = hex_digits(n);
    if s.len() < w {
        lemma_zeros_value((w - s.len()) as nat, s);
    }
    if 1 <= w && n < vstd::arithmetic::power::pow(16, w) {
        lemma_hex_digits_width(n, w);
    }
}

fn digit_char(d: u64) -> (c: char)
    requires
        d < 16,
    ensures
        c == hex_digit(d as nat),
{
    match d {
        0 => '0',
        1 => '1',
        2 => '2',
        3 => '3',
        4 => '4',
        5 => '5',
        6 => '6',
        7 => '7',
        8 => '8',
        9 => '9',
        10 => 'a',
        11 => 'b',
        12 => 'c',
        13 => 'd',
        14 => 'e',
        _ => 'f',
    }
}

fn push_hex_digits(out: &mut String, n: u64)
    ensures
        final(out)@ == old(out)@ + hex_digits(n as nat),
    decreases n,
{
    if n >= 16 {
        push_hex_digits(out, n / 16);
    }
    let c = digit_char(n % 16);
    push_char(out, c);
    if n >= 16 {
        assert(hex_digits(n as nat) == hex_digits((n / 16) as nat).push(hex_digit((n % 16) as nat)));
    }
}

fn push_zeros(out: &mut String, k: usize)
    ensures
        final(out)@ == old(out)@ + Seq::new(k as nat, |i: int| '0'),
{
    let mut i: usize = 0;
    while i < k
        invariant
            i <= k,
            out@ == old(out)@ + Seq::new(i as nat, |j: int| '0'),
        decreases k - i,
    {
        push_char(out, '0');
        assert(Seq::new((i + 1) as nat, |j: int| '0') =~= Seq::new(i as nat, |j: int| '0').push(
            '0',
        ));
        i = i + 1;
    }
}

/// Appends `n` in lower-case hexadecimal, zero-padded to at least `w` digits.
pub fn push_hex_padded(out: &mut String, n: u64, w: usize)
    ensures
        final(out)@ == old(out)@ + hex_padded(n as nat, w as nat),
{
    let mut digits = String::new();
    push_hex_digits(&mut digits, n);
    assert(digits@ =~= hex_digits(n as nat));
    let l = digits.as_str().unicode_len();
    if l < w {
        push_zeros(out, w - l);
    }
    out.append(digits.as_str());
    if l < w {
        assert(out@ =~= old(out)@ + (Seq::new((w - l) as nat, |i: int| '0') + hex_digits(
            n as nat,
        )));
    } else {
        assert(out@ =~= old(out)@ + hex_digits(n as nat));
    }
}

fn push_dec_digits(out: &mut String, n: u64)
    ensures
        final(out)@ == old(out)@ + dec_digits(n as nat),
    decreases n,
{
    if n >= 10 {
        push_dec_digits(out, n / 10);
    }
    let c = digit_char(n % 10);
    push_char(out, c);
    if n >= 10 {
        assert(dec_digits(n as nat) == dec_digits((n / 10) as nat).push(hex_digit((n % 10) as nat)));
    }
}

/// Decimal rendering of a signed integer (what `{}` prints for it).
pub open spec fn dec_signed(v: int) -> Seq<char> {
    if v < 0 {
        seq!['-'] + dec_digits((-v) as nat)
    } else {
        dec_digits(v as nat)
    }
}

/// An ASCII decimal digit.
pub open spec fn is_digit(c: char) -> bool {
    '0' <= c && c <= '9'
}

/// The number written by the decimal digits `s`.
pub open spec fn dec_value(s: Seq<char>) -> nat
    decreases s.len(),
{
    if s.len() == 0 {
        0
    } else {
        dec_value(s.drop_last()) * 10 + (s.last() as u32 - '0' as u32) as nat
    }
}

/// `s` is a non-empty run of decimal digits.
pub open spec fn all_digits(s: Seq<char>) -> bool {
    s.len() > 0 && forall|i: int| 0 <= i < s.len() ==> is_digit(#[trigger] s[i])
}

/// The value `str::parse::<usize>` reads from `s`: an optional `+`, then
/// one or more decimal digits whose value fits in a `usize`; `None` for
/// any other text.
pub open spec fn parse_usize(s: Seq<char>) -> Option<usize> {
    let d = if s.len() > 0 && s[0] == '+' {
        s.skip(1)
    } else {
        s
    };
    if all_digits(d) && dec_value(d) <= usize::MAX {
        Some(dec_value(d) as usize)
    } else {
        None
    }
}

proof fn lemma_dec_value_prefix(s: Seq<char>, k: int)
    requires
        0 <= k <= s.len(),
        forall|i: int| 0 <= i < s.len() ==> is_digit(#[trigger] s[i]),
    ensures
        dec_value(s.take(k)) <= dec_value(s),
    decreases s.len(),
{
    if k < s.len() {
        assert(s.drop_last().take(k) =~= s.take(k));
        lemma_dec_value_prefix(s.drop_last(), k);
    } else {
        assert(s.take(k) =~= s);
    }
}

/// Reads `s[a..b]` as `str::parse::<usize>` does.
pub fn parse_usize_chars(s: &Vec<char>, a: usize, b: usize) -> (r: Option<usize>)
    requires
        a <= b <= s@.len(),
    ensures
        r == parse_usize(s@.subrange(a as int, b as int)),
{
    let ghost t = s@.subrange(a as int, b as int);
    let mut start = a;
    if a < b && s[a] == '+' {
        start = a + 1;
    }
    let ghost d = s@.subrange(start as int, b as int);
    proof {
        if a < b {
            assert(t[0] == s@[a as int]);
        }
        if a < b && s@[a as int] == '+' {
            assert(t.skip(1) =~= d);
        } else {
            assert(t =~= d);
        }
        assert(parse_usize(t) == if all_digits(d) && dec_value(d) <= usize::MAX {
            Some(dec_value(d) as usize)
        } else {
            None::<usize>
        });
    }
    if start == b {
        return None;
    }
    let mut value: usize = 0;
    let mut i: usize = start;
    while i < b
        invariant
            a <= start < b <= s@.len(),
            start <= i <= b,
            d == s@.subrange(start as int, b as int),
            t == s@.subrange(a as int, b as int),
            forall|j: int| start <= j < i ==> is_digit(#[trigger] s@[j]),
            value == dec_value(s@.subrange(start as int, i as int)),
            parse_usize(t) == if all_digits(d) && dec_value(d) <= usize::MAX {
                Some(dec_value(d) as usize)
            } else {
                None::<usize>
            },
        decreases b - i,
    {
        let c = s[i];
        if !('0' <= c && c <= '9') {
            assert(d[i - start] == s@[i as int]);
            assert(!is_digit(d[i - start]));
            return None;
        }
        let digit = (c as u32 - '0' as u32) as usize;
        assert(s@.subrange(start as int, i + 1).drop_last() =~= s@.subrange(start as int, i as int));
        if value > (usize::MAX - digit) / 10 {
            proof {
                assert(value * 10 + digit > usize::MAX) by (nonlinear_arith)
                    requires
                        value > (usize::MAX - digit) / 10,
                        digit <= 9,
                ;
                if all_digits(d) {
                    assert(s@.subrange(start as int, i + 1) =~= d.take(i + 1 - start));
                    lemma_dec_value_prefix(d, i + 1 - start);
                }
            }
            return None;
        }
        value = value * 10 + digit;
        i = i + 1;
    }
    assert(s@.subrange(start as int, b as int) =~= d);
    Some(value)
}

/// Appends the decimal rendering of `n`.
pub fn push_dec(out: &mut String, n: u64)
    ensures
        final(out)@ == old(out)@ + dec_digits(n as nat),
{
    push_dec_digits(out, n);
}

/// Appends the decimal rendering of the signed value `v`.
pub fn push_dec_signed(out: &mut String, v: i64)
    requires
        v > i64::MIN,
    ensures
        final(out)@ == old(out)@ + dec_signed(v as int),
{
    if v < 0 {
        push_char(out, '-');
        let m: u64 = (-v) as u64;
        push_dec_digits(out, m);
        assert(out@ =~= old(out)@ + (seq!['-'] + dec_digits((-v) as nat)));
    } else {
        push_dec_digits(out, v as u64);
    }
}

/// Appends every character of `s`.
pub fn push_str(out: &mut String, s: &str)
    ensures
        final(out)@ == old(out)@ + s@,
{
    out.append(s);
}


/// `c` ends a word: it belongs to `set` or is white space.
pub open spec fn is_stop(c: char, set: Seq<char>) -> bool {
    set.contains(c) || is_ws(c)
}

/// Position of the first character at or after `i` that ends a word
/// (`s.len()` when there is none).
pub open spec fn stop_from(s: Seq<char>, set: Seq<char>, i: int) -> int
    decreases s.len() - i,
{
    if i >= s.len() {
        s.len() as int
    } else if is_stop(s[i], set) {
        i
    } else {
        stop_from(s, set, i + 1)
    }
}

/// Position of the first character of `s` that ends a word.
pub open spec fn first_stop(s: Seq<char>, set: Seq<char>) -> int {
    stop_from(s, set, 0)
}

pub proof fn lemma_stop_from_bounds(s: Seq<char>, set: Seq<char>, i: int)
    requires
        0 <= i <= s.len(),
    ensures
        i <= stop_from(s, set, i) <= s.len(),
        stop_from(s, set, i) < s.len() ==> is_stop(s[stop_from(s, set, i)], set),
        forall|j: int| i <= j < stop_from(s, set, i) ==> !is_stop(#[trigger] s[j], set),
    decreases s.len() - i,
{
    if i < s.len() && !is_stop(s[i], set) {
        lemma_stop_from_bounds(s, set, i + 1);
    }
}

/// Whether `c` occurs in `set`.
pub fn contains_char(set: &Vec<char>, c: char) -> (b: bool)
    ensures
        b == set@.contains(c),
{
    let mut i: usize = 0;
    while i < set.len()
        invariant
            i <= set.len(),
            forall|j: int| 0 <= j < i ==> set@[j] != c,
        decreases set.len() - i,
    {
        if set[i] == c {
            return true;
        }
        i = i + 1;
    }
    false
}

/// Position (in characters and in bytes) of the first character of `s`
/// that belongs to `set` or is white space; `s.len()` and the byte length
/// of `s` when there is none.
pub fn find_stop(s: &Vec<char>, set: &Vec<char>) -> (r: (usize, usize))
    requires
        byte_len(s@) <= usize::MAX,
    ensures
        r.0 == first_stop(s@, set@),
        r.1 == byte_offset(s@, r.0 as int),
{
    let mut i: usize = 0;
    let mut off: usize = 0;
    assert(s@.take(0) =~= Seq::<char>::empty());
    while i < s.len()
        invariant
            i <= s.len(),
            off == byte_offset(s@, i as int),
            byte_len(s@) <= usize::MAX,
            stop_from(s@, set@, 0) == stop_from(s@, set@, i as int),
        decreases s.len() - i,
    {
        let c = s[i];
        if contains_char(set, c) || is_whitespace(c) {
            return (i, off);
        }
        proof {
            lemma_byte_offset_step(s@, i as int);
            lemma_byte_offset_mono(s@, i + 1, s@.len() as int);
            assert(s@.take(s@.len() as int) =~= s@);
        }
        off = off + char_width(c);
        i = i + 1;
    }
    (i, off)
}

/// Whether `p` is a prefix of `s`.
pub fn starts_with(s: &Vec<char>, p: &Vec<char>) -> (b: bool)
    ensures
        b == p@.is_prefix_of(s@),
{
    if p.len() > s.len() {
        return false;
    }
    let mut i: usize = 0;
    while i < p.len()
        invariant
            p.len() <= s.len(),
            i <= p.len(),
            forall|j: int| 0 <= j < i ==> p@[j] == s@[j],
        decreases p.len() - i,
    {
        if p[i] != s[i] {
            assert(p@[i as int] != s@.subrange(0, p@.len() as int)[i as int]);
            return false;
        }
        i = i + 1;
    }
    assert(p@ =~= s@.subrange(0, p@.len() as int));
    true
}

/// Whether `a` and `b` hold the same characters.
pub fn same_chars(a: &Vec<char>, b: &Vec<char>) -> (r: bool)
    ensures
        r == (a@ == b@),
{
    if a.len() != b.len() {
        return false;
    }
    let r = starts_with(a, b);
    proof {
        if r {
            assert(a@ =~= b@);
        }
    }
    r
}


/// A string holding the characters `s[a..b]`.
pub fn string_from_range(s: &Vec<char>, a: usize, b: usize) -> (r: String)
    requires
        a <= b <= s.len(),
    ensures
        r@ == s@.subrange(a as int, b as int),
{
    let mut r = String::new();
    let mut i: usize = a;
    while i < b
        invariant
            a <= i <= b <= s.len(),
            r@ == s@.subrange(a as int, i as int),
        decreases b - i,
    {
        push_char(&mut r, s[i]);
        assert(s@.subrange(a as int, i + 1) =~= s@.subrange(a as int, i as int).push(s@[i as int]));
        i = i + 1;
    }
    r
}

/// Whether `p` occurs in `s` starting at position `at`.
pub fn starts_with_at(s: &Vec<char>, at: usize, p: &Vec<char>) -> (b: bool)
    requires
        at <= s.len(),
    ensures
        b == p@.is_prefix_of(s@.skip(at as int)),
{
    if p.len() > s.len() - at {
        return false;
    }
    let mut i: usize = 0;
    while i < p.len()
        invariant
            at <= s.len(),
            p.len() <= s.len() - at,
            i <= p.len(),
            forall|j: int| 0 <= j < i ==> p@[j] == s@[at + j],
        decreases p.len() - i,
    {
        if p[i] != s[at + i] {
            assert(p@[i as int] != s@.skip(at as int).subrange(0, p@.len() as int)[i as int]);
            return false;
        }
        i = i + 1;
    }
    assert(p@ =~= s@.skip(at as int).subrange(0, p@.len() as int));
    true
}

/// Position, counted from `at`, in characters and in bytes, of the first
/// character of `s[at..]` that belongs to `set` or is white space.
pub fn find_stop_at(s: &Vec<char>, at: usize, set: &Vec<char>) -> (r: (usize, usize))
    requires
        at <= s.len(),
        byte_len(s@.skip(at as int)) <= usize::MAX,
    ensures
        r.0 == first_stop(s@.skip(at as int), set@),
        r.1 == byte_offset(s@.skip(at as int), r.0 as int),
{
    let ghost t = s@.skip(at as int);
    let mut i: usize = 0;
    let mut off: usize = 0;
    assert(t.take(0) =~= Seq::<char>::empty());
    while i < s.len() - at
        invariant
            at <= s.len(),
            t == s@.skip(at as int),
            i <= t.len(),
            off == byte_offset(t, i as int),
            byte_len(t) <= usize::MAX,
            stop_from(t, set@, 0) == stop_from(t, set@, i as int),
        decreases t.len() - i,
    {
        let c = s[at + i];
        assert(c == t[i as int]);
        if contains_char(set, c) || is_whitespace(c) {
            return (i, off);
        }
        proof {
            lemma_byte_offset_step(t, i as int);
            lemma_byte_offset_mono(t, i + 1, t.len() as int);
            assert(t.take(t.len() as int) =~= t);
        }
        off = off + char_width(c);
        i = i + 1;
    }
    (i, off)
}


/// Position of the first character at or after `i` that is not white space.
pub open spec fn skip_ws_from(s: Seq<char>, i: int) -> int
    decreases s.len() - i,
{
    if i >= s.len() {
        s.len() as int
    } else if is_ws(s[i]) {
        skip_ws_from(s, i + 1)
    } else {
        i
    }
}

/// End of `s[..j]` once its trailing white space is dropped.
pub open spec fn trim_end_from(s: Seq<char>, j: int) -> int
    decreases j,
{
    if j <= 0 {
        0
    } else if is_ws(s[j - 1]) {
        trim_end_from(s, j - 1)
    } else {
        j
    }
}

/// `s` without leading and trailing white space (`str::trim`).
pub open spec fn trimmed(s: Seq<char>) -> Seq<char> {
    let a = skip_ws_from(s, 0);
    let b = trim_end_from(s, s.len() as int);
    if a < b {
        s.subrange(a, b)
    } else {
        Seq::empty()
    }
}

proof fn lemma_trim_end_bounds(s: Seq<char>, j: int)
    requires
        0 <= j <= s.len(),
    ensures
        0 <= trim_end_from(s, j) <= j,
    decreases j,
{
    if j > 0 && is_ws(s[j - 1]) {
        lemma_trim_end_bounds(s, j - 1);
    }
}

/// `v` without leading and trailing white space.
pub fn trim_chars(v: &Vec<char>) -> (r: Vec<char>)
    ensures
        r@ == trimmed(v@),
{
    let n = v.len();
    let mut a: usize = 0;
    while a < n && is_whitespace(v[a])
        invariant
            n == v@.len(),
            a <= n,
            skip_ws_from(v@, 0) == skip_ws_from(v@, a as int),
        decreases n - a,
    {
        a = a + 1;
    }
    let mut b: usize = n;
    while b > 0 && is_whitespace(v[b - 1])
        invariant
            n == v@.len(),
            b <= n,
            trim_end_from(v@, n as int) == trim_end_from(v@, b as int),
        decreases b,
    {
        b = b - 1;
    }
    let mut r: Vec<char> = Vec::new();
    if a < b {
        let mut i: usize = a;
        while i < b
            invariant
                a <= i <= b <= n,
                n == v@.len(),
                r@ == v@.subrange(a as int, i as int),
            decreases b - i,
        {
            r.push(v[i]);
            assert(v@.subrange(a as int, i + 1) =~= v@.subrange(a as int, i as int).push(v@[i as int]));
            i = i + 1;
        }
    }
    r
}

} // verus!
