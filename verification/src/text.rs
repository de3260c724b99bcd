//! Building key and identifier text digit by digit.
use vstd::prelude::*;

verus! {

/// The character for one digit in base 16 or below, lowercase for digits above nine.
pub open spec fn digit_char(d: nat) -> char {
    if d < 10 {
        (48 + d) as char
    } else {
        (87 + d) as char
    }
}

/// Digits of `n` in base `radix`, zero-padded on the left to at least `width` characters,
/// as `{:0width$}` and `{:0width$x}` print them.
pub open spec fn radix_text(n: nat, width: nat, radix: nat) -> Seq<char>
    recommends
        radix > 1,
    decreases n + width,
{
    if radix <= 1 {
        Seq::empty()
    } else if width <= 1 && n < radix {
        seq![digit_char(n)]
    } else {
        proof {
            lemma_div_shrinks(n, radix);
        }
        radix_text(n / radix, if width > 0 { (width - 1) as nat } else { 0 }, radix).push(
            digit_char(n % radix),
        )
    }
}

/// Dividing by a radix never grows a number, and shrinks every number at least the radix.
pub proof fn lemma_div_shrinks(n: nat, radix: nat)
    requires
        radix > 1,
    ensures
        n / radix <= n,
        n >= radix ==> n / radix < n,
{
    assert(n / radix <= n) by (nonlinear_arith)
        requires
            radix > 1,
    ;
    if n >= radix {
        assert(n / radix < n) by (nonlinear_arith)
            requires
                radix > 1,
                n >= radix,
        ;
    }
}

/// Two lowercase hexadecimal digits of one byte, high nibble first.
pub open spec fn byte_hex(b: u8) -> Seq<char> {
    seq![digit_char((b / 16) as nat), digit_char((b % 16) as nat)]
}

/// Lowercase hexadecimal text of a byte string, two digits per byte.
pub open spec fn hex_bytes(s: Seq<u8>) -> Seq<char>
    decreases s.len(),
{
    if s.len() == 0 {
        Seq::empty()
    } else {
        byte_hex(s[0]) + hex_bytes(s.drop_first())
    }
}

/// Unicode `White_Space`, the property that `char::is_whitespace` and `str::trim` use.
pub open spec fn is_white_space(c: char) -> bool {
    let v = c as u32;
    (9 <= v <= 13) || v == 32 || v == 0x85 || v == 0xa0 || v == 0x1680 || (0x2000 <= v
        <= 0x200a) || v == 0x2028 || v == 0x2029 || v == 0x202f || v == 0x205f || v == 0x3000
}

/// Whether trimming `s` leaves nothing: every character is white space.
pub open spec fn spec_is_blank(s: Seq<char>) -> bool {
    forall|i: int| 0 <= i < s.len() ==> is_white_space(#[trigger] s[i])
}

pub fn char_is_white_space(c: char) -> (b: bool)
    ensures
        b == is_white_space(c),
{
    let v = c as u32;
    (9 <= v && v <= 13) || v == 32 || v == 0x85 || v == 0xa0 || v == 0x1680 || (0x2000 <= v && v
        <= 0x200a) || v == 0x2028 || v == 0x2029 || v == 0x202f || v == 0x205f || v == 0x3000
}

/// `s.trim().is_empty()`.
pub fn is_blank(s: &str) -> (b: bool)
    ensures
        b == spec_is_blank(s@),
{
    broadcast use vstd::string::group_string_axioms;

    for c in iter: s.chars()
        invariant
            iter.seq() == s@,
            forall|j: int| 0 <= j < iter.index() ==> is_white_space(#[trigger] s@[j]),
    {
        if !char_is_white_space(c) {
            return false;
        }
    }
    true
}

pub proof fn lemma_hex_bytes_concat(a: Seq<u8>, b: Seq<u8>)
    ensures
        hex_bytes(a + b) == hex_bytes(a) + hex_bytes(b),
    decreases a.len(),
{
    if a.len() == 0 {
        assert(a + b =~= b);
        assert(hex_bytes(a) + hex_bytes(b) =~= hex_bytes(b));
    } else {
        assert((a + b).drop_first() =~= a.drop_first() + b);
        lemma_hex_bytes_concat(a.drop_first(), b);
        assert(hex_bytes(a + b) =~= hex_bytes(a) + hex_bytes(b));
    }
}

pub proof fn lemma_hex_bytes_push(a: Seq<u8>, x: u8)
    ensures
        hex_bytes(a.push(x)) == hex_bytes(a) + byte_hex(x),
{
    assert(a.push(x) =~= a + seq![x]);
    lemma_hex_bytes_concat(a, seq![x]);
    assert(seq![x].drop_first() =~= Seq::<u8>::empty());
    assert(hex_bytes(Seq::<u8>::empty()) =~= Seq::<char>::empty());
    assert(hex_bytes(seq![x]) == byte_hex(seq![x][0]) + hex_bytes(seq![x].drop_first()));
    assert(hex_bytes(seq![x]) =~= byte_hex(x));
}

/// Appends the two lowercase hexadecimal digits of a byte.
pub fn push_byte_hex(s: &mut String, b: u8)
    ensures
        final(s)@ == old(s)@ + byte_hex(b),
{
    push_char(s, digit_to_char((b / 16) as u64));
    push_char(s, digit_to_char((b % 16) as u64));
    assert(final(s)@ =~= old(s)@ + byte_hex(b));
}

/// Appends the lowercase hexadecimal text of a byte string.
pub fn push_hex_bytes(s: &mut String, bytes: &[u8])
    ensures
        final(s)@ == old(s)@ + hex_bytes(bytes@),
{
    let mut i: usize = 0;
    while i < bytes.len()
        invariant
            i <= bytes@.len(),
            s@ == old(s)@ + hex_bytes(bytes@.subrange(0, i as int)),
        decreases bytes.len() - i,
    {
        proof {
            assert(bytes@.subrange(0, i + 1) =~= bytes@.subrange(0, i as int).push(bytes@[i as int]));
            lemma_hex_bytes_push(bytes@.subrange(0, i as int), bytes@[i as int]);
        }
        push_byte_hex(s, bytes[i]);
        i = i + 1;
    }
    assert(bytes@.subrange(0, bytes@.len() as int) =~= bytes@);
}

/// Lexicographic order of texts by code point, as `String`'s `<` orders ASCII text.
pub open spec fn text_lt(a: Seq<char>, b: Seq<char>) -> bool
    decreases a.len(),
{
    if a.len() == 0 {
        b.len() > 0
    } else if b.len() == 0 {
        false
    } else if a[0] != b[0] {
        (a[0] as u32) < (b[0] as u32)
    } else {
        text_lt(a.drop_first(), b.drop_first())
    }
}

/// Lexicographic order of byte strings, as `String`'s `<` orders text by its UTF-8 bytes.
pub open spec fn bytes_lt(a: Seq<u8>, b: Seq<u8>) -> bool
    decreases a.len(),
{
    if a.len() == 0 {
        b.len() > 0
    } else if b.len() == 0 {
        false
    } else if a[0] != b[0] {
        a[0] < b[0]
    } else {
        bytes_lt(a.drop_first(), b.drop_first())
    }
}


/// No text comes before itself.
pub proof fn lemma_text_lt_irreflexive(a: Seq<char>)
    ensures
        !text_lt(a, a),
    decreases a.len(),
{
    if a.len() > 0 {
        lemma_text_lt_irreflexive(a.drop_first());
    }
}

/// The order of texts is transitive.
pub proof fn lemma_text_lt_transitive(a: Seq<char>, b: Seq<char>, c: Seq<char>)
    requires
        text_lt(a, b),
        text_lt(b, c),
    ensures
        text_lt(a, c),
    decreases a.len(),
{
    if a.len() > 0 && b.len() > 0 && c.len() > 0 && a[0] == b[0] && b[0] == c[0] {
        lemma_text_lt_transitive(a.drop_first(), b.drop_first(), c.drop_first());
    }
}

/// Texts that agree on their first `i` characters are ordered by what follows.
proof fn lemma_text_lt_skip(a: Seq<char>, b: Seq<char>, i: int)
    requires
        0 <= i <= a.len(),
        i <= b.len(),
        a.take(i) == b.take(i),
    ensures
        text_lt(a, b) == text_lt(a.skip(i), b.skip(i)),
    decreases i,
{
    if i > 0 {
        assert(a[0] == a.take(i)[0]);
        assert(b[0] == b.take(i)[0]);
        assert(a.drop_first().take(i - 1) =~= a.take(i).drop_first());
        assert(b.drop_first().take(i - 1) =~= b.take(i).drop_first());
        lemma_text_lt_skip(a.drop_first(), b.drop_first(), i - 1);
        assert(a.drop_first().skip(i - 1) =~= a.skip(i));
        assert(b.drop_first().skip(i - 1) =~= b.skip(i));
    } else {
        assert(a.skip(0) =~= a);
        assert(b.skip(0) =~= b);
    }
}

/// Whether `a` comes before `b` in the order of their code points.
pub fn text_less(a: &str, b: &str) -> (lt: bool)
    ensures
        lt == text_lt(a@, b@),
{
    let n = a.unicode_len();
    let m = b.unicode_len();
    let mut i: usize = 0;
    while i < n && i < m
        invariant
            n == a@.len(),
            m == b@.len(),
            i <= n,
            i <= m,
            a@.take(i as int) == b@.take(i as int),
        decreases n - i,
    {
        let x = a.get_char(i);
        let y = b.get_char(i);
        if x != y {
            proof {
                lemma_text_lt_skip(a@, b@, i as int);
                assert(a@.skip(i as int)[0] == x);
                assert(b@.skip(i as int)[0] == y);
            }
            return (x as u32) < (y as u32);
        }
        assert(a@.take(i + 1) =~= a@.take(i as int).push(x));
        assert(b@.take(i + 1) =~= b@.take(i as int).push(y));
        i = i + 1;
    }
    proof {
        lemma_text_lt_skip(a@, b@, i as int);
    }
    i < m && i == n
}
pub proof fn lemma_digit_char_monotone(d: nat, e: nat)
    requires
        d < e < 16,
    ensures
        (digit_char(d) as u32) < (digit_char(e) as u32),
{
}

/// A shared first character does not change the order.
pub proof fn lemma_text_lt_cons(c: char, a: Seq<char>, b: Seq<char>)
    ensures
        text_lt(seq![c] + a, seq![c] + b) == text_lt(a, b),
{
    assert((seq![c] + a).drop_first() =~= a);
    assert((seq![c] + b).drop_first() =~= b);
}

/// Texts of equal length keep their order when each gains a last character, and equal
/// texts take the order of the last characters.
pub proof fn lemma_text_lt_push(a: Seq<char>, b: Seq<char>, x: char, y: char)
    requires
        a.len() == b.len(),
        text_lt(a, b) || (a == b && (x as u32) < (y as u32)),
    ensures
        text_lt(a.push(x), b.push(y)),
    decreases a.len(),
{
    if a.len() == 0 {
        assert(a.push(x)[0] == x);
        assert(b.push(y)[0] == y);
    } else {
        assert(a.push(x)[0] == a[0]);
        assert(b.push(y)[0] == b[0]);
        assert(a.push(x).drop_first() =~= a.drop_first().push(x));
        assert(b.push(y).drop_first() =~= b.drop_first().push(y));
        if a[0] == b[0] {
            if a == b {
                assert(a.drop_first() == b.drop_first());
            }
            lemma_text_lt_push(a.drop_first(), b.drop_first(), x, y);
        }
    }
}

/// `radix` to the power `w`.
pub open spec fn radix_pow(radix: nat, w: nat) -> nat
    decreases w,
{
    if w == 0 {
        1
    } else {
        radix * radix_pow(radix, (w - 1) as nat)
    }
}

/// Digit text has exactly the requested width when the number fits in it.
pub proof fn lemma_radix_len(n: nat, width: nat, radix: nat)
    requires
        radix == 10 || radix == 16,
        width >= 1,
        n < radix_pow(radix, width),
    ensures
        radix_text(n, width, radix).len() == width,
    decreases width,
{
    if !(width <= 1 && n < radix) {
        let p = radix_pow(radix, (width - 1) as nat);
        if width == 1 {
            assert(radix_pow(radix, 1) == radix * radix_pow(radix, 0));
        }
        assert(n / radix < p) by (nonlinear_arith)
            requires
                n < radix * p,
                radix > 1,
        ;
        lemma_radix_len(n / radix, (width - 1) as nat, radix);
    }
}

/// Fixed-width digit text orders as the numbers do.
pub proof fn lemma_radix_order(n: nat, m: nat, width: nat, radix: nat)
    requires
        radix == 10 || radix == 16,
        width >= 1,
        n < m < radix_pow(radix, width),
    ensures
        text_lt(radix_text(n, width, radix), radix_text(m, width, radix)),
    decreases width,
{
    if width == 1 {
        assert(radix_pow(radix, 1) == radix * radix_pow(radix, 0));
        lemma_digit_char_monotone(n, m);
        assert(radix_text(n, width, radix) =~= seq![digit_char(n)]);
        assert(radix_text(m, width, radix) =~= seq![digit_char(m)]);
    } else {
        let p = radix_pow(radix, (width - 1) as nat);
        let w1 = (width - 1) as nat;
        assert(n / radix < p && m / radix < p) by (nonlinear_arith)
            requires
                n < m,
                m < radix * p,
                radix > 1,
        ;
        assert(n / radix <= m / radix) by (nonlinear_arith)
            requires
                n < m,
                radix > 1,
        ;
        lemma_radix_len(n / radix, w1, radix);
        lemma_radix_len(m / radix, w1, radix);
        if n / radix < m / radix {
            lemma_radix_order(n / radix, m / radix, w1, radix);
        } else {
            assert(n % radix < m % radix) by (nonlinear_arith)
                requires
                    n < m,
                    n / radix == m / radix,
                    radix > 1,
            ;
            lemma_digit_char_monotone(n % radix, m % radix);
        }
        lemma_text_lt_push(
            radix_text(n / radix, w1, radix),
            radix_text(m / radix, w1, radix),
            digit_char(n % radix),
            digit_char(m % radix),
        );
    }
}

/// A shared leading text does not change the order.
pub proof fn lemma_text_lt_common_prefix(p: Seq<char>, a: Seq<char>, b: Seq<char>)
    ensures
        text_lt(p + a, p + b) == text_lt(a, b),
    decreases p.len(),
{
    if p.len() > 0 {
        lemma_text_lt_common_prefix(p.drop_first(), a, b);
        assert(p + a =~= seq![p[0]] + (p.drop_first() + a));
        assert(p + b =~= seq![p[0]] + (p.drop_first() + b));
        lemma_text_lt_cons(p[0], p.drop_first() + a, p.drop_first() + b);
    } else {
        assert(p + a =~= a);
        assert(p + b =~= b);
    }
}

/// Texts of equal length keep their order whatever follows them.
pub proof fn lemma_text_lt_extend(a: Seq<char>, b: Seq<char>, x: Seq<char>, y: Seq<char>)
    requires
        a.len() == b.len(),
        text_lt(a, b),
    ensures
        text_lt(a + x, b + y),
    decreases a.len(),
{
    assert(a.len() > 0);
    assert((a + x)[0] == a[0]);
    assert((b + y)[0] == b[0]);
    if a[0] == b[0] {
        assert((a + x).drop_first() =~= a.drop_first() + x);
        assert((b + y).drop_first() =~= b.drop_first() + y);
        lemma_text_lt_extend(a.drop_first(), b.drop_first(), x, y);
    }
}

/// Byte-wise equality of two byte strings.
pub fn bytes_eq(a: &[u8], b: &[u8]) -> (eq: bool)
    ensures
        eq == (a@ == b@),
{
    if a.len() != b.len() {
        return false;
    }
    let mut i: usize = 0;
    while i < a.len()
        invariant
            a@.len() == b@.len(),
            i <= a@.len(),
            forall|k: int| 0 <= k < i ==> a@[k] == b@[k],
        decreases a.len() - i,
    {
        if a[i] != b[i] {
            return false;
        }
        i = i + 1;
    }
    assert(a@ =~= b@);
    true
}

/// Equality of two texts, compared through their UTF-8 bytes.
pub fn str_eq(a: &str, b: &str) -> (eq: bool)
    ensures
        eq == (a@ == b@),
{
    let eq = bytes_eq(a.as_bytes(), b.as_bytes());
    proof {
        vstd::utf8::encode_utf8_decode_utf8(a@);
        vstd::utf8::encode_utf8_decode_utf8(b@);
    }
    eq
}

/// Decimal text of a number with no padding, as `{}` prints it.
pub open spec fn decimal_text(n: nat) -> Seq<char> {
    radix_text(n, 0, 10)
}

/// Calls `std::str::from_utf8` and copies the text: it succeeds exactly on valid UTF-8,
/// and the text is the decoded characters, as std documents.
#[verifier::external_body]
pub(crate) fn utf8_text(bytes: &[u8]) -> (text: Option<String>)
    ensures
        text is Some <==> vstd::utf8::valid_utf8(bytes@),
        text matches Some(t) ==> t@ == vstd::utf8::decode_utf8(bytes@),
{
    std::str::from_utf8(bytes).ok().map(|text| text.to_owned())
}

/// Appends one character.
#[verifier::external_body]
pub(crate) fn push_char(s: &mut String, c: char)
    ensures
        final(s)@ == old(s)@.push(c),
{
    s.push(c);
}

pub fn digit_to_char(d: u64) -> (c: char)
    requires
        d < 16,
    ensures
        c == digit_char(d as nat),
{
    if d < 10 {
        ((48 + d) as u8) as char
    } else {
        ((87 + d) as u8) as char
    }
}

/// Appends `n` in base `radix`, zero-padded to at least `width` digits.
pub fn push_radix(s: &mut String, n: u64, width: usize, radix: u64)
    requires
        radix == 10 || radix == 16,
    ensures
        final(s)@ == old(s)@ + radix_text(n as nat, width as nat, radix as nat),
    decreases n + width,
{
    if !(width <= 1 && n < radix) {
        let next_width: usize = if width > 0 { width - 1 } else { 0 };
        push_radix(s, n / radix, next_width, radix);
    }
    let c = digit_to_char(n % radix);
    push_char(s, c);
    proof {
        assert(final(s)@ =~= old(s)@ + radix_text(n as nat, width as nat, radix as nat));
    }
}

/// The value of a run of ASCII decimal digits.
pub open spec fn digits_value(d: Seq<char>) -> nat
    decreases d.len(),
{
    if d.len() == 0 {
        0
    } else {
        digits_value(d.drop_last()) * 10 + ((d.last() as int - 48) as nat)
    }
}

pub open spec fn is_ascii_digit(c: char) -> bool {
    '0' <= c <= '9'
}

pub open spec fn all_digits(d: Seq<char>) -> bool {
    forall|i: int| 0 <= i < d.len() ==> is_ascii_digit(#[trigger] d[i])
}

/// The digits of an unsigned decimal as `str::parse` reads it: an optional `+`, then one
/// or more ASCII digits and nothing else.
pub open spec fn unsigned_digits(text: Seq<char>) -> Option<Seq<char>> {
    let d = if text.len() > 0 && text[0] == '+' {
        text.drop_first()
    } else {
        text
    };
    if d.len() > 0 && all_digits(d) {
        Some(d)
    } else {
        None
    }
}

/// `str::parse` into an unsigned integer type whose largest value is `max`.
pub open spec fn spec_parse_unsigned(text: Seq<char>, max: nat) -> Option<nat> {
    match unsigned_digits(text) {
        Some(d) => if digits_value(d) <= max {
            Some(digits_value(d))
        } else {
            None
        },
        None => None,
    }
}

proof fn lemma_digits_value_prefix(d: Seq<char>, k: int, m: int)
    requires
        0 <= k <= m <= d.len(),
        all_digits(d),
    ensures
        digits_value(d.take(k)) <= digits_value(d.take(m)),
    decreases m - k,
{
    if k < m {
        lemma_digits_value_prefix(d, k, m - 1);
        assert(d.take(m).drop_last() =~= d.take(m - 1));
        assert(is_ascii_digit(d[m - 1]));
    }
}

/// Parses an unsigned decimal no larger than `max`, as `str::parse` does for the unsigned
/// type with that largest value.
pub fn parse_unsigned(text: &str, max: u64) -> (r: Option<u64>)
    ensures
        match spec_parse_unsigned(text@, max as nat) {
            Some(v) => r == Some(v as u64),
            None => r is None,
        },
{
    let n = text.unicode_len();
    let start: usize = if n > 0 && text.get_char(0) == '+' {
        1
    } else {
        0
    };
    let ghost d = if text@.len() > 0 && text@[0] == '+' {
        text@.drop_first()
    } else {
        text@
    };
    assert(d =~= text@.skip(start as int));
    if start == n {
        return None;
    }
    let mut acc: u64 = 0;
    let mut i: usize = start;
    assert(d.take(0) =~= Seq::<char>::empty());
    while i < n
        invariant
            n == text@.len(),
            start <= i <= n,
            d =~= text@.skip(start as int),
            d == (if text@.len() > 0 && text@[0] == '+' {
                text@.drop_first()
            } else {
                text@
            }),
            forall|k: int| 0 <= k < i - start ==> is_ascii_digit(#[trigger] d[k]),
            acc as nat == digits_value(d.take(i - start)),
            acc <= max,
        decreases n - i,
    {
        let c = text.get_char(i);
        assert(d[i - start] == c);
        if !('0' <= c && c <= '9') {
            assert(!is_ascii_digit(d[i - start]));
            assert(!all_digits(d));
            return None;
        }
        let digit = (c as u64) - 48;
        assert(d.take(i - start + 1).drop_last() =~= d.take(i - start));
        assert(digits_value(d.take(i - start + 1)) == acc * 10 + digit);
        if digit > max || acc > (max - digit) / 10 {
            assert(acc * 10 + digit > max) by (nonlinear_arith)
                requires
                    digit > max || acc > (max - digit) / 10,
                    digit <= 9,
            ;
            proof {
                if unsigned_digits(text@) is Some {
                    assert(unsigned_digits(text@) == Some(d));
                    assert(all_digits(d));
                    lemma_digits_value_prefix(d, i - start + 1, d.len() as int);
                    assert(d.take(d.len() as int) =~= d);
                }
            }
            return None;
        }
        assert(acc * 10 + digit <= max) by (nonlinear_arith)
            requires
                acc <= (max - digit) / 10,
                digit <= max,
        ;
        acc = acc * 10 + digit;
        i = i + 1;
    }
    assert(d.take(d.len() as int) =~= d);
    Some(acc)
}

/// `str::split(sep)`: every separator ends a segment, so the result is never empty and may
/// hold empty segments.
pub open spec fn spec_split_on(path: Seq<char>, sep: char) -> Seq<Seq<char>>
    decreases path.len(),
{
    if path.len() == 0 {
        seq![Seq::empty()]
    } else {
        let rest = spec_split_on(path.drop_first(), sep);
        if path[0] == sep {
            seq![Seq::empty()] + rest
        } else {
            rest.update(0, seq![path[0]] + rest[0])
        }
    }
}

pub proof fn lemma_split_len(path: Seq<char>, sep: char)
    ensures
        spec_split_on(path, sep).len() >= 1,
    decreases path.len(),
{
    if path.len() > 0 {
        lemma_split_len(path.drop_first(), sep);
    }
}

/// Splitting at the first separator: the part before it, then the split of the rest.
pub proof fn lemma_split_at_first(path: Seq<char>, sep: char, i: int)
    requires
        0 <= i <= path.len(),
        forall|k: int| 0 <= k < i ==> path[k] != sep,
        i < path.len() ==> path[i] == sep,
    ensures
        i == path.len() ==> spec_split_on(path, sep) == seq![path],
        i < path.len() ==> spec_split_on(path, sep) == seq![path.take(i)] + spec_split_on(
            path.skip(i + 1),
            sep,
        ),
    decreases i,
{
    if i == 0 {
        if path.len() == 0 {
            assert(path =~= Seq::<char>::empty());
            assert(spec_split_on(path, sep) =~= seq![path]);
        } else {
            assert(path.drop_first() =~= path.skip(1));
            assert(path.take(0) =~= Seq::<char>::empty());
        }
    } else {
        let tail = path.drop_first();
        lemma_split_at_first(tail, sep, i - 1);
        lemma_split_len(tail, sep);
        if i == path.len() {
            assert(seq![path[0]] + tail =~= path);
            assert(spec_split_on(path, sep) =~= seq![path]);
        } else {
            assert(tail.skip(i) =~= path.skip(i + 1));
            assert(seq![path[0]] + tail.take(i - 1) =~= path.take(i));
            assert(spec_split_on(path, sep) =~= seq![path.take(i)] + spec_split_on(
                path.skip(i + 1),
                sep,
            ));
        }
    }
}

/// `str::split(sep)`, each part copied.
pub fn split_on(text: &str, sep: char) -> (parts: Vec<String>)
    ensures
        parts@.map_values(|p: String| p@) == spec_split_on(text@, sep),
{
    let n = text.unicode_len();
    let mut parts: Vec<String> = Vec::new();
    let mut start: usize = 0;
    assert(text@.skip(0) =~= text@);
    assert(parts@.map_values(|p: String| p@) =~= Seq::<Seq<char>>::empty());
    loop
        invariant
            n == text@.len(),
            start <= n,
            spec_split_on(text@, sep) == parts@.map_values(|p: String| p@) + spec_split_on(
                text@.skip(start as int),
                sep,
            ),
        decreases n - start,
    {
        let mut i: usize = start;
        while i < n
            invariant
                n == text@.len(),
                start <= i <= n,
                forall|k: int| start <= k < i ==> text@[k] != sep,
            ensures
                start <= i <= n,
                forall|k: int| start <= k < i ==> text@[k] != sep,
                i < n ==> text@[i as int] == sep,
            decreases n - i,
        {
            if text.get_char(i) == sep {
                break;
            }
            i = i + 1;
        }
        let ghost rest = text@.skip(start as int);
        proof {
            assert forall|k: int| 0 <= k < i - start implies rest[k] != sep by {
                assert(rest[k] == text@[start + k]);
            }
            lemma_split_at_first(rest, sep, i - start);
        }
        let part = text.substring_char(start, i).to_owned();
        assert(part@ =~= rest.take(i - start));
        let ghost before = parts@.map_values(|p: String| p@);
        parts.push(part);
        assert(parts@.map_values(|p: String| p@) =~= before.push(rest.take(i - start)));
        if i == n {
            assert(rest.take(i - start) =~= rest);
            assert(spec_split_on(text@, sep) =~= parts@.map_values(|p: String| p@));
            return parts;
        }
        assert(rest.skip(i - start + 1) =~= text@.skip(i + 1));
        start = i + 1;
    }
}

pub open spec fn spec_trim_start(s: Seq<char>) -> Seq<char>
    decreases s.len(),
{
    if s.len() > 0 && is_white_space(s[0]) {
        spec_trim_start(s.drop_first())
    } else {
        s
    }
}

pub open spec fn spec_trim_end(s: Seq<char>) -> Seq<char>
    decreases s.len(),
{
    if s.len() > 0 && is_white_space(s.last()) {
        spec_trim_end(s.drop_last())
    } else {
        s
    }
}

/// `str::trim`: the text without its leading and trailing white space.
pub open spec fn spec_trim(s: Seq<char>) -> Seq<char> {
    spec_trim_end(spec_trim_start(s))
}

/// `s.trim().to_owned()`.
pub fn trim(s: &str) -> (t: String)
    ensures
        t@ == spec_trim(s@),
{
    let n = s.unicode_len();
    let mut a: usize = 0;
    assert(s@.skip(0) =~= s@);
    while a < n && char_is_white_space(s.get_char(a))
        invariant
            n == s@.len(),
            a <= n,
            spec_trim_start(s@) == spec_trim_start(s@.skip(a as int)),
        decreases n - a,
    {
        assert(s@.skip(a as int).drop_first() =~= s@.skip(a + 1));
        a = a + 1;
    }
    let ghost head = s@.skip(a as int);
    assert(spec_trim_start(head) == head);
    let mut e: usize = n;
    assert(head =~= s@.subrange(a as int, e as int));
    while e > a && char_is_white_space(s.get_char(e - 1))
        invariant
            n == s@.len(),
            a <= e <= n,
            head == s@.skip(a as int),
            spec_trim_end(head) == spec_trim_end(s@.subrange(a as int, e as int)),
        decreases e,
    {
        assert(s@.subrange(a as int, e as int).drop_last() =~= s@.subrange(a as int, e - 1));
        e = e - 1;
    }
    s.substring_char(a, e).to_owned()
}

/// Decimal text reads back as the number it prints.
pub proof fn lemma_decimal_roundtrip(n: nat)
    ensures
        digits_value(decimal_text(n)) == n,
        all_digits(decimal_text(n)),
        decimal_text(n).len() >= 1,
    decreases n,
{
    if n < 10 {
        assert(decimal_text(n) =~= seq![digit_char(n)]);
        assert(seq![digit_char(n)].drop_last() =~= Seq::<char>::empty());
        assert(digit_char(n) as int == 48 + n);
        assert(decimal_text(n).drop_last() =~= Seq::<char>::empty());
        assert(decimal_text(n).last() == digit_char(n));
        assert(digits_value(decimal_text(n).drop_last()) == 0);
    } else {
        lemma_div_shrinks(n, 10);
        lemma_decimal_roundtrip(n / 10);
        let s = decimal_text(n / 10);
        assert(decimal_text(n) == radix_text(n / 10, 0, 10).push(digit_char(n % 10)));
        assert(decimal_text(n).drop_last() =~= s);
        assert(decimal_text(n).last() == digit_char(n % 10));
        assert(digit_char(n % 10) as int == 48 + n % 10);
        assert(n == (n / 10) * 10 + n % 10);
        assert(digits_value(decimal_text(n)) == digits_value(s) * 10 + ((decimal_text(n).last() as int - 48) as nat));
        assert forall|i: int| 0 <= i < decimal_text(n).len() implies is_ascii_digit(
            #[trigger] decimal_text(n)[i],
        ) by {
            if i < s.len() {
                assert(decimal_text(n)[i] == s[i]);
            }
        }
    }
}

/// Different numbers print as different decimal text.
pub proof fn lemma_decimal_injective(n: nat, m: nat)
    requires
        decimal_text(n) == decimal_text(m),
    ensures
        n == m,
{
    lemma_decimal_roundtrip(n);
    lemma_decimal_roundtrip(m);
}

/// `c` is the ASCII letter `l` (a lowercase letter) in either case.
pub open spec fn letter_is(c: char, l: char) -> bool {
    c == l || (c as u32) + 32 == (l as u32)
}

pub open spec fn letters_are(b: Seq<char>, word: Seq<char>) -> bool {
    b.len() == word.len() && forall|i: int| 0 <= i < b.len() ==> letter_is(b[i], word[i])
}

pub open spec fn without_sign(s: Seq<char>) -> Seq<char> {
    if s.len() > 0 && (s[0] == '+' || s[0] == '-') {
        s.drop_first()
    } else {
        s
    }
}

/// The position of the first character `c1` or `c2` at or after `i`, or the length.
pub open spec fn find_either(b: Seq<char>, c1: char, c2: char, i: int) -> int
    decreases b.len() - i,
{
    if i >= b.len() {
        b.len() as int
    } else if b[i] == c1 || b[i] == c2 {
        i
    } else {
        find_either(b, c1, c2, i + 1)
    }
}

/// Digits with at most one `.` and at least one digit.
pub open spec fn mantissa_text(m: Seq<char>) -> bool {
    let d = find_either(m, '.', '.', 0);
    if d == m.len() {
        m.len() > 0 && all_digits(m)
    } else {
        all_digits(m.take(d)) && all_digits(m.skip(d + 1)) && (d > 0 || m.len() > d + 1)
    }
}

/// An optional sign and one or more digits.
pub open spec fn exponent_text(x: Seq<char>) -> bool {
    without_sign(x).len() > 0 && all_digits(without_sign(x))
}

/// A number as `str::parse::<f64>` documents its grammar: an optional sign, then `inf`,
/// `infinity` or `nan` in any case, or digits with at most one `.` (and a digit on some
/// side of it) followed by an optional exponent `e` or `E`, a sign and digits.
pub open spec fn spec_is_float_text(s: Seq<char>) -> bool {
    let b = without_sign(s);
    let k = find_either(b, 'e', 'E', 0);
    ||| letters_are(b, seq!['i', 'n', 'f'])
    ||| letters_are(b, seq!['i', 'n', 'f', 'i', 'n', 'i', 't', 'y'])
    ||| letters_are(b, seq!['n', 'a', 'n'])
    ||| (mantissa_text(b.take(k)) && (k == b.len() || exponent_text(b.skip(k + 1))))
}

fn text_chars(s: &str) -> (chars: Vec<char>)
    ensures
        chars@ == s@,
{
    broadcast use vstd::string::group_string_axioms;

    let mut chars: Vec<char> = Vec::new();
    for c in iter: s.chars()
        invariant
            iter.seq() == s@,
            chars@ == s@.take(iter.index() as int),
    {
        chars.push(c);
        assert(chars@ =~= s@.take(iter.index() + 1));
    }
    assert(chars@ =~= s@);
    chars
}

fn find_either_in(b: &Vec<char>, from: usize, c1: char, c2: char) -> (k: usize)
    requires
        from <= b.len(),
    ensures
        k == find_either(b@, c1, c2, from as int),
        from <= k <= b.len(),
{
    let mut i = from;
    while i < b.len() && b[i] != c1 && b[i] != c2
        invariant
            from <= i <= b.len(),
            find_either(b@, c1, c2, from as int) == find_either(b@, c1, c2, i as int),
        decreases b.len() - i,
    {
        i = i + 1;
    }
    i
}

fn digits_between(b: &Vec<char>, lo: usize, hi: usize) -> (ok: bool)
    requires
        lo <= hi <= b.len(),
    ensures
        ok == all_digits(b@.subrange(lo as int, hi as int)),
{
    let mut i = lo;
    while i < hi
        invariant
            lo <= i <= hi,
            hi <= b.len(),
            forall|j: int| lo <= j < i ==> is_ascii_digit(b@[j]),
        decreases hi - i,
    {
        if !('0' <= b[i] && b[i] <= '9') {
            assert(!is_ascii_digit(b@.subrange(lo as int, hi as int)[i - lo]));
            return false;
        }
        i = i + 1;
    }
    assert forall|j: int| 0 <= j < hi - lo implies is_ascii_digit(#[trigger] b@.subrange(lo as int, hi as int)[j]) by {
        assert(b@.subrange(lo as int, hi as int)[j] == b@[lo + j]);
    }
    true
}

fn letters_at(b: &Vec<char>, from: usize, word: &[char]) -> (ok: bool)
    requires
        from <= b.len(),
    ensures
        ok == letters_are(b@.skip(from as int), word@),
{
    if b.len() - from != word.len() {
        return false;
    }
    let mut i: usize = 0;
    while i < word.len()
        invariant
            i <= word.len(),
            from + word.len() == b.len(),
            forall|j: int| 0 <= j < i ==> letter_is(b@[from + j], word@[j]),
        decreases word.len() - i,
    {
        let c = b[from + i];
        let l = word[i];
        if !(c == l || ((l as u32) >= 32 && (c as u32) == (l as u32) - 32)) {
            assert(b@.skip(from as int)[i as int] == c);
            assert(!letter_is(b@.skip(from as int)[i as int], word@[i as int]));
            return false;
        }
        i = i + 1;
    }
    assert forall|j: int| 0 <= j < word.len() implies letter_is(b@.skip(from as int)[j], word@[j]) by {
        assert(b@.skip(from as int)[j] == b@[from + j]);
    }
    true
}

/// Whether `str::parse::<f64>` accepts the text, by its documented grammar.
pub fn is_float_text(s: &str) -> (ok: bool)
    ensures
        ok == spec_is_float_text(s@),
{
    let all = text_chars(s);
    let start: usize = if all.len() > 0 && (all[0] == '+' || all[0] == '-') {
        1
    } else {
        0
    };
    let ghost b = without_sign(s@);
    assert(b =~= all@.skip(start as int));
    if letters_at(&all, start, &['i', 'n', 'f']) || letters_at(
        &all,
        start,
        &['i', 'n', 'f', 'i', 'n', 'i', 't', 'y'],
    ) || letters_at(&all, start, &['n', 'a', 'n']) {
        return true;
    }
    let e = find_either_in(&all, start, 'e', 'E');
    proof {
        lemma_find_either_shift(all@, start as int, 'e', 'E', start as int);
    }
    let ghost k = e - start;
    assert(k == find_either(b, 'e', 'E', 0));
    let d = find_either_in(&all, start, '.', '.');
    let d2 = if d < e { d } else { e };
    proof {
        lemma_find_either_shift(all@, start as int, '.', '.', start as int);
        let m = b.take(k);
        lemma_find_either_prefix(b, '.', k, 0);
        assert(m =~= all@.subrange(start as int, e as int));
    }
    let mantissa_ok = if d2 == e {
        e > start && digits_between(&all, start, e)
    } else {
        digits_between(&all, start, d2) && digits_between(&all, d2 + 1, e) && (d2 > start || e > d2 + 1)
    };
    proof {
        let m = b.take(k);
        if d2 != e {
            assert(m.take(d2 - start) =~= all@.subrange(start as int, d2 as int));
            assert(m.skip(d2 - start + 1) =~= all@.subrange(d2 + 1, e as int));
        }
    }
    if !mantissa_ok {
        return false;
    }
    if e == all.len() {
        return true;
    }
    let x = e + 1;
    let sx: usize = if x < all.len() && (all[x] == '+' || all[x] == '-') {
        x + 1
    } else {
        x
    };
    proof {
        assert(b.skip(k + 1) =~= all@.skip(x as int));
        assert(without_sign(all@.skip(x as int)) =~= all@.subrange(sx as int, all.len() as int));
    }
    sx < all.len() && digits_between(&all, sx, all.len())
}

proof fn lemma_find_either_shift(a: Seq<char>, s: int, c1: char, c2: char, i: int)
    requires
        0 <= s <= i <= a.len(),
    ensures
        find_either(a, c1, c2, i) - s == find_either(a.skip(s), c1, c2, i - s),
    decreases a.len() - i,
{
    if i < a.len() {
        assert(a.skip(s)[i - s] == a[i]);
        lemma_find_either_shift(a, s, c1, c2, i + 1);
    }
}

proof fn lemma_find_either_prefix(b: Seq<char>, c: char, k: int, i: int)
    requires
        0 <= i <= k <= b.len(),
    ensures
        (if find_either(b, c, c, i) < k { find_either(b, c, c, i) } else { k }) == find_either(b.take(k), c, c, i),
    decreases k - i,
{
    if i < k {
        assert(b.take(k)[i] == b[i]);
        lemma_find_either_prefix(b, c, k, i + 1);
    } else {
        lemma_find_either_bounds(b, c, c, i);
    }
}

proof fn lemma_find_either_bounds(b: Seq<char>, c1: char, c2: char, i: int)
    requires
        0 <= i <= b.len(),
    ensures
        i <= find_either(b, c1, c2, i) <= b.len(),
    decreases b.len() - i,
{
    if i < b.len() {
        lemma_find_either_bounds(b, c1, c2, i + 1);
    }
}

} // verus!
