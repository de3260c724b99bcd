//! Native collection operators: primary-key normalization and retractable top-N.
use crate::text::{
    byte_hex, bytes_lt, digit_char, digit_to_char, hex_bytes, is_blank, lemma_digit_char_monotone,
    lemma_radix_len, lemma_radix_order, lemma_text_lt_cons, radix_pow, push_char, push_hex_bytes,
    push_radix, radix_text, spec_is_blank, text_lt,
};
use crate::streaming::{spec_weight, ChangeKind};
use crate::document::{field_value, spec_field_value, JsonValue};
use crate::keyspace::{encoded_text, push_encoded};
use vstd::utf8::encode_utf8;
use vstd::prelude::*;

verus! {

/// How a collection's input records are to be read.
#[derive(Debug, Clone, Copy, PartialEq, Eq, Structural)]
pub enum CollectionMode {
    Append,
    Retract,
    Upsert,
}

/// The maintained result of a collection operator.
#[derive(Debug, Clone, Copy, PartialEq, Eq, Structural)]
pub enum RelationalKind {
    Normalize,
    TopN,
}

#[derive(Debug, Clone, Copy, PartialEq, Eq, Structural)]
pub enum SortDirection {
    Asc,
    Desc,
}

/// The declaration of a collection operator.
pub struct RelationalSpec {
    pub operator_id: String,
    pub stream: String,
    pub kind: RelationalKind,
    pub input_mode: CollectionMode,
    pub primary_key: Vec<String>,
    pub partition_by: Vec<String>,
    pub order_by: Vec<(String, SortDirection)>,
    pub n: Option<usize>,
}

/// Why a collection declaration was refused.
#[derive(Debug, Clone, Copy, PartialEq, Eq, Structural)]
pub enum RelationalSpecError {
    /// `operator_id` or `stream` is blank.
    EmptyIdentifier,
    /// A primary-key or partition field is blank or repeated.
    InvalidKeyFields,
    /// Upsert input without a primary key.
    UpsertWithoutPrimaryKey,
    /// A normalizer without a primary key, on append input, or with top-N settings.
    InvalidNormalize,
    /// A top-N without `n` in 1..=10000 or without sort fields.
    InvalidTopN,
    /// A sort field is blank or repeated.
    InvalidSortFields,
}

/// Every name is non-blank and no name occurs twice.
pub open spec fn names_are_valid(names: Seq<Seq<char>>) -> bool {
    &&& forall|i: int| 0 <= i < names.len() ==> !spec_is_blank(#[trigger] names[i])
    &&& forall|i: int, j: int| 0 <= i < j < names.len() ==> names[i] != names[j]
}

pub open spec fn string_views(v: Seq<String>) -> Seq<Seq<char>> {
    v.map_values(|s: String| s@)
}

pub open spec fn sort_field_views(v: Seq<(String, SortDirection)>) -> Seq<Seq<char>> {
    v.map_values(|p: (String, SortDirection)| p.0@)
}

/// The first rule of `RelationalSpec::validate` that a declaration breaks, if any.
pub open spec fn spec_validate(
    operator_id: Seq<char>,
    stream: Seq<char>,
    kind: RelationalKind,
    input_mode: CollectionMode,
    primary_key: Seq<Seq<char>>,
    partition_by: Seq<Seq<char>>,
    sort_fields: Seq<Seq<char>>,
    n: Option<usize>,
) -> Result<(), RelationalSpecError> {
    if spec_is_blank(operator_id) || spec_is_blank(stream) {
        Err(RelationalSpecError::EmptyIdentifier)
    } else if !names_are_valid(primary_key) || !names_are_valid(partition_by) {
        Err(RelationalSpecError::InvalidKeyFields)
    } else if input_mode == CollectionMode::Upsert && primary_key.len() == 0 {
        Err(RelationalSpecError::UpsertWithoutPrimaryKey)
    } else {
        match kind {
            RelationalKind::Normalize => if primary_key.len() == 0 || input_mode
                == CollectionMode::Append || n is Some || sort_fields.len() != 0
                || partition_by.len() != 0 {
                Err(RelationalSpecError::InvalidNormalize)
            } else {
                Ok(())
            },
            RelationalKind::TopN => if !(n matches Some(k) && 1 <= k <= 10000) || sort_fields.len()
                == 0 {
                Err(RelationalSpecError::InvalidTopN)
            } else if !names_are_valid(sort_fields) {
                Err(RelationalSpecError::InvalidSortFields)
            } else {
                Ok(())
            },
        }
    }
}

pub fn names_ok(names: &Vec<String>) -> (b: bool)
    ensures
        b == names_are_valid(string_views(names@)),
{
    let ghost views = string_views(names@);
    let mut i: usize = 0;
    while i < names.len()
        invariant
            i <= names.len(),
            views == string_views(names@),
            forall|k: int| 0 <= k < i ==> !spec_is_blank(#[trigger] views[k]),
            forall|k: int, l: int| 0 <= k < l < i ==> views[k] != views[l],
        decreases names.len() - i,
    {
        if is_blank(names[i].as_str()) {
            assert(views[i as int] == names@[i as int]@);
            return false;
        }
        let mut j: usize = 0;
        while j < i
            invariant
                j <= i < names.len(),
                views == string_views(names@),
                forall|k: int| 0 <= k < j ==> views[k] != views[i as int],
            decreases i - j,
        {
            if names[j] == names[i] {
                assert(views[j as int] == views[i as int]);
                return false;
            }
            j = j + 1;
        }
        i = i + 1;
    }
    true
}

fn sort_fields_ok(fields: &Vec<(String, SortDirection)>) -> (b: bool)
    ensures
        b == names_are_valid(sort_field_views(fields@)),
{
    let ghost views = sort_field_views(fields@);
    let mut i: usize = 0;
    while i < fields.len()
        invariant
            i <= fields.len(),
            views == sort_field_views(fields@),
            forall|k: int| 0 <= k < i ==> !spec_is_blank(#[trigger] views[k]),
            forall|k: int, l: int| 0 <= k < l < i ==> views[k] != views[l],
        decreases fields.len() - i,
    {
        if is_blank(fields[i].0.as_str()) {
            assert(views[i as int] == fields@[i as int].0@);
            return false;
        }
        let mut j: usize = 0;
        while j < i
            invariant
                j <= i < fields.len(),
                views == sort_field_views(fields@),
                forall|k: int| 0 <= k < j ==> views[k] != views[i as int],
            decreases i - j,
        {
            if fields[j].0 == fields[i].0 {
                assert(views[j as int] == views[i as int]);
                return false;
            }
            j = j + 1;
        }
        i = i + 1;
    }
    true
}

impl RelationalSpec {
    pub open spec fn spec_check(&self) -> Result<(), RelationalSpecError> {
        spec_validate(
            self.operator_id@,
            self.stream@,
            self.kind,
            self.input_mode,
            string_views(self.primary_key@),
            string_views(self.partition_by@),
            sort_field_views(self.order_by@),
            self.n,
        )
    }

    /// Refuses a declaration exactly when `spec_validate` names a broken rule.
    pub fn validate(&self) -> (r: Result<(), RelationalSpecError>)
        ensures
            r == self.spec_check(),
    {
        if is_blank(self.operator_id.as_str()) || is_blank(self.stream.as_str()) {
            return Err(RelationalSpecError::EmptyIdentifier);
        }
        if !names_ok(&self.primary_key) || !names_ok(&self.partition_by) {
            return Err(RelationalSpecError::InvalidKeyFields);
        }
        if self.input_mode == CollectionMode::Upsert && self.primary_key.len() == 0 {
            return Err(RelationalSpecError::UpsertWithoutPrimaryKey);
        }
        match self.kind {
            RelationalKind::Normalize => {
                if self.primary_key.len() == 0 || self.input_mode == CollectionMode::Append
                    || self.n.is_some() || self.order_by.len() != 0 || self.partition_by.len()
                    != 0 {
                    return Err(RelationalSpecError::InvalidNormalize);
                }
            },
            RelationalKind::TopN => {
                let n_ok = match self.n {
                    Some(k) => 1 <= k && k <= 10000,
                    None => false,
                };
                if !n_ok || self.order_by.len() == 0 {
                    return Err(RelationalSpecError::InvalidTopN);
                }
                if !sort_fields_ok(&self.order_by) {
                    return Err(RelationalSpecError::InvalidSortFields);
                }
            },
        }
        Ok(())
    }
}

/// The scalar type a sort field held, which must stay the same for every row.
#[derive(Debug, Clone, Copy, PartialEq, Eq, Structural)]
pub enum SortKind {
    String,
    Bool,
    Number,
}

#[derive(Debug, Clone, Copy, PartialEq, Eq, Structural)]
pub enum ScalarSortError {
    /// The number has no `f64` value.
    InvalidNumber,
    /// The number is not finite, or an integer beyond +/-2^53.
    UnsafeNumber,
    /// An array or an object.
    NotScalar,
}

pub open spec fn float_is_finite(bits: u64) -> bool {
    bits & 0x7ff0_0000_0000_0000u64 != 0x7ff0_0000_0000_0000u64
}

/// The order-preserving key of a finite `f64`: negative zero becomes zero, negative values
/// are complemented and positive values have their sign bit set.
pub open spec fn ordered_number_bits(bits: u64) -> u64 {
    let b = if bits & 0x7fff_ffff_ffff_ffffu64 == 0 { 0u64 } else { bits };
    if b >> 63u64 == 1 {
        !b
    } else {
        b ^ 0x8000_0000_0000_0000u64
    }
}

/// Value of a lowercase hexadecimal digit.
pub open spec fn hex_value(c: char) -> int {
    if c as u32 <= 57 {
        c as u32 - 48
    } else {
        c as u32 - 87
    }
}

/// The descending form of one encoded character: the terminator moves above every digit,
/// and each digit `d` becomes `15 - d`.
pub open spec fn descending_char(c: char) -> char {
    if c == '!' {
        '~'
    } else {
        digit_char((15 - hex_value(c)) as nat)
    }
}

/// The ascending sort text of a scalar, before the leading `0`.
pub open spec fn ascending_sort_text(value: JsonValue) -> Result<
    (Seq<char>, SortKind),
    ScalarSortError,
> {
    match value {
        JsonValue::String(s) => Ok((hex_bytes(encode_utf8(s@)) + seq!['!'], SortKind::String)),
        JsonValue::Bool(b) => Ok((if b { seq!['1'] } else { seq!['0'] }, SortKind::Bool)),
        JsonValue::Number(n) => match n.float_bits {
            None => Err(ScalarSortError::InvalidNumber),
            Some(bits) => if !float_is_finite(bits) || (n.integer_magnitude matches Some(m) && m
                > 0x20_0000_0000_0000u64) {
                Err(ScalarSortError::UnsafeNumber)
            } else {
                Ok((radix_text(ordered_number_bits(bits) as nat, 16, 16), SortKind::Number))
            },
        },
        _ => Err(ScalarSortError::NotScalar),
    }
}

/// The byte-ordered sort text of a field value, and its scalar type: nulls sort last in
/// either direction, and descending text reverses the ascending order.
pub open spec fn spec_scalar_sort(value: JsonValue, direction: SortDirection) -> Result<
    (Seq<char>, Option<SortKind>),
    ScalarSortError,
> {
    if value is Null {
        Ok((seq!['1'], None))
    } else {
        match ascending_sort_text(value) {
            Err(e) => Err(e),
            Ok((text, kind)) => Ok(
                (
                    seq!['0'] + if direction == SortDirection::Desc {
                        text.map_values(|c: char| descending_char(c))
                    } else {
                        text
                    },
                    Some(kind),
                ),
            ),
        }
    }
}

fn ordered_bits(bits: u64) -> (r: u64)
    ensures
        r == ordered_number_bits(bits),
{
    let b = if bits & 0x7fff_ffff_ffff_ffffu64 == 0 { 0u64 } else { bits };
    if b >> 63u64 == 1 {
        !b
    } else {
        b ^ 0x8000_0000_0000_0000u64
    }
}

fn descending(c: char) -> (r: char)
    requires
        c == '!' || (48 <= c as u32 <= 57) || (97 <= c as u32 <= 102),
    ensures
        r == descending_char(c),
{
    if c == '!' {
        '~'
    } else {
        let v = c as u32;
        let d: u64 = if v <= 57 { (v - 48) as u64 } else { (v - 87) as u64 };
        digit_to_char(15 - d)
    }
}

/// Every character is `!` or a lowercase hexadecimal digit.
pub open spec fn is_sort_alphabet(s: Seq<char>) -> bool {
    forall|i: int|
        0 <= i < s.len() ==> #[trigger] s[i] == '!' || (48 <= s[i] as u32 <= 57) || (97 <= s[i] as u32
            <= 102)
}

proof fn lemma_digit_char_alphabet(d: nat)
    requires
        d < 16,
    ensures
        (48 <= digit_char(d) as u32 <= 57) || (97 <= digit_char(d) as u32 <= 102),
{
}

proof fn lemma_radix_text_alphabet(n: nat, width: nat)
    ensures
        is_sort_alphabet(radix_text(n, width, 16)),
    decreases n + width,
{
    if !(width <= 1 && n < 16) {
        crate::text::lemma_div_shrinks(n, 16);
        lemma_radix_text_alphabet(n / 16, if width > 0 { (width - 1) as nat } else { 0 });
    }
    lemma_digit_char_alphabet(n % 16);
}

proof fn lemma_hex_bytes_alphabet(s: Seq<u8>)
    ensures
        is_sort_alphabet(hex_bytes(s)),
    decreases s.len(),
{
    if s.len() > 0 {
        lemma_hex_bytes_alphabet(s.drop_first());
        lemma_digit_char_alphabet((s[0] / 16) as nat);
        lemma_digit_char_alphabet((s[0] % 16) as nat);
    }
}

/// Encodes one sort field so that byte order on the text is the field order.
pub fn scalar_sort(value: &JsonValue, direction: SortDirection) -> (r: Result<
    (String, Option<SortKind>),
    ScalarSortError,
>)
    ensures
        match spec_scalar_sort(*value, direction) {
            Ok((text, kind)) => r matches Ok((t, k)) && t@ == text && k == kind,
            Err(e) => r == Err::<(String, Option<SortKind>), ScalarSortError>(e),
        },
{
    let mut text = String::new();
    let kind = match value {
        JsonValue::Null => {
            push_char(&mut text, '1');
            return Ok((text, None));
        },
        JsonValue::String(s) => {
            push_hex_bytes(&mut text, s.as_str().as_bytes());
            push_char(&mut text, '!');
            proof {
                lemma_hex_bytes_alphabet(encode_utf8(s@));
            }
            SortKind::String
        },
        JsonValue::Bool(b) => {
            push_char(&mut text, if *b { '1' } else { '0' });
            SortKind::Bool
        },
        JsonValue::Number(n) => {
            let bits = match n.float_bits {
                Some(bits) => bits,
                None => {
                    return Err(ScalarSortError::InvalidNumber);
                },
            };
            let unsafe_integer = match n.integer_magnitude {
                Some(m) => m > 0x20_0000_0000_0000u64,
                None => false,
            };
            if bits & 0x7ff0_0000_0000_0000u64 == 0x7ff0_0000_0000_0000u64 || unsafe_integer {
                return Err(ScalarSortError::UnsafeNumber);
            }
            push_radix(&mut text, ordered_bits(bits), 16, 16);
            proof {
                lemma_radix_text_alphabet(ordered_number_bits(bits) as nat, 16);
            }
            SortKind::Number
        },
        JsonValue::Array(_) | JsonValue::Object(_) => {
            return Err(ScalarSortError::NotScalar);
        },
    };
    let ghost asc = text@;
    assert(asc == ascending_sort_text(*value).unwrap().0);
    assert(is_sort_alphabet(asc));
    let mut out = String::new();
    push_char(&mut out, '0');
    if direction == SortDirection::Desc {
        broadcast use vstd::string::group_string_axioms;

        for c in iter: text.as_str().chars()
            invariant
                iter.seq() == asc,
                is_sort_alphabet(asc),
                out@ == seq!['0'] + asc.subrange(0, iter.index() as int).map_values(
                    |c: char| descending_char(c),
                ),
        {
            let ghost i = iter.index();
            assert(asc[i as int] == c);
            let d = descending(c);
            push_char(&mut out, d);
            assert(asc.subrange(0, i + 1).map_values(|c: char| descending_char(c))
                =~= asc.subrange(0, i as int).map_values(|c: char| descending_char(c)).push(d));
        }
        assert(asc.subrange(0, asc.len() as int) =~= asc);
    } else {
        out.append(text.as_str());
    }
    Ok((out, Some(kind)))
}

pub open spec fn descending_text(s: Seq<char>) -> Seq<char> {
    s.map_values(|c: char| descending_char(c))
}

proof fn lemma_descending_digit(d: nat)
    requires
        d < 16,
    ensures
        descending_char(digit_char(d)) == digit_char((15 - d) as nat),
{
}

/// Terminated hexadecimal text orders as the byte strings do.
proof fn lemma_terminated_hex_order(x: Seq<u8>, y: Seq<u8>)
    requires
        bytes_lt(x, y),
    ensures
        text_lt(hex_bytes(x) + seq!['!'], hex_bytes(y) + seq!['!']),
        text_lt(
            descending_text(hex_bytes(y) + seq!['!']),
            descending_text(hex_bytes(x) + seq!['!']),
        ),
    decreases x.len(),
{
    let tx = hex_bytes(x) + seq!['!'];
    let ty = hex_bytes(y) + seq!['!'];
    assert(y.len() > 0);
    let yh = (y[0] / 16) as nat;
    let yl = (y[0] % 16) as nat;
    assert(ty =~= seq![digit_char(yh), digit_char(yl)] + (hex_bytes(y.drop_first()) + seq!['!']));
    assert(descending_text(ty) =~= seq![descending_char(digit_char(yh)), descending_char(digit_char(yl))]
        + descending_text(hex_bytes(y.drop_first()) + seq!['!']));
    lemma_descending_digit(yh);
    lemma_descending_digit(yl);
    if x.len() == 0 {
        assert(tx =~= seq!['!']);
        assert(descending_text(tx) =~= seq!['~']);
        assert(descending_text(ty)[0] == digit_char((15 - yh) as nat));
    } else {
        let xh = (x[0] / 16) as nat;
        let xl = (x[0] % 16) as nat;
        assert(tx =~= seq![digit_char(xh), digit_char(xl)] + (hex_bytes(x.drop_first()) + seq!['!']));
        assert(descending_text(tx) =~= seq![descending_char(digit_char(xh)), descending_char(digit_char(xl))]
            + descending_text(hex_bytes(x.drop_first()) + seq!['!']));
        lemma_descending_digit(xh);
        lemma_descending_digit(xl);
        if x[0] != y[0] {
            if xh < yh {
                lemma_digit_char_monotone(xh, yh);
                lemma_digit_char_monotone((15 - yh) as nat, (15 - xh) as nat);
            } else {
                assert(xh == yh && xl < yl);
                lemma_digit_char_monotone(xl, yl);
                lemma_digit_char_monotone((15 - yl) as nat, (15 - xl) as nat);
                let rx = seq![digit_char(xl)] + (hex_bytes(x.drop_first()) + seq!['!']);
                let ry = seq![digit_char(yl)] + (hex_bytes(y.drop_first()) + seq!['!']);
                assert(tx =~= seq![digit_char(xh)] + rx);
                assert(ty =~= seq![digit_char(xh)] + ry);
                lemma_text_lt_cons(digit_char(xh), rx, ry);
                let dx = seq![digit_char((15 - xl) as nat)] + descending_text(
                    hex_bytes(x.drop_first()) + seq!['!'],
                );
                let dy = seq![digit_char((15 - yl) as nat)] + descending_text(
                    hex_bytes(y.drop_first()) + seq!['!'],
                );
                assert(descending_text(tx) =~= seq![digit_char((15 - xh) as nat)] + dx);
                assert(descending_text(ty) =~= seq![digit_char((15 - xh) as nat)] + dy);
                lemma_text_lt_cons(digit_char((15 - xh) as nat), dy, dx);
            }
        } else {
            lemma_terminated_hex_order(x.drop_first(), y.drop_first());
            let rx = hex_bytes(x.drop_first()) + seq!['!'];
            let ry = hex_bytes(y.drop_first()) + seq!['!'];
            assert(tx =~= seq![digit_char(xh)] + (seq![digit_char(xl)] + rx));
            assert(ty =~= seq![digit_char(xh)] + (seq![digit_char(xl)] + ry));
            lemma_text_lt_cons(digit_char(xl), rx, ry);
            lemma_text_lt_cons(digit_char(xh), seq![digit_char(xl)] + rx, seq![digit_char(xl)] + ry);
            let a = digit_char((15 - xh) as nat);
            let b = digit_char((15 - xl) as nat);
            assert(descending_text(tx) =~= seq![a] + (seq![b] + descending_text(rx)));
            assert(descending_text(ty) =~= seq![a] + (seq![b] + descending_text(ry)));
            lemma_text_lt_cons(b, descending_text(ry), descending_text(rx));
            lemma_text_lt_cons(a, seq![b] + descending_text(ry), seq![b] + descending_text(rx));
        }
    }
}

/// Equal-length digit texts reverse their order under the descending map.
proof fn lemma_descending_digits_reverse(a: Seq<char>, b: Seq<char>)
    requires
        a.len() == b.len(),
        text_lt(a, b),
        is_hex_digit_text(a),
        is_hex_digit_text(b),
    ensures
        text_lt(descending_text(b), descending_text(a)),
    decreases a.len(),
{
    assert(a.len() > 0);
    assert(descending_text(a)[0] == descending_char(a[0]));
    assert(descending_text(b)[0] == descending_char(b[0]));
    if a[0] != b[0] {
        let va = hex_value(a[0]);
        let vb = hex_value(b[0]);
        assert(0 <= va < vb < 16);
        lemma_digit_char_monotone((15 - vb) as nat, (15 - va) as nat);
    } else {
        assert(descending_text(a).drop_first() =~= descending_text(a.drop_first()));
        assert(descending_text(b).drop_first() =~= descending_text(b.drop_first()));
        lemma_descending_digits_reverse(a.drop_first(), b.drop_first());
    }
}

pub open spec fn is_hex_digit_text(s: Seq<char>) -> bool {
    forall|i: int|
        0 <= i < s.len() ==> (48 <= #[trigger] s[i] as u32 <= 57) || (97 <= s[i] as u32 <= 102)
}

proof fn lemma_radix16_digits(n: nat, width: nat)
    ensures
        is_hex_digit_text(radix_text(n, width, 16)),
    decreases n + width,
{
    if !(width <= 1 && n < 16) {
        crate::text::lemma_div_shrinks(n, 16);
        lemma_radix16_digits(n / 16, if width > 0 { (width - 1) as nat } else { 0 });
    }
    lemma_digit_char_alphabet(n % 16);
}

/// Text values sort as their UTF-8 bytes do, in ascending text, and in reverse in
/// descending text.
pub proof fn law_text_sort_order(a: JsonValue, b: JsonValue)
    requires
        a matches JsonValue::String(x),
        b matches JsonValue::String(y),
        bytes_lt(encode_utf8(a->String_0@), encode_utf8(b->String_0@)),
    ensures
        text_lt(
            spec_scalar_sort(a, SortDirection::Asc).unwrap().0,
            spec_scalar_sort(b, SortDirection::Asc).unwrap().0,
        ),
        text_lt(
            spec_scalar_sort(b, SortDirection::Desc).unwrap().0,
            spec_scalar_sort(a, SortDirection::Desc).unwrap().0,
        ),
{
    let x = hex_bytes(encode_utf8(a->String_0@)) + seq!['!'];
    let y = hex_bytes(encode_utf8(b->String_0@)) + seq!['!'];
    lemma_terminated_hex_order(encode_utf8(a->String_0@), encode_utf8(b->String_0@));
    lemma_text_lt_cons('0', x, y);
    lemma_text_lt_cons('0', descending_text(y), descending_text(x));
}

/// `false` sorts before `true` ascending and after it descending.
pub proof fn law_bool_sort_order()
    ensures
        text_lt(
            spec_scalar_sort(JsonValue::Bool(false), SortDirection::Asc).unwrap().0,
            spec_scalar_sort(JsonValue::Bool(true), SortDirection::Asc).unwrap().0,
        ),
        text_lt(
            spec_scalar_sort(JsonValue::Bool(true), SortDirection::Desc).unwrap().0,
            spec_scalar_sort(JsonValue::Bool(false), SortDirection::Desc).unwrap().0,
        ),
{
    let f = spec_scalar_sort(JsonValue::Bool(false), SortDirection::Asc).unwrap().0;
    let t = spec_scalar_sort(JsonValue::Bool(true), SortDirection::Asc).unwrap().0;
    assert(f =~= seq!['0'] + seq!['0']);
    assert(t =~= seq!['0'] + seq!['1']);
    assert(text_lt(seq!['0'], seq!['1']));
    lemma_text_lt_cons('0', seq!['0'], seq!['1']);
    let fd = spec_scalar_sort(JsonValue::Bool(false), SortDirection::Desc).unwrap().0;
    let td = spec_scalar_sort(JsonValue::Bool(true), SortDirection::Desc).unwrap().0;
    assert(descending_char('0') == 'f');
    assert(descending_char('1') == 'e');
    assert(descending_text(seq!['0']) =~= seq!['f']);
    assert(descending_text(seq!['1']) =~= seq!['e']);
    assert(fd =~= seq!['0'] + seq!['f']);
    assert(td =~= seq!['0'] + seq!['e']);
    assert(text_lt(seq!['e'], seq!['f']));
    lemma_text_lt_cons('0', seq!['e'], seq!['f']);
}

/// Numbers sort as their order-preserving keys do, in reverse when descending.
pub proof fn law_number_sort_order(a: JsonValue, b: JsonValue)
    requires
        spec_scalar_sort(a, SortDirection::Asc) is Ok,
        spec_scalar_sort(b, SortDirection::Asc) is Ok,
        a matches JsonValue::Number(x),
        b matches JsonValue::Number(y),
        ordered_number_bits(a->Number_0.float_bits.unwrap()) < ordered_number_bits(
            b->Number_0.float_bits.unwrap(),
        ),
    ensures
        text_lt(
            spec_scalar_sort(a, SortDirection::Asc).unwrap().0,
            spec_scalar_sort(b, SortDirection::Asc).unwrap().0,
        ),
        text_lt(
            spec_scalar_sort(b, SortDirection::Desc).unwrap().0,
            spec_scalar_sort(a, SortDirection::Desc).unwrap().0,
        ),
{
    let n = ordered_number_bits(a->Number_0.float_bits.unwrap()) as nat;
    let m = ordered_number_bits(b->Number_0.float_bits.unwrap()) as nat;
    assert(radix_pow(16, 16) == 0x1_0000_0000_0000_0000) by {
        reveal_with_fuel(radix_pow, 17);
    }
    lemma_radix_order(n, m, 16, 16);
    lemma_radix_len(n, 16, 16);
    lemma_radix_len(m, 16, 16);
    lemma_radix16_digits(n, 16);
    lemma_radix16_digits(m, 16);
    lemma_descending_digits_reverse(radix_text(n, 16, 16), radix_text(m, 16, 16));
    lemma_text_lt_cons('0', radix_text(n, 16, 16), radix_text(m, 16, 16));
    lemma_text_lt_cons(
        '0',
        descending_text(radix_text(m, 16, 16)),
        descending_text(radix_text(n, 16, 16)),
    );
}

/// Nulls sort after every encodable value in either direction.
pub proof fn law_nulls_sort_last(v: JsonValue, direction: SortDirection)
    requires
        !(v is Null),
        spec_scalar_sort(v, direction) is Ok,
    ensures
        text_lt(
            spec_scalar_sort(v, direction).unwrap().0,
            spec_scalar_sort(JsonValue::Null, direction).unwrap().0,
        ),
{
    let t = spec_scalar_sort(v, direction).unwrap().0;
    assert(t[0] == '0');
}

pub open spec fn spec_relational_key(id: Seq<char>) -> Seq<char> {
    "relational/"@ + encoded_text(id)
}

/// Where a collection operator's declaration is stored.
pub fn relational_key(id: &str) -> (out: String)
    ensures
        out@ == spec_relational_key(id@),
{
    let mut out = String::new();
    out.append("relational/");
    push_encoded(&mut out, id);
    out
}

pub open spec fn spec_state_prefix(id: Seq<char>, namespace: Seq<char>) -> Seq<char> {
    "collection/"@ + encoded_text(id) + "/"@ + namespace + "/"@
}

/// The prefix of one namespace of a collection operator's state.
pub fn state_prefix(id: &str, namespace: &str) -> (out: String)
    ensures
        out@ == spec_state_prefix(id@, namespace@),
{
    let mut out = String::new();
    out.append("collection/");
    push_encoded(&mut out, id);
    out.append("/");
    out.append(namespace);
    out.append("/");
    out
}

/// The prefix under which a collection operator's maintained result is stored.
pub fn maintained_prefix(id: &str) -> (out: String)
    ensures
        out@ == spec_state_prefix(id@, "output"@),
{
    state_prefix(id, "output")
}

pub open spec fn spec_candidate_prefix(id: Seq<char>, group: Option<Seq<char>>) -> Seq<char> {
    spec_state_prefix(id, "ordered"@) + encoded_text(
        match group {
            Some(g) => g,
            None => Seq::empty(),
        },
    ) + "/"@
}

/// The prefix of the ordered candidates of one partition group of a top-N; rows without a
/// group share the empty group.
pub fn candidate_prefix(spec: &RelationalSpec, group: Option<&str>) -> (out: String)
    ensures
        out@ == spec_candidate_prefix(
            spec.operator_id@,
            match group {
                Some(g) => Some(g@),
                None => None,
            },
        ),
{
    let mut out = state_prefix(spec.operator_id.as_str(), "ordered");
    match group {
        Some(g) => push_encoded(&mut out, g),
        None => {
            proof {
                reveal_strlit("");
            }
            push_encoded(&mut out, "");
        },
    }
    out.append("/");
    out
}

/// The values of the named fields of a row, in order; the first field the row lacks is
/// the error.
pub fn project<'a>(value: &'a JsonValue, fields: &[String]) -> (r: Result<
    Vec<&'a JsonValue>,
    String,
>)
    ensures
        match r {
            Ok(values) => values@.len() == fields@.len() && forall|i: int|
                0 <= i < fields@.len() ==> spec_field_value(*value, fields@[i]@) == Some(
                    *#[trigger] values@[i],
                ),
            Err(missing) => exists|j: int|
                0 <= j < fields@.len() && missing@ == fields@[j]@ && spec_field_value(
                    *value,
                    fields@[j]@,
                ) is None && forall|k: int|
                    0 <= k < j ==> #[trigger] spec_field_value(*value, fields@[k]@) is Some,
        },
{
    let mut values: Vec<&'a JsonValue> = Vec::new();
    let mut i: usize = 0;
    while i < fields.len()
        invariant
            i <= fields@.len(),
            values@.len() == i,
            forall|k: int|
                0 <= k < i ==> spec_field_value(*value, fields@[k]@) == Some(*#[trigger] values@[k]),
        decreases fields.len() - i,
    {
        match field_value(value, fields[i].as_str()) {
            Some(v) => {
                values.push(v);
            },
            None => {
                let missing = fields[i].clone();
                proof {
                    assert forall|k: int| 0 <= k < i implies #[trigger] spec_field_value(
                        *value,
                        fields@[k]@,
                    ) is Some by {
                        assert(spec_field_value(*value, fields@[k]@) == Some(*values@[k]));
                    }
                }
                return Err(missing);
            },
        }
        i = i + 1;
    }
    Ok(values)
}

/// Why a multiplicity update was refused.
#[derive(Debug, Clone, Copy, PartialEq, Eq, Structural)]
pub enum CountError {
    /// The new multiplicity does not fit in an `i64`.
    Overflow,
    /// More retractions than insertions of the row.
    UnmatchedRetraction,
}

/// A stored row's multiplicity after a change by `diff`: absent rows count zero, and a row
/// whose multiplicity reaches zero is removed.
pub open spec fn spec_counted_row_update(current: Option<i64>, diff: i64) -> Result<
    Option<i64>,
    CountError,
> {
    let base: int = match current {
        Some(c) => c as int,
        None => 0,
    };
    let next = base + diff;
    if next < i64::MIN || next > i64::MAX {
        Err(CountError::Overflow)
    } else if next < 0 {
        Err(CountError::UnmatchedRetraction)
    } else if next == 0 {
        Ok(None)
    } else {
        Ok(Some(next as i64))
    }
}

/// The checked bag update that candidate arrangements and maintained outputs share.
pub fn counted_row_update(current: Option<i64>, diff: i64) -> (r: Result<Option<i64>, CountError>)
    ensures
        r == spec_counted_row_update(current, diff),
{
    let base: i64 = match current {
        Some(c) => c,
        None => 0,
    };
    match base.checked_add(diff) {
        None => Err(CountError::Overflow),
        Some(next) => {
            if next < 0 {
                Err(CountError::UnmatchedRetraction)
            } else if next == 0 {
                Ok(None)
            } else {
                Ok(Some(next))
            }
        },
    }
}

/// A retraction undoes the insertion it matches: adding `diff` copies of a row and then
/// taking them back leaves the stored multiplicity as it was.
pub proof fn law_retraction_undoes_insertion(current: Option<i64>, diff: i64)
    requires
        current matches Some(c) ==> c > 0,
        diff > 0,
        spec_counted_row_update(current, diff) is Ok,
    ensures
        spec_counted_row_update(spec_counted_row_update(current, diff).unwrap(), -diff as i64)
            == Ok::<Option<i64>, CountError>(current),
{
}

/// The multiplicities a top-N keeps of its ordered candidates: each row takes as many
/// copies as are left of the `remaining` slots, until none are left.
pub open spec fn spec_winner_counts(counts: Seq<i64>, remaining: int) -> Seq<int>
    decreases counts.len(),
{
    if counts.len() == 0 || remaining <= 0 {
        Seq::empty()
    } else {
        let taken = if counts[0] < remaining {
            counts[0] as int
        } else {
            remaining
        };
        seq![taken] + spec_winner_counts(counts.drop_first(), remaining - taken)
    }
}

/// Keeps the first `n` copies of the candidates, which arrive in sort order with their
/// stored multiplicities.
pub fn winner_counts(counts: &[i64], n: i64) -> (taken: Vec<i64>)
    requires
        n >= 1,
        forall|i: int| 0 <= i < counts@.len() ==> #[trigger] counts@[i] > 0,
    ensures
        taken@.len() == spec_winner_counts(counts@, n as int).len(),
        forall|i: int|
            0 <= i < taken@.len() ==> #[trigger] taken@[i] as int == spec_winner_counts(
                counts@,
                n as int,
            )[i],
{
    let mut remaining: i64 = n;
    let mut taken: Vec<i64> = Vec::new();
    let mut i: usize = 0;
    assert(counts@.skip(0) =~= counts@);
    assert(taken@.map_values(|c: i64| c as int) =~= Seq::<int>::empty());
    while i < counts.len() && remaining > 0
        invariant
            0 <= remaining <= n,
            i <= counts@.len(),
            forall|j: int| 0 <= j < counts@.len() ==> #[trigger] counts@[j] > 0,
            spec_winner_counts(counts@, n as int) == taken@.map_values(|c: i64| c as int)
                + spec_winner_counts(counts@.skip(i as int), remaining as int),
        decreases counts.len() - i,
    {
        let ghost rest = counts@.skip(i as int);
        assert(rest[0] == counts@[i as int]);
        assert(rest.drop_first() =~= counts@.skip(i + 1));
        let c = if counts[i] < remaining {
            counts[i]
        } else {
            remaining
        };
        let ghost before = taken@;
        taken.push(c);
        assert(taken@.map_values(|c: i64| c as int) =~= before.map_values(|c: i64| c as int)
            + seq![c as int]);
        remaining = remaining - c;
        i = i + 1;
    }
    proof {
        if i == counts.len() {
            assert(counts@.skip(i as int) =~= Seq::<i64>::empty());
        }
        assert(spec_winner_counts(counts@.skip(i as int), remaining as int) =~= Seq::<int>::empty());
        assert(spec_winner_counts(counts@, n as int) =~= taken@.map_values(|c: i64| c as int));
    }
    taken
}

pub open spec fn spec_total(counts: Seq<int>) -> int
    decreases counts.len(),
{
    if counts.len() == 0 {
        0
    } else {
        counts[0] + spec_total(counts.drop_first())
    }
}

pub open spec fn spec_total_i64(counts: Seq<i64>) -> int
    decreases counts.len(),
{
    if counts.len() == 0 {
        0
    } else {
        counts[0] + spec_total_i64(counts.drop_first())
    }
}

/// A top-N keeps exactly `n` copies of its candidates, or all of them when there are fewer.
pub proof fn law_top_n_keeps_n_copies(counts: Seq<i64>, n: int)
    requires
        n >= 1,
        forall|i: int| 0 <= i < counts.len() ==> #[trigger] counts[i] > 0,
    ensures
        spec_total(spec_winner_counts(counts, n)) == if spec_total_i64(counts) < n {
            spec_total_i64(counts)
        } else {
            n
        },
    decreases counts.len(),
{
    if counts.len() > 0 {
        let taken = if counts[0] < n {
            counts[0] as int
        } else {
            n
        };
        let tail = counts.drop_first();
        assert forall|i: int| 0 <= i < tail.len() implies #[trigger] tail[i] > 0 by {
            assert(tail[i] == counts[i + 1]);
        }
        let w = spec_winner_counts(counts, n);
        if n - taken >= 1 {
            law_top_n_keeps_n_copies(tail, n - taken);
        } else {
            assert(spec_winner_counts(tail, n - taken) =~= Seq::<int>::empty());
        }
        assert(w.len() > 0 && w[0] == taken);
        assert(w.drop_first() =~= spec_winner_counts(tail, n - taken));
        lemma_total_nonnegative(tail);
        assert(spec_total(w) == taken + spec_total(w.drop_first()));
        assert(spec_total_i64(counts) == counts[0] + spec_total_i64(tail));
    }
}

proof fn lemma_total_nonnegative(counts: Seq<i64>)
    requires
        forall|i: int| 0 <= i < counts.len() ==> #[trigger] counts[i] > 0,
    ensures
        spec_total_i64(counts) >= 0,
    decreases counts.len(),
{
    if counts.len() > 0 {
        let tail = counts.drop_first();
        assert forall|i: int| 0 <= i < tail.len() implies #[trigger] tail[i] > 0 by {
            assert(tail[i] == counts[i + 1]);
        }
        lemma_total_nonnegative(tail);
    }
}

/// A change to the maintained output of a top-N: the row at `index` among the previous
/// winners (`from_new` false) or among the new winners (`from_new` true) changes its count
/// by `diff`.
#[derive(Debug, Clone, Copy, PartialEq, Eq, Structural)]
pub struct WinnerDelta {
    pub from_new: bool,
    pub index: usize,
    pub diff: i64,
}

/// Winner rows as candidate keys and counts.
pub open spec fn entry_views(s: Seq<(String, i64)>) -> Seq<(Seq<char>, i64)> {
    s.map_values(|e: (String, i64)| (e.0@, e.1))
}

pub open spec fn keys_distinct(s: Seq<(Seq<char>, i64)>) -> bool {
    forall|i: int, j: int| 0 <= i < j < s.len() ==> s[i].0 != s[j].0
}

pub open spec fn counts_valid(s: Seq<(Seq<char>, i64)>) -> bool {
    forall|i: int| 0 <= i < s.len() ==> s[i].1 >= 0
}

/// The count that a set of winners holds of a candidate key (zero where it is absent).
pub open spec fn count_of(s: Seq<(Seq<char>, i64)>, k: Seq<char>) -> int
    decreases s.len(),
{
    if s.len() == 0 {
        0
    } else {
        (if s.last().0 == k {
            s.last().1 as int
        } else {
            0
        }) + count_of(s.drop_last(), k)
    }
}

/// The retractions: each previous winner whose count fell, in order.
pub open spec fn removed_deltas(old: Seq<(Seq<char>, i64)>, new: Seq<(Seq<char>, i64)>, n: int) -> Seq<WinnerDelta>
    decreases n,
{
    if n <= 0 {
        Seq::empty()
    } else {
        let before = removed_deltas(old, new, n - 1);
        let diff = count_of(new, old[n - 1].0) - old[n - 1].1;
        if diff < 0 {
            before.push(WinnerDelta { from_new: false, index: (n - 1) as usize, diff: diff as i64 })
        } else {
            before
        }
    }
}

/// The insertions: each new winner whose count grew, in order.
pub open spec fn added_deltas(old: Seq<(Seq<char>, i64)>, new: Seq<(Seq<char>, i64)>, n: int) -> Seq<WinnerDelta>
    decreases n,
{
    if n <= 0 {
        Seq::empty()
    } else {
        let before = added_deltas(old, new, n - 1);
        let diff = new[n - 1].1 - count_of(old, new[n - 1].0);
        if diff > 0 {
            before.push(WinnerDelta { from_new: true, index: (n - 1) as usize, diff: diff as i64 })
        } else {
            before
        }
    }
}

pub open spec fn spec_winner_deltas(old: Seq<(Seq<char>, i64)>, new: Seq<(Seq<char>, i64)>) -> Seq<WinnerDelta> {
    removed_deltas(old, new, old.len() as int) + added_deltas(old, new, new.len() as int)
}

pub open spec fn delta_key(old: Seq<(Seq<char>, i64)>, new: Seq<(Seq<char>, i64)>, d: WinnerDelta) -> Seq<char> {
    if d.from_new {
        new[d.index as int].0
    } else {
        old[d.index as int].0
    }
}

/// The total change that a run of deltas makes to one candidate key.
pub open spec fn delta_total(
    old: Seq<(Seq<char>, i64)>,
    new: Seq<(Seq<char>, i64)>,
    ds: Seq<WinnerDelta>,
    k: Seq<char>,
) -> int
    decreases ds.len(),
{
    if ds.len() == 0 {
        0
    } else {
        (if delta_key(old, new, ds.last()) == k {
            ds.last().diff as int
        } else {
            0
        }) + delta_total(old, new, ds.drop_last(), k)
    }
}

proof fn lemma_count_of_entry(s: Seq<(Seq<char>, i64)>, k: Seq<char>, i: int)
    requires
        keys_distinct(s),
        0 <= i < s.len(),
        s[i].0 == k,
    ensures
        count_of(s, k) == s[i].1,
    decreases s.len(),
{
    let init = s.drop_last();
    if i == s.len() - 1 {
        lemma_count_of_absent(init, k);
    } else {
        assert(s.last().0 != k);
        lemma_count_of_entry(init, k, i);
    }
}

proof fn lemma_count_of_absent(s: Seq<(Seq<char>, i64)>, k: Seq<char>)
    requires
        forall|i: int| 0 <= i < s.len() ==> s[i].0 != k,
    ensures
        count_of(s, k) == 0,
    decreases s.len(),
{
    if s.len() > 0 {
        let init = s.drop_last();
        assert(s.last().0 != k);
        assert forall|i: int| 0 <= i < init.len() implies init[i].0 != k by {
            assert(init[i] == s[i]);
        }
        lemma_count_of_absent(init, k);
    }
}

proof fn lemma_count_of_bounds(s: Seq<(Seq<char>, i64)>, k: Seq<char>)
    requires
        keys_distinct(s),
        counts_valid(s),
    ensures
        0 <= count_of(s, k) <= i64::MAX,
{
    if exists|i: int| 0 <= i < s.len() && s[i].0 == k {
        let i = choose|i: int| 0 <= i < s.len() && s[i].0 == k;
        lemma_count_of_entry(s, k, i);
    } else {
        lemma_count_of_absent(s, k);
    }
}

proof fn lemma_delta_total_concat(
    old: Seq<(Seq<char>, i64)>,
    new: Seq<(Seq<char>, i64)>,
    a: Seq<WinnerDelta>,
    b: Seq<WinnerDelta>,
    k: Seq<char>,
)
    ensures
        delta_total(old, new, a + b, k) == delta_total(old, new, a, k) + delta_total(old, new, b, k),
    decreases b.len(),
{
    if b.len() == 0 {
        assert(a + b =~= a);
    } else {
        assert((a + b).drop_last() =~= a + b.drop_last());
        assert((a + b).last() == b.last());
        lemma_delta_total_concat(old, new, a, b.drop_last(), k);
    }
}

proof fn lemma_removed_total(old: Seq<(Seq<char>, i64)>, new: Seq<(Seq<char>, i64)>, n: int, k: Seq<char>)
    requires
        keys_distinct(old),
        keys_distinct(new),
        counts_valid(old),
        counts_valid(new),
        old.len() <= usize::MAX,
        0 <= n <= old.len(),
    ensures
        delta_total(old, new, removed_deltas(old, new, n), k) == if exists|i: int|
            0 <= i < n && old[i].0 == k {
            if count_of(new, k) < count_of(old, k) {
                count_of(new, k) - count_of(old, k)
            } else {
                0
            }
        } else {
            0
        },
    decreases n,
{
    if n > 0 {
        lemma_removed_total(old, new, n - 1, k);
        let before = removed_deltas(old, new, n - 1);
        let key = old[n - 1].0;
        lemma_count_of_bounds(new, key);
        let diff = count_of(new, key) - old[n - 1].1;
        if diff < 0 {
            let d = WinnerDelta { from_new: false, index: (n - 1) as usize, diff: diff as i64 };
            assert(before.push(d).drop_last() =~= before);
            assert(delta_key(old, new, d) == key);
            assert(d.diff == diff);
        }
        if key == k {
            lemma_count_of_entry(old, k, n - 1);
            assert(!exists|i: int| 0 <= i < n - 1 && old[i].0 == k);
        } else {
            if exists|i: int| 0 <= i < n && old[i].0 == k {
                let i = choose|i: int| 0 <= i < n && old[i].0 == k;
                assert(i < n - 1);
            }
        }
    }
}

proof fn lemma_added_total(old: Seq<(Seq<char>, i64)>, new: Seq<(Seq<char>, i64)>, n: int, k: Seq<char>)
    requires
        keys_distinct(old),
        keys_distinct(new),
        counts_valid(old),
        counts_valid(new),
        new.len() <= usize::MAX,
        0 <= n <= new.len(),
    ensures
        delta_total(old, new, added_deltas(old, new, n), k) == if exists|j: int|
            0 <= j < n && new[j].0 == k {
            if count_of(new, k) > count_of(old, k) {
                count_of(new, k) - count_of(old, k)
            } else {
                0
            }
        } else {
            0
        },
    decreases n,
{
    if n > 0 {
        lemma_added_total(old, new, n - 1, k);
        let before = added_deltas(old, new, n - 1);
        let key = new[n - 1].0;
        lemma_count_of_bounds(old, key);
        let diff = new[n - 1].1 - count_of(old, key);
        if diff > 0 {
            let d = WinnerDelta { from_new: true, index: (n - 1) as usize, diff: diff as i64 };
            assert(before.push(d).drop_last() =~= before);
            assert(delta_key(old, new, d) == key);
            assert(d.diff == diff);
        }
        if key == k {
            lemma_count_of_entry(new, k, n - 1);
            assert(!exists|j: int| 0 <= j < n - 1 && new[j].0 == k);
        } else {
            if exists|j: int| 0 <= j < n && new[j].0 == k {
                let j = choose|j: int| 0 <= j < n && new[j].0 == k;
                assert(j < n - 1);
            }
        }
    }
}

/// Applying the retractions and insertions of `winner_deltas` to the previous winners gives
/// the new winners: for every candidate key, the previous count plus the deltas' total
/// change is the new count, so the maintained output matches a recomputation.
pub proof fn law_winner_deltas_reach_new_winners(
    old: Seq<(Seq<char>, i64)>,
    new: Seq<(Seq<char>, i64)>,
    k: Seq<char>,
)
    requires
        keys_distinct(old),
        keys_distinct(new),
        counts_valid(old),
        counts_valid(new),
        old.len() <= usize::MAX,
        new.len() <= usize::MAX,
    ensures
        count_of(old, k) + delta_total(old, new, spec_winner_deltas(old, new), k) == count_of(new, k),
{
    lemma_delta_total_concat(
        old,
        new,
        removed_deltas(old, new, old.len() as int),
        added_deltas(old, new, new.len() as int),
        k,
    );
    lemma_removed_total(old, new, old.len() as int, k);
    lemma_added_total(old, new, new.len() as int, k);
    if !exists|i: int| 0 <= i < old.len() && old[i].0 == k {
        lemma_count_of_absent(old, k);
    }
    if !exists|j: int| 0 <= j < new.len() && new[j].0 == k {
        lemma_count_of_absent(new, k);
    }
    lemma_count_of_bounds(old, k);
    lemma_count_of_bounds(new, k);
}

fn winner_count(entries: &[(String, i64)], key: &str) -> (c: i64)
    requires
        keys_distinct(entry_views(entries@)),
        counts_valid(entry_views(entries@)),
    ensures
        c == count_of(entry_views(entries@), key@),
        c >= 0,
{
    let ghost view = entry_views(entries@);
    let mut i: usize = 0;
    while i < entries.len()
        invariant
            i <= entries.len(),
            view == entry_views(entries@),
            keys_distinct(view),
            counts_valid(view),
            forall|j: int| 0 <= j < i ==> view[j].0 != key@,
        decreases entries.len() - i,
    {
        if crate::text::str_eq(entries[i].0.as_str(), key) {
            proof {
                lemma_count_of_entry(view, key@, i as int);
            }
            return entries[i].1;
        }
        i = i + 1;
    }
    proof {
        lemma_count_of_absent(view, key@);
    }
    0
}

/// The changes that take a top-N's maintained output from the previous winners to the new
/// ones: first a retraction for each previous winner whose count fell, then an insertion
/// for each new winner whose count grew, each in its map's order. Winners are keyed by
/// their candidate key, each key once, with non-negative counts.
pub fn winner_deltas(old: &[(String, i64)], new: &[(String, i64)]) -> (deltas: Vec<WinnerDelta>)
    requires
        keys_distinct(entry_views(old@)),
        keys_distinct(entry_views(new@)),
        counts_valid(entry_views(old@)),
        counts_valid(entry_views(new@)),
    ensures
        deltas@ == spec_winner_deltas(entry_views(old@), entry_views(new@)),
{
    let ghost o = entry_views(old@);
    let ghost n = entry_views(new@);
    let mut deltas: Vec<WinnerDelta> = Vec::new();
    let mut i: usize = 0;
    while i < old.len()
        invariant
            i <= old.len(),
            o == entry_views(old@),
            n == entry_views(new@),
            keys_distinct(n),
            counts_valid(n),
            counts_valid(o),
            deltas@ == removed_deltas(o, n, i as int),
        decreases old.len() - i,
    {
        let now = winner_count(new, old[i].0.as_str());
        assert(o[i as int].0 == old@[i as int].0@);
        assert(o[i as int].1 >= 0);
        let diff = now - old[i].1;
        if diff < 0 {
            deltas.push(WinnerDelta { from_new: false, index: i, diff });
        }
        i = i + 1;
    }
    let ghost removed = deltas@;
    let mut j: usize = 0;
    while j < new.len()
        invariant
            j <= new.len(),
            o == entry_views(old@),
            n == entry_views(new@),
            keys_distinct(o),
            counts_valid(n),
            counts_valid(o),
            removed == removed_deltas(o, n, o.len() as int),
            deltas@ == removed + added_deltas(o, n, j as int),
        decreases new.len() - j,
    {
        let before = winner_count(old, new[j].0.as_str());
        assert(n[j as int].0 == new@[j as int].0@);
        assert(n[j as int].1 >= 0);
        let diff = new[j].1 - before;
        if diff > 0 {
            deltas.push(WinnerDelta { from_new: true, index: j, diff });
        }
        j = j + 1;
    }
    deltas
}

/// Why a changelog record was refused by a collection.
#[derive(Debug, Clone, Copy, PartialEq, Eq, Structural)]
pub enum NormalizeError {
    /// An append collection takes inserts only.
    AppendAcceptsOnlyInserts,
    /// A retract collection cannot read an upsert, which does not say what it replaces.
    RetractRejectsUpsert,
    /// An upsert collection cannot read `update_before`.
    UpsertRejectsUpdateBefore,
    /// A delete names a primary key that holds no row.
    DeleteOfUnknownKey,
    /// An insertion names a primary key that already holds a row.
    DuplicatePrimaryKey,
    /// A retraction does not match the row stored under its primary key.
    UnmatchedRetraction,
}

/// What a collection does with one changelog record.
#[derive(Debug, Clone, Copy, PartialEq, Eq, Structural)]
pub enum NormalizePlan {
    /// The collection has no primary key: the record's row changes by this weight.
    Pass(i64),
    /// Remove the row stored under the primary key and retract it, with its original time.
    RetractPrior,
    /// The record repeats the stored row; nothing changes.
    Unchanged,
    /// Store the record's row under its primary key, retracting the stored row first when
    /// there is one.
    Replace { retract_prior: bool },
    /// Store the record's row under its primary key and insert it.
    Insert,
}

/// The plan for a record of change kind `kind` read by a collection in `mode`. `keyed`
/// says whether the collection has a primary key; `prior` is `None` when no row is stored
/// under the record's primary key, and otherwise whether that row has the record's key and
/// value.
pub open spec fn spec_normalize(
    mode: CollectionMode,
    kind: ChangeKind,
    keyed: bool,
    prior: Option<bool>,
) -> Result<NormalizePlan, NormalizeError> {
    if mode == CollectionMode::Append && kind != ChangeKind::Insert {
        Err(NormalizeError::AppendAcceptsOnlyInserts)
    } else if mode == CollectionMode::Retract && kind == ChangeKind::Upsert {
        Err(NormalizeError::RetractRejectsUpsert)
    } else if !keyed {
        Ok(NormalizePlan::Pass(spec_weight(kind) as i64))
    } else if mode == CollectionMode::Upsert {
        if kind == ChangeKind::UpdateBefore {
            Err(NormalizeError::UpsertRejectsUpdateBefore)
        } else if kind == ChangeKind::Delete {
            if prior is None {
                Err(NormalizeError::DeleteOfUnknownKey)
            } else {
                Ok(NormalizePlan::RetractPrior)
            }
        } else if prior == Some(true) {
            Ok(NormalizePlan::Unchanged)
        } else {
            Ok(NormalizePlan::Replace { retract_prior: prior is Some })
        }
    } else if spec_weight(kind) > 0 {
        if prior is Some {
            Err(NormalizeError::DuplicatePrimaryKey)
        } else {
            Ok(NormalizePlan::Insert)
        }
    } else if prior == Some(true) {
        Ok(NormalizePlan::RetractPrior)
    } else {
        Err(NormalizeError::UnmatchedRetraction)
    }
}

/// Decides what a collection does with one changelog record.
pub fn normalize_step(
    mode: CollectionMode,
    kind: ChangeKind,
    keyed: bool,
    prior: Option<bool>,
) -> (r: Result<NormalizePlan, NormalizeError>)
    ensures
        r == spec_normalize(mode, kind, keyed, prior),
{
    if mode == CollectionMode::Append && kind != ChangeKind::Insert {
        return Err(NormalizeError::AppendAcceptsOnlyInserts);
    }
    if mode == CollectionMode::Retract && kind == ChangeKind::Upsert {
        return Err(NormalizeError::RetractRejectsUpsert);
    }
    if !keyed {
        return Ok(NormalizePlan::Pass(kind.weight()));
    }
    if mode == CollectionMode::Upsert {
        if kind == ChangeKind::UpdateBefore {
            return Err(NormalizeError::UpsertRejectsUpdateBefore);
        }
        if kind == ChangeKind::Delete {
            return match prior {
                None => Err(NormalizeError::DeleteOfUnknownKey),
                Some(_) => Ok(NormalizePlan::RetractPrior),
            };
        }
        return match prior {
            Some(true) => Ok(NormalizePlan::Unchanged),
            Some(false) => Ok(NormalizePlan::Replace { retract_prior: true }),
            None => Ok(NormalizePlan::Replace { retract_prior: false }),
        };
    }
    if kind.is_addition() {
        match prior {
            Some(_) => Err(NormalizeError::DuplicatePrimaryKey),
            None => Ok(NormalizePlan::Insert),
        }
    } else {
        match prior {
            Some(true) => Ok(NormalizePlan::RetractPrior),
            _ => Err(NormalizeError::UnmatchedRetraction),
        }
    }
}


/// A keyed collection holds at most one row per primary key: a plan inserts only under a
/// key that holds no row, replaces or retracts only a stored row, and leaves a key alone
/// only when the record repeats its row.
pub proof fn law_keyed_plans_keep_one_row_per_key(
    mode: CollectionMode,
    kind: ChangeKind,
    prior: Option<bool>,
)
    ensures
        ({
            let r = spec_normalize(mode, kind, true, prior);
            &&& r == Ok::<NormalizePlan, NormalizeError>(NormalizePlan::Insert) ==> prior is None
            &&& r == Ok::<NormalizePlan, NormalizeError>(NormalizePlan::RetractPrior) ==> prior is Some
            &&& r == Ok::<NormalizePlan, NormalizeError>(NormalizePlan::Unchanged) ==> prior == Some(true)
            &&& (r matches Ok(NormalizePlan::Replace { retract_prior }) ==> (mode == CollectionMode::Upsert
                && retract_prior == (prior is Some) && prior != Some(true)))
            &&& !(r matches Ok(NormalizePlan::Pass(_)))
        }),
{
}

/// In a keyed collection that is not an upsert collection, an insertion under a primary
/// key that already holds a row, whatever that row is, is refused as a duplicate key, and
/// one under a free key is inserted; a retraction must match the stored row.
pub proof fn law_keyed_insertions_refuse_taken_keys(
    mode: CollectionMode,
    kind: ChangeKind,
    prior: Option<bool>,
)
    requires
        (mode == CollectionMode::Retract && (kind == ChangeKind::Insert || kind == ChangeKind::UpdateAfter))
            || (mode == CollectionMode::Append && kind == ChangeKind::Insert),
    ensures
        prior is Some ==> spec_normalize(mode, kind, true, prior) == Err::<NormalizePlan, NormalizeError>(
            NormalizeError::DuplicatePrimaryKey,
        ),
        prior is None ==> spec_normalize(mode, kind, true, prior) == Ok::<NormalizePlan, NormalizeError>(
            NormalizePlan::Insert,
        ),
{
}

/// In a keyed retract collection a retraction removes the stored row only when it matches
/// it; a retraction of a free key or of another row is refused.
pub proof fn law_keyed_retractions_match_the_stored_row(kind: ChangeKind, prior: Option<bool>)
    requires
        kind == ChangeKind::Delete || kind == ChangeKind::UpdateBefore,
    ensures
        spec_normalize(CollectionMode::Retract, kind, true, prior) == if prior == Some(true) {
            Ok::<NormalizePlan, NormalizeError>(NormalizePlan::RetractPrior)
        } else {
            Err(NormalizeError::UnmatchedRetraction)
        },
{
}
/// An upsert that repeats the stored row changes nothing, so the logical row keeps its
/// original time; any other upsert replaces the row, retracting the old one.
pub proof fn law_identical_upsert_changes_nothing(kind: ChangeKind, prior: Option<bool>)
    requires
        kind == ChangeKind::Insert || kind == ChangeKind::Upsert || kind
            == ChangeKind::UpdateAfter,
    ensures
        spec_normalize(CollectionMode::Upsert, kind, true, prior) == if prior == Some(true) {
            Ok::<NormalizePlan, NormalizeError>(NormalizePlan::Unchanged)
        } else {
            Ok(NormalizePlan::Replace { retract_prior: prior is Some })
        },
{
}

} // verus!
