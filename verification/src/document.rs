//! JSON documents as operators read them: values, member lookup and dotted field paths.
use crate::text::{lemma_split_at_first, spec_split_on, str_eq};
use vstd::prelude::*;

verus! {

/// A JSON number as the operators read it: the bit pattern of its `f64` value, if it has
/// one, and the magnitude of its integer value, if it is an integer.
#[derive(Debug, Clone, Copy, PartialEq, Eq, Structural)]
pub struct JsonNumber {
    pub float_bits: Option<u64>,
    pub integer_magnitude: Option<u64>,
}

/// A JSON value. An object lists its members in order; a parsed object names each member
/// once.
#[derive(Debug)]
pub enum JsonValue {
    Null,
    Bool(bool),
    Number(JsonNumber),
    String(String),
    Array(Vec<JsonValue>),
    Object(Vec<(String, JsonValue)>),
}

/// The value of the first member named `key`.
pub open spec fn spec_member(members: Seq<(String, JsonValue)>, key: Seq<char>) -> Option<
    JsonValue,
>
    decreases members.len(),
{
    if members.len() == 0 {
        None
    } else if members[0].0@ == key {
        Some(members[0].1)
    } else {
        spec_member(members.drop_first(), key)
    }
}

/// `Value::get` with a member name: only an object has members.
pub open spec fn spec_get(value: JsonValue, key: Seq<char>) -> Option<JsonValue> {
    match value {
        JsonValue::Object(members) => spec_member(members@, key),
        _ => None,
    }
}

/// Follows one member name after another from `value`.
pub open spec fn spec_follow(value: JsonValue, names: Seq<Seq<char>>) -> Option<JsonValue>
    decreases names.len(),
{
    if names.len() == 0 {
        Some(value)
    } else {
        match spec_get(value, names[0]) {
            None => None,
            Some(next) => spec_follow(next, names.drop_first()),
        }
    }
}

/// The value at a dotted field path such as `order.customer.id`.
pub open spec fn spec_field_value(value: JsonValue, field: Seq<char>) -> Option<JsonValue> {
    spec_follow(value, spec_split_on(field, '.'))
}

/// `Value::get` with a member name.
pub fn get<'a>(value: &'a JsonValue, key: &str) -> (member: Option<&'a JsonValue>)
    ensures
        match member {
            Some(m) => spec_get(*value, key@) == Some(*m),
            None => spec_get(*value, key@) is None,
        },
{
    match value {
        JsonValue::Object(members) => {
            let mut i: usize = 0;
            assert(members@.skip(0) =~= members@);
            while i < members.len()
                invariant
                    i <= members@.len(),
                    spec_get(*value, key@) == spec_member(members@, key@),
                    spec_member(members@, key@) == spec_member(members@.skip(i as int), key@),
                decreases members.len() - i,
            {
                let ghost rest = members@.skip(i as int);
                assert(rest[0] == members@[i as int]);
                if str_eq(members[i].0.as_str(), key) {
                    assert(members@[i as int].0@ == key@);
                    assert(spec_member(rest, key@) == Some(members@[i as int].1));
                    return Some(&members[i].1);
                }
                assert(rest.drop_first() =~= members@.skip(i + 1));
                i = i + 1;
            }
            None
        },
        _ => None,
    }
}

/// The value at a dotted field path: each segment between dots names a member of the
/// object reached so far.
pub fn field_value<'a>(value: &'a JsonValue, field: &str) -> (found: Option<&'a JsonValue>)
    ensures
        match found {
            Some(v) => spec_field_value(*value, field@) == Some(*v),
            None => spec_field_value(*value, field@) is None,
        },
    decreases field@.len(),
{
    let n = field.unicode_len();
    let mut i: usize = 0;
    while i < n
        invariant
            n == field@.len(),
            i <= n,
            forall|k: int| 0 <= k < i ==> field@[k] != '.',
        ensures
            i <= n,
            forall|k: int| 0 <= k < i ==> field@[k] != '.',
            i < n ==> field@[i as int] == '.',
        decreases n - i,
    {
        if field.get_char(i) == '.' {
            break;
        }
        i = i + 1;
    }
    proof {
        lemma_split_at_first(field@, '.', i as int);
        assert(field@.take(i as int) =~= field@.subrange(0, i as int));
    }
    let segment = field.substring_char(0, i);
    let ghost names = spec_split_on(field@, '.');
    assert(names.len() > 0 && names[0] == segment@);
    match get(value, segment) {
        None => None,
        Some(next) => {
            assert(spec_field_value(*value, field@) == spec_follow(*next, names.drop_first()));
            if i == n {
                assert(names.drop_first() =~= Seq::<Seq<char>>::empty());
                Some(next)
            } else {
                let rest = field.substring_char(i + 1, n);
                assert(rest@ =~= field@.skip(i + 1));
                assert(names.drop_first() =~= spec_split_on(rest@, '.'));
                field_value(next, rest)
            }
        },
    }
}

} // verus!
