use vstd::prelude::*;
use crate::value::{Primitive, Timestamp, Value};

verus! {

/// Lexicographic order on character sequences, by code point; this is the
/// order of `str` in Rust.
pub open spec fn chars_lt(a: Seq<char>, b: Seq<char>) -> bool
    decreases a.len(),
{
    if a.len() == 0 {
        b.len() > 0
    } else if b.len() == 0 {
        false
    } else if a[0] != b[0] {
        a[0] < b[0]
    } else {
        chars_lt(a.drop_first(), b.drop_first())
    }
}

pub open spec fn time_lt(a: Timestamp, b: Timestamp) -> bool {
    a.secs < b.secs || (a.secs == b.secs && a.nanos < b.nanos)
}

/// The kind of a sort key: the empty primitive, a string, an integer, a
/// time, a size, or something that is not a primitive.
pub open spec fn kind(v: Value) -> int {
    match v {
        Value::Primitive(Primitive::Nothing) => 0,
        Value::Primitive(Primitive::String(_)) => 1,
        Value::Primitive(Primitive::Integer(_)) => 2,
        Value::Primitive(Primitive::Time(_)) => 3,
        Value::Primitive(Primitive::Size(_)) => 4,
        _ => 5,
    }
}

/// The strict order on sort keys. The empty primitive is below every other
/// primitive; two primitives of one kind compare by that kind's natural
/// order. Primitives of different kinds, and anything that is not a
/// primitive, compare equal.
pub open spec fn key_lt(a: Value, b: Value) -> bool {
    match (a, b) {
        (Value::Primitive(Primitive::Nothing), Value::Primitive(Primitive::Nothing)) => false,
        (Value::Primitive(Primitive::Nothing), Value::Primitive(_)) => true,
        (
            Value::Primitive(Primitive::String(x)),
            Value::Primitive(Primitive::String(y)),
        ) => chars_lt(x@, y@),
        (
            Value::Primitive(Primitive::Integer(x)),
            Value::Primitive(Primitive::Integer(y)),
        ) => x < y,
        (Value::Primitive(Primitive::Time(x)), Value::Primitive(Primitive::Time(y))) => time_lt(
            x,
            y,
        ),
        (Value::Primitive(Primitive::Size(x)), Value::Primitive(Primitive::Size(y))) => x < y,
        _ => false,
    }
}

/// Two keys that the order really compares: both primitives, and of one
/// kind unless one of them is the empty primitive.
pub open spec fn comparable(a: Value, b: Value) -> bool {
    &&& kind(a) != 5
    &&& kind(b) != 5
    &&& (kind(a) == 0 || kind(b) == 0 || kind(a) == kind(b))
}

proof fn lemma_chars_lt(a: Seq<char>, b: Seq<char>, c: Seq<char>)
    ensures
        chars_lt(a, b) ==> !chars_lt(b, a),
        chars_lt(a, b) || a == b || chars_lt(b, a),
        chars_lt(a, b) && chars_lt(b, c) ==> chars_lt(a, c),
    decreases a.len(),
{
    if a.len() > 0 && b.len() > 0 && c.len() > 0 {
        lemma_chars_lt(a.drop_first(), b.drop_first(), c.drop_first());
        if a[0] == b[0] && a.drop_first() == b.drop_first() {
            assert(a =~= seq![a[0]] + a.drop_first());
            assert(b =~= seq![b[0]] + b.drop_first());
        }
    } else if a.len() > 0 && b.len() > 0 {
        lemma_chars_lt(a.drop_first(), b.drop_first(), c);
        if a[0] == b[0] && a.drop_first() == b.drop_first() {
            assert(a =~= seq![a[0]] + a.drop_first());
            assert(b =~= seq![b[0]] + b.drop_first());
        }
    } else if a.len() == 0 && b.len() == 0 {
        assert(a =~= b);
    }
}

/// The key order is asymmetric, and on keys that are pairwise comparable it
/// is a strict weak order: a key below `b` is below every key that is not
/// below `b`.
pub proof fn lemma_key_order(a: Value, b: Value, c: Value)
    ensures
        key_lt(a, b) ==> !key_lt(b, a),
        comparable(a, b) && comparable(b, c) && comparable(a, c) ==> (key_lt(a, b) && !key_lt(
            c,
            b,
        ) ==> key_lt(a, c)),
{
    match (a, b, c) {
        (
            Value::Primitive(Primitive::String(x)),
            Value::Primitive(Primitive::String(y)),
            Value::Primitive(Primitive::String(z)),
        ) => {
            lemma_chars_lt(x@, y@, z@);
            lemma_chars_lt(z@, y@, x@);
            lemma_chars_lt(x@, z@, y@);
            lemma_chars_lt(y@, z@, x@);
        },
        (Value::Primitive(Primitive::String(x)), Value::Primitive(Primitive::String(y)), _) => {
            lemma_chars_lt(x@, y@, x@);
        },
        _ => {},
    }
}

/// Compares two strings by code point.
pub fn string_less(a: &String, b: &String) -> (r: bool)
    ensures
        r == chars_lt(a@, b@),
{
    let sa = a.as_str();
    let sb = b.as_str();
    let na = sa.unicode_len();
    let nb = sb.unicode_len();
    let mut i: usize = 0;
    assert(a@.skip(0) =~= a@);
    assert(b@.skip(0) =~= b@);
    while i < na && i < nb
        invariant
            na == a@.len(),
            nb == b@.len(),
            sa@ == a@,
            sb@ == b@,
            i <= na,
            i <= nb,
            chars_lt(a@, b@) == chars_lt(a@.skip(i as int), b@.skip(i as int)),
        decreases na - i,
    {
        let ca = sa.get_char(i);
        let cb = sb.get_char(i);
        assert(a@.skip(i as int)[0] == ca);
        assert(b@.skip(i as int)[0] == cb);
        if ca != cb {
            return ca < cb;
        }
        assert(a@.skip(i as int).drop_first() =~= a@.skip(i + 1));
        assert(b@.skip(i as int).drop_first() =~= b@.skip(i + 1));
        i = i + 1;
    }
    assert(a@.skip(i as int).len() == na - i);
    assert(b@.skip(i as int).len() == nb - i);
    i == na && i < nb
}

/// Whether two strings hold the same characters.
pub fn str_eq(a: &str, b: &str) -> (r: bool)
    ensures
        r == (a@ == b@),
{
    let na = a.unicode_len();
    let nb = b.unicode_len();
    if na != nb {
        return false;
    }
    let mut i: usize = 0;
    while i < na
        invariant
            na == a@.len(),
            nb == b@.len(),
            na == nb,
            i <= na,
            forall|k: int| 0 <= k < i ==> a@[k] == b@[k],
        decreases na - i,
    {
        if a.get_char(i) != b.get_char(i) {
            return false;
        }
        i = i + 1;
    }
    assert(a@ =~= b@);
    true
}

/// Compares two sort keys.
pub fn key_less(a: &Value, b: &Value) -> (r: bool)
    ensures
        r == key_lt(*a, *b),
{
    match (a, b) {
        (Value::Primitive(Primitive::Nothing), Value::Primitive(Primitive::Nothing)) => false,
        (Value::Primitive(Primitive::Nothing), Value::Primitive(_)) => true,
        (Value::Primitive(Primitive::String(x)), Value::Primitive(Primitive::String(y))) => {
            string_less(x, y)
        },
        (Value::Primitive(Primitive::Integer(x)), Value::Primitive(Primitive::Integer(y))) => {
            *x < *y
        },
        (Value::Primitive(Primitive::Time(x)), Value::Primitive(Primitive::Time(y))) => {
            x.secs < y.secs || (x.secs == y.secs && x.nanos < y.nanos)
        },
        (Value::Primitive(Primitive::Size(x)), Value::Primitive(Primitive::Size(y))) => *x < *y,
        _ => false,
    }
}

} // verus!
