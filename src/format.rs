use vstd::prelude::*;
use crate::numtext::{nat_text, int_text, two_digits, u64_text, i64_text, two_digit_text};
use crate::value::{Primitive, Value, Timestamp};

verus! {

pub const KIB: u64 = 1024;

pub const MIB: u64 = 1048576;

pub const GIB: u64 = 1073741824;

/// A byte count in units of `unit`, in hundredths, rounded half up.
pub open spec fn scaled(bytes: nat, unit: nat) -> nat
    recommends
        unit > 0,
{
    (bytes * 100 + unit / 2) / unit
}

/// A count of hundredths written with two decimals.
pub open spec fn hundredths_text(h: nat) -> Seq<char> {
    nat_text(h / 100) + seq!['.'] + two_digits(h % 100)
}

/// A byte count for people: whole bytes below one KiB, otherwise the largest
/// of KB, MB and GB (powers of 1024) in which it is at least one, with two
/// decimals.
pub open spec fn size_text(bytes: nat) -> Seq<char> {
    if bytes >= GIB {
        hundredths_text(scaled(bytes, GIB as nat)) + seq![' ', 'G', 'B']
    } else if bytes >= MIB {
        hundredths_text(scaled(bytes, MIB as nat)) + seq![' ', 'M', 'B']
    } else if bytes >= KIB {
        hundredths_text(scaled(bytes, KIB as nat)) + seq![' ', 'K', 'B']
    } else {
        nat_text(bytes) + seq![' ', 'b', 'y', 't', 'e', 's']
    }
}

/// The calendar date, in UTC, of a count of seconds since the Unix epoch,
/// as chrono writes a `NaiveDate`; `None` where chrono cannot represent it.
pub uninterp spec fn utc_date_text(secs: int) -> Option<Seq<char>>;

/// Relies on chrono's `DateTime::from_timestamp` and the `Display` of
/// `NaiveDate`: the UTC calendar date of an instant given in seconds since
/// the Unix epoch, or `None` for an instant out of chrono's range.
#[verifier::external_body]
fn utc_date(secs: i64) -> (r: Option<String>)
    ensures
        match r {
            Some(s) => utc_date_text(secs as int) == Some(s@),
            None => utc_date_text(secs as int) is None,
        },
{
    match chrono::DateTime::from_timestamp(secs, 0) {
        Some(t) => Some(t.date_naive().to_string()),
        None => None,
    }
}

/// How a timestamp is shown: its UTC date only, or nothing when it is out of
/// the calendar's range.
pub open spec fn time_text(t: Timestamp) -> Seq<char> {
    match utc_date_text(t.secs as int) {
        Some(d) => d,
        None => seq![],
    }
}

/// How a primitive is shown in a table cell.
pub open spec fn primitive_text(p: Primitive) -> Seq<char> {
    match p {
        Primitive::String(s) => s@,
        Primitive::Integer(i) => int_text(i as int),
        Primitive::Time(t) => time_text(t),
        Primitive::Size(b) => size_text(b as nat),
        Primitive::Nothing => seq![],
    }
}

/// How a value is shown in a table cell: only primitives have a text form.
pub open spec fn value_text(v: Value) -> Seq<char> {
    match v {
        Value::Primitive(p) => primitive_text(p),
        _ => seq![],
    }
}

fn literal(s: &str) -> (r: String)
    ensures
        r@ == s@,
{
    String::from_str(s)
}

fn hundredths(bytes: u64, unit: u64) -> (r: u64)
    requires
        unit >= 1024,
    ensures
        r as nat == scaled(bytes as nat, unit as nat),
{
    let wide: u128 = (bytes as u128) * 100 + (unit as u128) / 2;
    let h = wide / (unit as u128);
    assert((h as int) * (unit as int) <= wide as int) by (nonlinear_arith)
        requires
            h == wide / (unit as u128),
            unit >= 1024,
    ;
    assert(h <= bytes) by (nonlinear_arith)
        requires
            (h as int) * (unit as int) <= (bytes as int) * 100 + (unit as int) / 2,
            unit >= 1024,
    ;
    h as u64
}

fn hundredths_string(h: u64) -> (r: String)
    ensures
        r@ == hundredths_text(h as nat),
{
    let whole = u64_text(h / 100);
    let dot = literal(".");
    let frac = two_digit_text(h % 100);
    proof {
        reveal_strlit(".");
    }
    let r = whole.concat(dot.as_str()).concat(frac.as_str());
    assert(r@ =~= hundredths_text(h as nat));
    r
}

/// Writes a byte count with the unit that suits it.
pub fn format_size(bytes: u64) -> (r: String)
    ensures
        r@ == size_text(bytes as nat),
{
    if bytes >= GIB {
        let unit = literal(" GB");
        proof {
            reveal_strlit(" GB");
        }
        let r = hundredths_string(hundredths(bytes, GIB)).concat(unit.as_str());
        assert(r@ =~= size_text(bytes as nat));
        r
    } else if bytes >= MIB {
        let unit = literal(" MB");
        proof {
            reveal_strlit(" MB");
        }
        let r = hundredths_string(hundredths(bytes, MIB)).concat(unit.as_str());
        assert(r@ =~= size_text(bytes as nat));
        r
    } else if bytes >= KIB {
        let unit = literal(" KB");
        proof {
            reveal_strlit(" KB");
        }
        let r = hundredths_string(hundredths(bytes, KIB)).concat(unit.as_str());
        assert(r@ =~= size_text(bytes as nat));
        r
    } else {
        let unit = literal(" bytes");
        proof {
            reveal_strlit(" bytes");
        }
        let r = u64_text(bytes).concat(unit.as_str());
        assert(r@ =~= size_text(bytes as nat));
        r
    }
}

/// Writes the UTC date of a timestamp.
pub fn format_time(t: Timestamp) -> (r: String)
    ensures
        r@ == time_text(t),
{
    match utc_date(t.secs) {
        Some(d) => d,
        None => String::new(),
    }
}

impl Primitive {
    /// The text of a primitive: strings as they are, integers in decimal,
    /// times as a date, sizes scaled to a unit, and nothing for the empty
    /// primitive.
    pub fn format(&self) -> (r: String)
        ensures
            r@ == primitive_text(*self),
    {
        match self {
            Primitive::String(s) => s.clone(),
            Primitive::Integer(i) => i64_text(*i),
            Primitive::Time(t) => format_time(*t),
            Primitive::Size(b) => format_size(*b),
            Primitive::Nothing => String::new(),
        }
    }
}

impl Value {
    /// The text of a value; records and lists have none.
    pub fn format(&self) -> (r: String)
        ensures
            r@ == value_text(*self),
    {
        match self {
            Value::Primitive(p) => p.format(),
            _ => String::new(),
        }
    }
}

} // verus!
