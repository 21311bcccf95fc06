use vstd::prelude::*;
use indexmap::IndexMap;
use crate::error::{ErrorKind, ShellError};

verus! {

/// An instant as whole seconds since the Unix epoch and the nanoseconds past
/// that second.
#[derive(Clone, Copy, Debug, PartialEq, Eq, Structural)]
pub struct Timestamp {
    pub secs: i64,
    pub nanos: u32,
}

/// A scalar field value.
#[derive(Debug)]
pub enum Primitive {
    String(String),
    Integer(i64),
    Time(Timestamp),
    Size(u64),
    Nothing,
}

/// The structured value that built-in commands pass to each other.
#[derive(Debug)]
pub enum Value {
    Object(DataDict),
    List(Vec<Value>),
    Primitive(Primitive),
}

/// The introspection handle for one field of a record.
#[derive(Debug)]
pub struct Descriptor {
    pub name: String,
}

impl Descriptor {
    pub fn new(name: String) -> (r: Self)
        ensures
            r.name@ == name@,
    {
        Descriptor { name }
    }
}

/// The fields of a record, held in an `indexmap::IndexMap` from field name to
/// value. Verus refuses the map type itself here, since `Value` is recursive
/// through it, so the map is reached only through the methods below.
#[verifier::external_body]
#[derive(Debug)]
pub struct FieldMap {
    map: IndexMap<String, Value>,
}

/// What a field map holds: each key with its value, in insertion order.
pub uninterp spec fn field_entries(m: FieldMap) -> Seq<(Seq<char>, Value)>;

/// The position of the first entry with `key`, or -1 when there is none.
/// The keys of a map are unique, so this is the position of the one entry
/// with that key.
pub open spec fn key_index(e: Seq<(Seq<char>, Value)>, key: Seq<char>) -> int
    decreases e.len(),
{
    if e.len() == 0 {
        -1
    } else if e[0].0 == key {
        0
    } else {
        let r = key_index(e.drop_first(), key);
        if r < 0 {
            -1
        } else {
            r + 1
        }
    }
}

pub open spec fn has_key(e: Seq<(Seq<char>, Value)>, key: Seq<char>) -> bool {
    key_index(e, key) >= 0
}

/// The value stored under `key`, or the empty primitive when there is none.
pub open spec fn lookup(e: Seq<(Seq<char>, Value)>, key: Seq<char>) -> Value {
    if has_key(e, key) {
        e[key_index(e, key)].1
    } else {
        none_value()
    }
}

/// The entries after setting `key` to `value`: a key that is present keeps its
/// position and takes the new value, a new key is appended.
pub open spec fn insert_entry(e: Seq<(Seq<char>, Value)>, key: Seq<char>, value: Value) -> Seq<
    (Seq<char>, Value),
> {
    if has_key(e, key) {
        e.update(key_index(e, key), (key, value))
    } else {
        e.push((key, value))
    }
}

/// No two entries share a key.
pub open spec fn keys_unique(e: Seq<(Seq<char>, Value)>) -> bool {
    forall|i: int, j: int| 0 <= i < j < e.len() ==> (#[trigger] e[i]).0 != (#[trigger] e[j]).0
}

/// Setting a field keeps the keys unique.
pub proof fn lemma_insert_keeps_keys_unique(e: Seq<(Seq<char>, Value)>, key: Seq<char>, value: Value)
    ensures
        keys_unique(e) ==> keys_unique(insert_entry(e, key, value)),
{
    lemma_key_index(e, key);
    let r = insert_entry(e, key, value);
    if keys_unique(e) {
        assert forall|i: int, j: int| 0 <= i < j < r.len() implies (#[trigger] r[i]).0 != (
        #[trigger] r[j]).0 by {
            if has_key(e, key) {
                assert(e[i].0 != e[j].0);
            } else if j == e.len() {
                assert(e[i].0 != key);
            } else {
                assert(e[i].0 != e[j].0);
            }
        }
    }
}

pub proof fn lemma_key_index(e: Seq<(Seq<char>, Value)>, key: Seq<char>)
    ensures
        -1 <= key_index(e, key) < e.len(),
        key_index(e, key) >= 0 ==> e[key_index(e, key)].0 == key,
        key_index(e, key) < 0 ==> forall|i: int| 0 <= i < e.len() ==> (#[trigger] e[i]).0 != key,
    decreases e.len(),
{
    if e.len() > 0 && e[0].0 != key {
        lemma_key_index(e.drop_first(), key);
        assert forall|i: int| 0 <= i < e.len() && key_index(e, key) < 0 implies (#[trigger] e[i]).0
            != key by {
            if i > 0 {
                assert(e[i] == e.drop_first()[i - 1]);
            }
        }
    }
}

impl FieldMap {
    /// Relies on `IndexMap::new`: the map starts empty.
    #[verifier::external_body]
    fn new() -> (r: FieldMap)
        ensures
            field_entries(r) == Seq::<(Seq<char>, Value)>::empty(),
    {
        FieldMap { map: IndexMap::new() }
    }

    /// Relies on `IndexMap::insert`: a key that is present keeps its place and
    /// takes the new value; a new key goes last.
    #[verifier::external_body]
    fn insert(&mut self, key: String, value: Value)
        ensures
            field_entries(*final(self)) == insert_entry(field_entries(*old(self)), key@, value),
    {
        self.map.insert(key, value);
    }

    /// Relies on `IndexMap::get`: the value stored under `key`, if any.
    #[verifier::external_body]
    fn get(&self, key: &str) -> (r: Option<&Value>)
        ensures
            match r {
                Some(v) => has_key(field_entries(*self), key@) && *v == lookup(
                    field_entries(*self),
                    key@,
                ),
                None => !has_key(field_entries(*self), key@),
            },
    {
        self.map.get(key)
    }

    /// Relies on `IndexMap::len`: the number of entries.
    #[verifier::external_body]
    fn len(&self) -> (r: usize)
        ensures
            r == field_entries(*self).len(),
    {
        self.map.len()
    }

    /// Relies on `IndexMap::get_index`: the entry at a position in insertion
    /// order.
    #[verifier::external_body]
    fn get_index(&self, i: usize) -> (r: (&String, &Value))
        requires
            i < field_entries(*self).len(),
        ensures
            (r.0@, *r.1) == field_entries(*self)[i as int],
    {
        let (k, v) = self.map.get_index(i).unwrap();
        (k, v)
    }
}

/// A record: named fields in insertion order. It always holds a field named
/// `none` bound to the empty primitive.
#[derive(Debug)]
pub struct DataDict {
    pub dict: FieldMap,
}

impl View for DataDict {
    type V = Seq<(Seq<char>, Value)>;

    open spec fn view(&self) -> Seq<(Seq<char>, Value)> {
        field_entries(self.dict)
    }
}

pub open spec fn none_value() -> Value {
    Value::Primitive(Primitive::Nothing)
}

pub open spec fn none_key() -> Seq<char> {
    seq!['n', 'o', 'n', 'e']
}

/// The names of the fields whose value is not the empty primitive, in order.
pub open spec fn visible_names(e: Seq<(Seq<char>, Value)>) -> Seq<Seq<char>>
    decreases e.len(),
{
    if e.len() == 0 {
        seq![]
    } else {
        let rest = visible_names(e.drop_last());
        if e.last().1 == none_value() {
            rest
        } else {
            rest.push(e.last().0)
        }
    }
}

/// Where the keys are unique, so are the visible names; each is a key.
pub proof fn lemma_visible_names_distinct(e: Seq<(Seq<char>, Value)>)
    requires
        keys_unique(e),
    ensures
        forall|a: int| 0 <= a < visible_names(e).len() ==> exists|i: int|
            0 <= i < e.len() && (#[trigger] visible_names(e)[a]) == e[i].0,
        forall|a: int, b: int|
            0 <= a < b < visible_names(e).len() ==> (#[trigger] visible_names(e)[a]) != (
            #[trigger] visible_names(e)[b]),
    decreases e.len(),
{
    if e.len() > 0 {
        let f = e.drop_last();
        assert(keys_unique(f)) by {
            assert forall|i: int, j: int| 0 <= i < j < f.len() implies (#[trigger] f[i]).0 != (
            #[trigger] f[j]).0 by {
                assert(f[i] == e[i] && f[j] == e[j]);
            }
        }
        lemma_visible_names_distinct(f);
        let v = visible_names(e);
        let w = visible_names(f);
        assert forall|a: int| 0 <= a < v.len() implies exists|i: int|
            0 <= i < e.len() && (#[trigger] v[a]) == e[i].0 by {
            if a < w.len() {
                let i = choose|i: int| 0 <= i < f.len() && w[a] == f[i].0;
                assert(v[a] == w[a] && f[i] == e[i]);
            } else {
                assert(v[a] == e[e.len() - 1].0);
            }
        }
        assert forall|a: int, b: int| 0 <= a < b < v.len() implies (#[trigger] v[a]) != (
        #[trigger] v[b]) by {
            if b < w.len() {
                assert(v[a] == w[a] && v[b] == w[b]);
            } else {
                let i = choose|i: int| 0 <= i < f.len() && w[a] == f[i].0;
                assert(f[i] == e[i]);
                assert(e[i].0 != e[e.len() - 1].0);
            }
        }
    }
}

pub open spec fn descriptor_names(d: Seq<Descriptor>) -> Seq<Seq<char>> {
    d.map_values(|x: Descriptor| x.name@)
}

pub fn is_none_value(v: &Value) -> (r: bool)
    ensures
        r == (*v == none_value()),
{
    match v {
        Value::Primitive(Primitive::Nothing) => true,
        _ => false,
    }
}

impl DataDict {
    /// A record that holds only the `none` field.
    pub fn default() -> (r: Self)
        ensures
            r@ == seq![(none_key(), none_value())],
            keys_unique(r@),
    {
        let mut dict = FieldMap::new();
        let key = String::from_str("none");
        proof {
            reveal_strlit("none");
        }
        assert(key@ =~= none_key());
        dict.insert(key, Value::none());
        assert(field_entries(dict) =~= seq![(none_key(), none_value())]);
        DataDict { dict }
    }

    /// Sets a field. A field that is present keeps its position.
    pub fn insert(&mut self, name: String, value: Value)
        ensures
            final(self)@ == insert_entry(old(self)@, name@, value),
            keys_unique(old(self)@) ==> keys_unique(final(self)@),
    {
        proof {
            lemma_insert_keeps_keys_unique(self@, name@, value);
        }
        self.dict.insert(name, value);
    }

    /// One descriptor for each field whose value is not the empty primitive,
    /// in insertion order.
    pub fn data_descriptors(&self) -> (r: Vec<Descriptor>)
        ensures
            descriptor_names(r@) == visible_names(self@),
            keys_unique(self@) ==> forall|a: int, b: int|
                0 <= a < b < r@.len() ==> (#[trigger] r@[a]).name@ != (#[trigger] r@[b]).name@,
    {
        let n = self.dict.len();
        let mut out: Vec<Descriptor> = Vec::new();
        let mut i: usize = 0;
        assert(self@.take(0) =~= seq![]);
        assert(descriptor_names(out@) =~= seq![]);
        while i < n
            invariant
                n == self@.len(),
                i <= n,
                descriptor_names(out@) == visible_names(self@.take(i as int)),
            decreases n - i,
        {
            let (k, v) = self.dict.get_index(i);
            let ghost pre = self@.take(i as int);
            assert(self@.take(i + 1).drop_last() =~= pre);
            if !is_none_value(v) {
                let ghost before = out@;
                out.push(Descriptor::new(k.clone()));
                assert(descriptor_names(out@) =~= descriptor_names(before).push(k@));
            }
            i = i + 1;
        }
        assert(self@.take(n as int) =~= self@);
        proof {
            if keys_unique(self@) {
                lemma_visible_names_distinct(self@);
                assert forall|a: int, b: int| 0 <= a < b < out@.len() implies (
                #[trigger] out@[a]).name@ != (#[trigger] out@[b]).name@ by {
                    assert(descriptor_names(out@)[a] == out@[a].name@);
                    assert(descriptor_names(out@)[b] == out@[b].name@);
                }
            }
        }
        out
    }

    /// The value of the field that a descriptor names.
    pub fn get_data(&self, desc: &Descriptor) -> (r: &Value)
        requires
            has_key(self@, desc.name@),
        ensures
            *r == lookup(self@, desc.name@),
    {
        match self.dict.get(desc.name.as_str()) {
            Some(v) => v,
            None => {
                proof {
                    assert(false);
                }
                &Value::Primitive(Primitive::Nothing)
            },
        }
    }

    /// The value of a field, or the empty primitive when there is no such
    /// field. Never fails.
    pub fn get_data_from_key(&self, key: &str) -> (r: &Value)
        ensures
            *r == lookup(self@, key@),
    {
        match self.dict.get(key) {
            Some(v) => v,
            None => &Value::Primitive(Primitive::Nothing),
        }
    }
}

impl Value {
    pub fn object(dict: DataDict) -> (r: Self)
        ensures
            r == Value::Object(dict),
    {
        Value::Object(dict)
    }

    pub fn list(values: Vec<Value>) -> (r: Self)
        ensures
            r == Value::List(values),
    {
        Value::List(values)
    }

    pub fn string(s: String) -> (r: Self)
        ensures
            r == Value::Primitive(Primitive::String(s)),
    {
        Value::Primitive(Primitive::String(s))
    }

    pub fn integer(n: i64) -> (r: Self)
        ensures
            r == Value::Primitive(Primitive::Integer(n)),
    {
        Value::Primitive(Primitive::Integer(n))
    }

    pub fn time(t: Timestamp) -> (r: Self)
        ensures
            r == Value::Primitive(Primitive::Time(t)),
    {
        Value::Primitive(Primitive::Time(t))
    }

    pub fn size(n: u64) -> (r: Self)
        ensures
            r == Value::Primitive(Primitive::Size(n)),
    {
        Value::Primitive(Primitive::Size(n))
    }

    pub fn none() -> (r: Self)
        ensures
            r == none_value(),
    {
        Value::Primitive(Primitive::Nothing)
    }

    /// The integer a value holds; any other value is an error.
    pub fn to_int(&self) -> (r: Result<i64, ShellError>)
        ensures
            match *self {
                Value::Primitive(Primitive::Integer(n)) => r == Ok::<i64, ShellError>(n),
                _ => r matches Err(e) && e.kind == ErrorKind::Stage,
            },
    {
        match self {
            Value::Primitive(Primitive::Integer(i)) => Ok(*i),
            _ => Err(ShellError::new(String::from_str("Expected an integer"))),
        }
    }

    /// The descriptors of a record; other values have none.
    pub fn data_descriptors(&self) -> (r: Vec<Descriptor>)
        ensures
            descriptor_names(r@) == match *self {
                Value::Object(o) => visible_names(o@),
                _ => Seq::<Seq<char>>::empty(),
            },
    {
        match self {
            Value::Object(o) => o.data_descriptors(),
            _ => {
                let r: Vec<Descriptor> = Vec::new();
                assert(descriptor_names(r@) =~= seq![]);
                r
            },
        }
    }

    /// Field lookup on a record.
    pub fn get_data_from_key(&self, key: &str) -> (r: &Value)
        requires
            self is Object,
        ensures
            *r == lookup(self->Object_0@, key@),
    {
        match self {
            Value::Object(o) => o.get_data_from_key(key),
            _ => &Value::Primitive(Primitive::Nothing),
        }
    }

    /// The field of a record that a descriptor names.
    pub fn get_data(&self, desc: &Descriptor) -> (r: &Value)
        requires
            self is Object,
            has_key(self->Object_0@, desc.name@),
        ensures
            *r == lookup(self->Object_0@, desc.name@),
    {
        match self {
            Value::Object(o) => o.get_data(desc),
            _ => &Value::Primitive(Primitive::Nothing),
        }
    }
}

} // verus!
