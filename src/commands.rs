use vstd::prelude::*;
use crate::error::{ErrorKind, ShellError};
use crate::format::value_text;
use crate::sort::{all_objects, is_stable_sort, stable_sort_by_field};
use crate::value::{DataDict, Primitive, Timestamp, Value, none_key, none_value};
use crate::paths::{opt_view, resolve, resolve_path};

verus! {

/// What flows into a stage: the value of the built-in before it, output of
/// an external program (carried by the host, not by the library), or nothing
/// for the first stage.
#[derive(Debug)]
pub enum RushStream {
    Internal(Value),
    External,
    Empty,
}

/// The built-in commands.
#[derive(Clone, Copy, Debug, PartialEq, Eq, Structural)]
pub enum Builtin {
    Ls,
    Ps,
    Cd,
    SortBy,
    Limit,
    Rev,
}

pub struct Ls;

pub struct Ps;

pub struct Cd;

pub struct SortBy;

pub struct Limit;

pub struct Rev;

/// A directory entry as the host reads it.
#[derive(Debug)]
pub struct EntryRecord {
    pub name: String,
    pub size: u64,
    pub modified: Timestamp,
}

/// A running process as the host reports it.
#[derive(Debug)]
pub struct ProcessRecord {
    pub name: String,
    pub pid: i64,
    pub memory: u64,
}

pub open spec fn stage_error(r: Result<Value, ShellError>) -> bool {
    r matches Err(e) && e.kind == ErrorKind::Stage
}

/// The list that a stage receives, where it receives one.
pub open spec fn input_list(s: RushStream) -> Option<Seq<Value>> {
    match s {
        RushStream::Internal(Value::List(l)) => Some(l@),
        _ => None,
    }
}

/// How many elements `take n` keeps of a list of length `len`.
pub open spec fn kept(len: int, n: int) -> int {
    if n <= 0 {
        0
    } else if n >= len {
        len
    } else {
        n
    }
}

pub open spec fn reversed(s: Seq<Value>) -> Seq<Value> {
    Seq::new(s.len(), |i: int| s[s.len() - 1 - i])
}

/// What `sortby` gives: an error without an argument, or when the input is
/// not a list of records; else the input sorted stably, largest key first,
/// by the field that the first argument names.
pub open spec fn sortby_result(args: Seq<Value>, input: RushStream, r: Result<Value, ShellError>) -> bool {
    if args.len() == 0 {
        stage_error(r)
    } else {
        match input_list(input) {
            Some(l) => if all_objects(l) {
                r matches Ok(Value::List(out)) && is_stable_sort(out@, l, value_text(args[0]))
            } else {
                stage_error(r)
            },
            None => stage_error(r),
        }
    }
}

/// What `take n` gives: an error without an argument, when the input is not
/// a list, or when `n` is not an integer; else the first `kept(len, n)`
/// elements.
pub open spec fn limit_result(args: Seq<Value>, input: RushStream, r: Result<Value, ShellError>) -> bool {
    if args.len() == 0 {
        stage_error(r)
    } else {
        match input_list(input) {
            Some(l) => match args[0] {
                Value::Primitive(Primitive::Integer(n)) => r matches Ok(Value::List(out)) && out@
                    == l.take(kept(l.len() as int, n as int)),
                _ => stage_error(r),
            },
            None => stage_error(r),
        }
    }
}

/// What `rev` gives: the input list reversed, or an error when the input is
/// not a list.
pub open spec fn rev_result(input: RushStream, r: Result<Value, ShellError>) -> bool {
    match input_list(input) {
        Some(l) => r matches Ok(Value::List(out)) && out@ == reversed(l),
        None => stage_error(r),
    }
}

fn message(s: &str) -> (r: ShellError)
    ensures
        r@ == (ErrorKind::Stage, s@),
{
    ShellError::from_str(ErrorKind::Stage, s)
}

/// Takes the list out of a stage's input, or says why there is none.
fn take_list(input: RushStream, what: &str) -> (r: Result<Vec<Value>, ShellError>)
    ensures
        match r {
            Ok(l) => input_list(input) == Some(l@),
            Err(e) => input_list(input) is None && e.kind == ErrorKind::Stage,
        },
{
    match input {
        RushStream::Internal(Value::List(list)) => Ok(list),
        RushStream::External => Err(message("external streams not supported yet")),
        _ => Err(message(what)),
    }
}

impl SortBy {
    /// Sorts the incoming list of records by the field named by the first
    /// argument, largest first; records whose keys compare equal keep their
    /// order.
    pub fn run(&self, args: &Vec<Value>, input: RushStream) -> (r: Result<Value, ShellError>)
        ensures
            sortby_result(args@, input, r),
    {
        if args.len() == 0 {
            return Err(message("No sortby field provided"));
        }
        let objects = take_list(input, "sortby expects a list of objects")?;
        let n = objects.len();
        let mut i: usize = 0;
        while i < n
            invariant
                n == objects@.len(),
                input_list(input) == Some(objects@),
                i <= n,
                forall|k: int| 0 <= k < i ==> (#[trigger] objects@[k]) is Object,
            decreases n - i,
        {
            match &objects[i] {
                Value::Object(_) => {},
                _ => {
                    assert(!(objects@[i as int] is Object));
                    return Err(message("sortby expects a list of objects"));
                },
            }
            i = i + 1;
        }
        let field = args[0].format();
        Ok(Value::List(stable_sort_by_field(objects, field.as_str())))
    }
}

impl Limit {
    /// Keeps the first `n` elements of the incoming list, `n` being the
    /// first argument: none when `n` is zero or less, all when `n` is at
    /// least the length.
    pub fn run(&self, args: &Vec<Value>, input: RushStream) -> (r: Result<Value, ShellError>)
        ensures
            limit_result(args@, input, r),
    {
        if args.len() == 0 {
            return Err(message("No limit number provided"));
        }
        let mut objects = take_list(input, "limit expects a list of objects")?;
        let limit = args[0].to_int()?;
        let keep: usize = if limit <= 0 {
            0
        } else if limit as u64 >= objects.len() as u64 {
            objects.len()
        } else {
            limit as usize
        };
        let ghost before = objects@;
        objects.truncate(keep);
        assert(objects@ =~= before.take(kept(before.len() as int, limit as int)));
        Ok(Value::List(objects))
    }
}

impl Rev {
    /// Reverses the incoming list.
    pub fn run(&self, input: RushStream) -> (r: Result<Value, ShellError>)
        ensures
            rev_result(input, r),
    {
        let mut objects = take_list(input, "rev expects a list of objects")?;
        let ghost l = objects@;
        let mut out: Vec<Value> = Vec::new();
        while objects.len() > 0
            invariant
                objects@ == l.take(objects@.len() as int),
                out@ == reversed(l).take(out@.len() as int),
                objects@.len() + out@.len() == l.len(),
            decreases objects@.len(),
        {
            let ghost k = objects@.len();
            let x = objects.pop().unwrap();
            assert(x == l[k - 1]);
            out.push(x);
            assert(objects@ =~= l.take(objects@.len() as int));
            assert(out@ =~= reversed(l).take(out@.len() as int));
        }
        assert(out@ =~= reversed(l));
        Ok(Value::List(out))
    }
}

pub open spec fn name_key() -> Seq<char> {
    seq!['n', 'a', 'm', 'e']
}

pub open spec fn size_key() -> Seq<char> {
    seq!['s', 'i', 'z', 'e']
}

pub open spec fn modified_key() -> Seq<char> {
    seq!['m', 'o', 'd', 'i', 'f', 'i', 'e', 'd']
}

pub open spec fn pid_key() -> Seq<char> {
    seq!['p', 'i', 'd']
}

pub open spec fn memory_key() -> Seq<char> {
    seq!['m', 'e', 'm', 'o', 'r', 'y']
}

/// The fields of the record of a directory entry.
pub open spec fn entry_fields(e: EntryRecord) -> Seq<(Seq<char>, Value)> {
    seq![
        (none_key(), none_value()),
        (name_key(), Value::Primitive(Primitive::String(e.name))),
        (size_key(), Value::Primitive(Primitive::Size(e.size))),
        (modified_key(), Value::Primitive(Primitive::Time(e.modified))),
    ]
}

/// The fields of the record of a process.
pub open spec fn process_fields(p: ProcessRecord) -> Seq<(Seq<char>, Value)> {
    seq![
        (none_key(), none_value()),
        (name_key(), Value::Primitive(Primitive::String(p.name))),
        (pid_key(), Value::Primitive(Primitive::Integer(p.pid))),
        (memory_key(), Value::Primitive(Primitive::Size(p.memory))),
    ]
}

/// Adds a field whose name differs from all that the record holds.
fn add_field(dict: &mut DataDict, name: &str, value: Value)
    requires
        forall|i: int| 0 <= i < old(dict)@.len() ==> (#[trigger] old(dict)@[i]).0 != name@,
    ensures
        final(dict)@ == old(dict)@.push((name@, value)),
{
    proof {
        crate::value::lemma_key_index(dict@, name@);
    }
    dict.insert(String::from_str(name), value);
}

/// The record of a directory entry: `name`, `size` and `modified`, after the
/// implicit `none` field.
pub fn direntry_dict(entry: EntryRecord) -> (r: DataDict)
    ensures
        r@ == entry_fields(entry),
{
    let mut dict = DataDict::default();
    proof {
        reveal_strlit("name");
        reveal_strlit("size");
        reveal_strlit("modified");
        assert("name"@ =~= name_key());
        assert("size"@ =~= size_key());
        assert("modified"@ =~= modified_key());
        assert(none_key()[1] != name_key()[1]);
        assert(none_key()[0] != size_key()[0] && name_key()[0] != size_key()[0]);
        assert(none_key().len() != modified_key().len() && name_key().len()
            != modified_key().len() && size_key().len() != modified_key().len());
    }
    add_field(&mut dict, "name", Value::string(entry.name));
    add_field(&mut dict, "size", Value::size(entry.size));
    add_field(&mut dict, "modified", Value::time(entry.modified));
    assert(dict@ =~= seq![
        (none_key(), none_value()),
        (name_key(), Value::Primitive(Primitive::String(entry.name))),
        (size_key(), Value::Primitive(Primitive::Size(entry.size))),
        (modified_key(), Value::Primitive(Primitive::Time(entry.modified))),
    ]);
    dict
}

/// The record of a process: `name`, `pid` and `memory`, after the implicit
/// `none` field.
pub fn process_dict(proc: ProcessRecord) -> (r: DataDict)
    ensures
        r@ == process_fields(proc),
{
    let mut dict = DataDict::default();
    proof {
        reveal_strlit("name");
        reveal_strlit("pid");
        reveal_strlit("memory");
        assert("name"@ =~= name_key());
        assert("pid"@ =~= pid_key());
        assert("memory"@ =~= memory_key());
        assert(none_key()[1] != name_key()[1]);
        assert(none_key()[0] != pid_key()[0] && name_key()[0] != pid_key()[0]);
        assert(none_key()[0] != memory_key()[0] && name_key()[1] != memory_key()[1]
            && pid_key()[0] != memory_key()[0]);
    }
    add_field(&mut dict, "name", Value::string(proc.name));
    add_field(&mut dict, "pid", Value::integer(proc.pid));
    add_field(&mut dict, "memory", Value::size(proc.memory));
    assert(dict@ =~= seq![
        (none_key(), none_value()),
        (name_key(), Value::Primitive(Primitive::String(proc.name))),
        (pid_key(), Value::Primitive(Primitive::Integer(proc.pid))),
        (memory_key(), Value::Primitive(Primitive::Size(proc.memory))),
    ]);
    dict
}

/// `v` is a record with exactly these fields.
pub open spec fn is_record_with(v: Value, fields: Seq<(Seq<char>, Value)>) -> bool {
    v matches Value::Object(d) && d@ == fields
}

/// Each output element is the record of the entry at the same position.
pub open spec fn entry_records(es: Seq<EntryRecord>, out: Seq<Value>) -> bool {
    &&& out.len() == es.len()
    &&& forall|k: int|
        0 <= k < out.len() ==> is_record_with(#[trigger] out[k], entry_fields(es[k]))
}

/// Each output element is the record of the process at the same position.
pub open spec fn process_records(ps: Seq<ProcessRecord>, out: Seq<Value>) -> bool {
    &&& out.len() == ps.len()
    &&& forall|k: int|
        0 <= k < out.len() ==> is_record_with(#[trigger] out[k], process_fields(ps[k]))
}

/// The directory that `ls` lists: the current one, or its first argument
/// resolved against the current one.
pub open spec fn ls_target(args: Seq<Value>, cwd: Seq<char>, home: Option<Seq<char>>) -> Seq<
    char,
> {
    if args.len() == 0 {
        cwd
    } else {
        resolve_path(value_text(args[0]), cwd, home)
    }
}

/// The directory that `cd` moves to: home without an argument, else its
/// first argument resolved against the current directory; `None` when there
/// is no argument and no home directory.
pub open spec fn cd_target(args: Seq<Value>, cwd: Seq<char>, home: Option<Seq<char>>) -> Option<
    Seq<char>,
> {
    if args.len() == 0 {
        home
    } else {
        Some(resolve_path(value_text(args[0]), cwd, home))
    }
}

impl Ls {
    pub fn target(&self, args: &Vec<Value>, cwd: &String, home: Option<String>) -> (r: String)
        ensures
            r@ == ls_target(args@, cwd@, opt_view(home)),
    {
        if args.len() == 0 {
            cwd.clone()
        } else {
            let arg = args[0].format();
            resolve(&arg, cwd, home)
        }
    }

    /// The list of records of the entries of a directory, in the order the
    /// host read them.
    pub fn run(&self, entries: Vec<EntryRecord>) -> (r: Value)
        ensures
            r matches Value::List(l) && entry_records(entries@, l@),
    {
        let ghost es = entries@;
        let mut entries = entries;
        let mut out: Vec<Value> = Vec::new();
        while entries.len() > 0
            invariant
                out@.len() + entries@.len() == es.len(),
                entries@ == es.skip(out@.len() as int),
                forall|k: int|
                    0 <= k < out@.len() ==> is_record_with(#[trigger] out@[k], entry_fields(es[k])),
            decreases entries@.len(),
        {
            let e = entries.remove(0);
            assert(e == es[out@.len() as int]);
            out.push(Value::Object(direntry_dict(e)));
            assert(entries@ =~= es.skip(out@.len() as int));
        }
        Value::List(out)
    }
}

impl Ps {
    /// The list of records of a process snapshot, in the order given.
    pub fn run(&self, procs: Vec<ProcessRecord>) -> (r: Value)
        ensures
            r matches Value::List(l) && process_records(procs@, l@),
    {
        let ghost ps = procs@;
        let mut procs = procs;
        let mut out: Vec<Value> = Vec::new();
        while procs.len() > 0
            invariant
                out@.len() + procs@.len() == ps.len(),
                procs@ == ps.skip(out@.len() as int),
                forall|k: int|
                    0 <= k < out@.len() ==> is_record_with(#[trigger] out@[k], process_fields(ps[k])),
            decreases procs@.len(),
        {
            let p = procs.remove(0);
            assert(p == ps[out@.len() as int]);
            out.push(Value::Object(process_dict(p)));
            assert(procs@ =~= ps.skip(out@.len() as int));
        }
        Value::List(out)
    }
}

impl Cd {
    /// The directory to move to, or an error when there is no argument and
    /// no home directory.
    pub fn target(&self, args: &Vec<Value>, cwd: &String, home: Option<String>) -> (r: Result<
        String,
        ShellError,
    >)
        ensures
            match cd_target(args@, cwd@, opt_view(home)) {
                Some(t) => r matches Ok(s) && s@ == t,
                None => r matches Err(e) && e@ == (ErrorKind::Stage, "cd : Could not find home path"@),
            },
    {
        if args.len() == 0 {
            match home {
                Some(h) => Ok(h),
                None => Err(message("cd : Could not find home path")),
            }
        } else {
            let arg = args[0].format();
            Ok(resolve(&arg, cwd, home))
        }
    }

    /// What `cd` gives once the host has tried to move to `target`: the
    /// target as a string, or an error when the move failed.
    pub fn run(&self, target: String, moved: bool) -> (r: Result<Value, ShellError>)
        ensures
            moved ==> r == Ok::<Value, ShellError>(Value::Primitive(Primitive::String(target))),
            !moved ==> (r matches Err(e) && e@ == (ErrorKind::Stage, "cd : no such directory"@)),
    {
        if moved {
            Ok(Value::string(target))
        } else {
            Err(message("cd : no such directory"))
        }
    }
}


} // verus!
