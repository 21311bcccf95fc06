use vstd::prelude::*;
use vstd::string::StringSliceAdditionalSpecFns;
use crate::commands::{
    ProcessRecord, RushStream, is_record_with, kept, limit_result, memory_key, process_fields,
    process_records, reversed, rev_result, sortby_result,
};
use crate::format::value_text;
use crate::lex::{byte_model, lemma_spans_cover_bytes, spans_bytes};
use crate::order::{key_lt, lemma_key_order};
use crate::sort::{is_hit, is_stable_sort, field_value, keys_comparable, stable_sorted_with};
use crate::runner::is_string_value;
use crate::value::{DataDict, Primitive, Value, has_key, key_index, lookup, none_value};

verus! {

/// Lexing loses nothing: the byte spans of the tokens of a line, put end to
/// end, give the line's bytes back.
pub proof fn lemma_lex_round_trip(line: &str)
    ensures
        spans_bytes(line.spec_bytes(), byte_model(line@)) == line.spec_bytes(),
{
    lemma_spans_cover_bytes(line@);
}

/// `take n` keeps nothing when `n` is zero or less, and the whole list, in
/// order, when `n` is at least its length.
pub proof fn lemma_take_edges(args: Seq<Value>, l: Vec<Value>, out: Vec<Value>, n: i64)
    requires
        args.len() > 0,
        args[0] == Value::Primitive(Primitive::Integer(n)),
        limit_result(args, RushStream::Internal(Value::List(l)), Ok(Value::List(out))),
    ensures
        n <= 0 ==> out@.len() == 0,
        n >= l@.len() ==> out@ == l@,
{
    if n >= l@.len() {
        assert(l@.take(l@.len() as int) =~= l@);
    }
}

/// Reversing twice gives the list back.
pub proof fn lemma_rev_involution(l: Vec<Value>, m: Vec<Value>, k: Vec<Value>)
    requires
        rev_result(RushStream::Internal(Value::List(l)), Ok(Value::List(m))),
        rev_result(RushStream::Internal(Value::List(m)), Ok(Value::List(k))),
    ensures
        k@ == l@,
{
    assert(reversed(reversed(l@)) =~= l@);
}

/// Looking up a field that a record lacks gives the empty primitive, whose
/// text is empty.
pub proof fn lemma_missing_field(d: DataDict, key: Seq<char>)
    requires
        !has_key(d@, key),
    ensures
        lookup(d@, key) == none_value(),
        value_text(lookup(d@, key)).len() == 0,
{
}

/// After a sort by comparable keys the first element has the greatest key
/// of all inputs.
pub proof fn lemma_greatest_first(out: Seq<Value>, inp: Seq<Value>, f: Seq<char>)
    requires
        is_stable_sort(out, inp, f),
        keys_comparable(inp, f),
        inp.len() > 0,
    ensures
        forall|k: int|
            0 <= k < inp.len() ==> !key_lt(field_value(out[0], f), field_value(#[trigger] inp[k], f)),
{
    let p = choose|p: Seq<int>| stable_sorted_with(out, inp, f, p);
    assert forall|k: int| 0 <= k < inp.len() implies !key_lt(
        field_value(out[0], f),
        field_value(#[trigger] inp[k], f),
    ) by {
        assert(is_hit(p, inp.len() as int, k));
        let m = choose|m: int| 0 <= m < inp.len() && #[trigger] p[m] == k;
        assert(out[m] == inp[k]);
        if m == 0 {
            lemma_key_order(field_value(out[0], f), field_value(out[0], f), field_value(out[0], f));
        } else {
            assert(!key_lt(field_value(out[0], f), field_value(out[m], f)));
        }
    }
}

proof fn lemma_process_memory(p: ProcessRecord)
    ensures
        lookup(process_fields(p), memory_key()) == Value::Primitive(Primitive::Size(p.memory)),
{
    let mk = memory_key();
    let e = process_fields(p);
    let e1 = e.drop_first();
    let e2 = e1.drop_first();
    let e3 = e2.drop_first();
    assert(e[0].0[0] != mk[0]);
    assert(e1[0].0[0] != mk[0]);
    assert(e2[0].0[0] != mk[0]);
    assert(e3[0].0 == mk);
    assert(key_index(e3, mk) == 0);
    assert(key_index(e2, mk) == 1);
    assert(key_index(e1, mk) == 2);
    assert(key_index(e, mk) == 3);
}

/// `ps | sortby memory | take 1` gives one record: that of a process of the
/// snapshot whose memory is the greatest of all.
pub proof fn lemma_ps_sortby_memory_take_one(
    procs: Seq<ProcessRecord>,
    listed: Vec<Value>,
    sort_args: Seq<Value>,
    sorted: Vec<Value>,
    take_args: Seq<Value>,
    taken: Vec<Value>,
)
    requires
        procs.len() > 0,
        process_records(procs, listed@),
        sort_args.len() == 1,
        is_string_value(sort_args[0], memory_key()),
        sortby_result(sort_args, RushStream::Internal(Value::List(listed)), Ok(Value::List(sorted))),
        take_args == seq![Value::Primitive(Primitive::Integer(1))],
        limit_result(take_args, RushStream::Internal(Value::List(sorted)), Ok(Value::List(taken))),
    ensures
        taken@.len() == 1,
        exists|j: int|
            0 <= j < procs.len() && is_record_with(taken@[0], process_fields(procs[j])) && (
            forall|k: int| 0 <= k < procs.len() ==> procs[j].memory >= (#[trigger] procs[k]).memory),
{
    let f = memory_key();
    let inp = listed@;
    assert(value_text(sort_args[0]) == f);
    assert forall|i: int| 0 <= i < inp.len() implies (#[trigger] inp[i]) is Object && field_value(
        inp[i],
        f,
    ) == Value::Primitive(Primitive::Size(procs[i].memory)) by {
        assert(is_record_with(inp[i], process_fields(procs[i])));
        lemma_process_memory(procs[i]);
    }
    assert(keys_comparable(inp, f));
    assert(is_stable_sort(sorted@, inp, f));
    assert(kept(sorted@.len() as int, 1) == 1);
    assert(taken@ == sorted@.take(1));
    let p = choose|p: Seq<int>| stable_sorted_with(sorted@, inp, f, p);
    let j = p[0];
    assert(sorted@[0] == inp[j]);
    assert(taken@[0] == sorted@[0]);
    assert(is_record_with(inp[j], process_fields(procs[j])));
    lemma_greatest_first(sorted@, inp, f);
    assert forall|k: int| 0 <= k < procs.len() implies procs[j].memory >= (
    #[trigger] procs[k]).memory by {
        assert(!key_lt(field_value(sorted@[0], f), field_value(inp[k], f)));
    }
}

} // verus!
