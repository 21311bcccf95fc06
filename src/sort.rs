use vstd::prelude::*;
use crate::order::{comparable, key_lt, key_less, lemma_key_order};
use crate::value::{Value, lookup, none_value};

verus! {

/// The sort key of a list element: the named field of a record, or the empty
/// primitive where the record has no such field.
pub open spec fn field_value(v: Value, field: Seq<char>) -> Value {
    match v {
        Value::Object(o) => lookup(o@, field),
        _ => none_value(),
    }
}

/// `p` maps the positions `0..n` one to one into `0..n`.
pub open spec fn is_index_map(p: Seq<int>, n: int) -> bool {
    &&& p.len() == n
    &&& forall|k: int| 0 <= k < n ==> 0 <= #[trigger] p[k] < n
    &&& forall|k: int, l: int| 0 <= k < l < n ==> p[k] != p[l]
    &&& forall|j: int| 0 <= j < n ==> #[trigger] is_hit(p, n, j)
}

/// Some position of `0..n` is mapped to `j`.
pub open spec fn is_hit(p: Seq<int>, n: int, j: int) -> bool {
    exists|k: int| 0 <= k < n && #[trigger] p[k] == j
}

/// The keys of `inp` under `field` are pairwise comparable: all primitives,
/// and of one kind apart from empty ones.
pub open spec fn keys_comparable(inp: Seq<Value>, field: Seq<char>) -> bool {
    forall|i: int, j: int|
        0 <= i < inp.len() && 0 <= j < inp.len() ==> comparable(
            field_value(#[trigger] inp[i], field),
            field_value(#[trigger] inp[j], field),
        )
}

/// `out` is `inp` reordered (element `k` of `out` is element `p[k]` of
/// `inp`), largest key first. An element goes ahead of one that came before
/// it in `inp` only when its key is greater, so elements whose keys compare
/// equal (equal keys, or keys of different kinds) keep their input order.
/// Where the keys are pairwise comparable the keys do not increase.
pub open spec fn stable_sorted_with(
    out: Seq<Value>,
    inp: Seq<Value>,
    field: Seq<char>,
    p: Seq<int>,
) -> bool {
    &&& out.len() == inp.len()
    &&& is_index_map(p, inp.len() as int)
    &&& forall|k: int| 0 <= k < out.len() ==> #[trigger] out[k] == inp[p[k]]
    &&& forall|k: int, l: int|
        0 <= k < l < out.len() && !key_lt(
            field_value(#[trigger] out[l], field),
            field_value(#[trigger] out[k], field),
        ) ==> p[k] < p[l]
    &&& keys_comparable(inp, field) ==> forall|k: int, l: int|
        0 <= k < l < out.len() ==> !key_lt(
            field_value(#[trigger] out[k], field),
            field_value(#[trigger] out[l], field),
        )
}

/// `out` is a stable sort of `inp` by the field `field`, in descending order.
pub open spec fn is_stable_sort(out: Seq<Value>, inp: Seq<Value>, field: Seq<char>) -> bool {
    exists|p: Seq<int>| stable_sorted_with(out, inp, field, p)
}

pub open spec fn all_objects(s: Seq<Value>) -> bool {
    forall|i: int| 0 <= i < s.len() ==> (#[trigger] s[i]) is Object
}

/// The position at which an element with key `kx` goes into `out`: after
/// every element at the end whose key is not below `kx`.
fn insert_position(out: &Vec<Value>, kx: &Value, field: &str) -> (j: usize)
    requires
        all_objects(out@),
    ensures
        j <= out@.len(),
        j > 0 ==> !key_lt(field_value(out@[j - 1], field@), *kx),
        forall|l: int| j <= l < out@.len() ==> key_lt(field_value(#[trigger] out@[l], field@), *kx),
{
    let mut j = out.len();
    while j > 0 && key_less(out[j - 1].get_data_from_key(field), kx)
        invariant
            j <= out@.len(),
            all_objects(out@),
            forall|l: int|
                j <= l < out@.len() ==> key_lt(field_value(#[trigger] out@[l], field@), *kx),
        decreases j,
    {
        j = j - 1;
    }
    j
}

/// Sorts records by one field, largest key first, keeping records whose keys
/// compare equal in their input order.
pub fn stable_sort_by_field(items: Vec<Value>, field: &str) -> (r: Vec<Value>)
    requires
        all_objects(items@),
    ensures
        is_stable_sort(r@, items@, field@),
{
    let ghost inp = items@;
    let ghost f = field@;
    let n = items.len();
    let mut items = items;
    let mut out: Vec<Value> = Vec::new();
    let ghost mut p: Seq<int> = seq![];
    let mut i: usize = 0;
    assert(inp.skip(0) =~= inp);
    while i < n
        invariant
            n == inp.len(),
            f == field@,
            all_objects(inp),
            i <= n,
            items@ == inp.skip(i as int),
            out@.len() == i,
            all_objects(out@),
            p.len() == i,
            forall|k: int| 0 <= k < i ==> 0 <= #[trigger] p[k] < i,
            forall|k: int, l: int| 0 <= k < l < i ==> p[k] != p[l],
            forall|j: int| 0 <= j < i ==> #[trigger] is_hit(p, i as int, j),
            forall|k: int| 0 <= k < i ==> #[trigger] out@[k] == inp[p[k]],
            forall|k: int, l: int|
                0 <= k < l < i && !key_lt(
                    field_value(#[trigger] out@[l], f),
                    field_value(#[trigger] out@[k], f),
                ) ==> p[k] < p[l],
            keys_comparable(inp, f) ==> forall|k: int, l: int|
                0 <= k < l < i ==> !key_lt(
                    field_value(#[trigger] out@[k], f),
                    field_value(#[trigger] out@[l], f),
                ),
        decreases n - i,
    {
        let x = items.remove(0);
        assert(x == inp[i as int]);
        assert(items@ =~= inp.skip(i + 1));
        let j = insert_position(&out, x.get_data_from_key(field), field);
        let ghost kx = field_value(x, f);
        let ghost old_out = out@;
        let ghost old_p = p;
        out.insert(j, x);
        proof {
            p = old_p.insert(j as int, i as int);
            let o = out@;
            assert(o =~= old_out.insert(j as int, x));
            assert forall|k: int| 0 <= k < i + 1 implies (#[trigger] o[k]) is Object by {
                if k < j {
                    assert(o[k] == old_out[k]);
                } else if k > j {
                    assert(o[k] == old_out[k - 1]);
                }
            }
            assert forall|k: int| 0 <= k < i + 1 implies 0 <= #[trigger] p[k] < i + 1 by {
                if k < j {
                    assert(p[k] == old_p[k]);
                } else if k > j {
                    assert(p[k] == old_p[k - 1]);
                }
            }
            assert forall|k: int, l: int| 0 <= k < l < i + 1 implies p[k] != p[l] by {
                if k < j && l < j {
                } else if k < j && l == j {
                    assert(p[k] == old_p[k]);
                } else if k < j {
                    assert(p[k] == old_p[k]);
                    assert(p[l] == old_p[l - 1]);
                } else if k == j {
                    assert(p[l] == old_p[l - 1]);
                } else {
                    assert(p[k] == old_p[k - 1]);
                    assert(p[l] == old_p[l - 1]);
                }
            }
            assert forall|jj: int| 0 <= jj < i + 1 implies #[trigger] is_hit(p, i + 1, jj) by {
                if jj == i {
                    assert(p[j as int] == jj);
                } else {
                    assert(is_hit(old_p, i as int, jj));
                    let k0 = choose|k: int| 0 <= k < i && #[trigger] old_p[k] == jj;
                    if k0 < j {
                        assert(p[k0] == jj);
                    } else {
                        assert(p[k0 + 1] == jj);
                    }
                }
            }
            assert forall|k: int| 0 <= k < i + 1 implies #[trigger] o[k] == inp[p[k]] by {
                if k < j {
                    assert(o[k] == old_out[k]);
                    assert(p[k] == old_p[k]);
                } else if k > j {
                    assert(o[k] == old_out[k - 1]);
                    assert(p[k] == old_p[k - 1]);
                }
            }
            if keys_comparable(inp, f) {
                assert forall|k: int, l: int| 0 <= k < l < i + 1 implies !key_lt(
                    field_value(#[trigger] o[k], f),
                    field_value(#[trigger] o[l], f),
                ) by {
                    if l < j {
                        assert(o[k] == old_out[k] && o[l] == old_out[l]);
                    } else if l == j {
                        assert(o[k] == old_out[k]);
                        let kj = field_value(old_out[j - 1], f);
                        let kk = field_value(old_out[k], f);
                        assert(old_out[k] == inp[old_p[k]]);
                        assert(old_out[j - 1] == inp[old_p[j - 1]]);
                        assert(comparable(kk, kx));
                        assert(comparable(kx, kj));
                        assert(comparable(kk, kj));
                        lemma_key_order(kk, kx, kj);
                        if k < j - 1 {
                            assert(!key_lt(kk, kj));
                        }
                    } else if k < j {
                        assert(o[k] == old_out[k] && o[l] == old_out[l - 1]);
                    } else if k == j {
                        assert(o[l] == old_out[l - 1]);
                        lemma_key_order(field_value(o[l], f), kx, kx);
                    } else {
                        assert(o[k] == old_out[k - 1] && o[l] == old_out[l - 1]);
                    }
                }
            }
            assert forall|k: int, l: int|
                0 <= k < l < i + 1 && !key_lt(
                    field_value(#[trigger] o[l], f),
                    field_value(#[trigger] o[k], f),
                ) implies p[k] < p[l] by {
                if l < j {
                    assert(o[k] == old_out[k] && o[l] == old_out[l]);
                    assert(p[k] == old_p[k] && p[l] == old_p[l]);
                } else if l == j {
                    assert(p[k] == old_p[k]);
                } else if k < j {
                    assert(o[k] == old_out[k] && o[l] == old_out[l - 1]);
                    assert(p[k] == old_p[k] && p[l] == old_p[l - 1]);
                } else if k == j {
                    assert(o[l] == old_out[l - 1]);
                } else {
                    assert(o[k] == old_out[k - 1] && o[l] == old_out[l - 1]);
                    assert(p[k] == old_p[k - 1] && p[l] == old_p[l - 1]);
                }
            }
        }
        i = i + 1;
    }
    assert(stable_sorted_with(out@, inp, f, p));
    out
}

} // verus!
