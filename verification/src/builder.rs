use vstd::prelude::*;

use crate::json::{
    arr_view_of, keys_unique, lemma_arr_view_of, lemma_obj_map_push, lemma_obj_map_remove,
    lemma_wf_array, lemma_wf_object, obj_map_of, Json, JsonVal,
};

verus! {


/// A nested literal description of a document value: the input grammar of
/// the builder. At every position the four productions are, in priority
/// order, the `null` token, a bracketed element list, a braced key-value
/// list, and any other expression, which stands here as an already coerced
/// scalar leaf (or an embedded pre-built sub-value).
pub enum JsonExpr {
    Null,
    Leaf(Json),
    Array(Vec<JsonExpr>),
    Object(Vec<(String, JsonExpr)>),
}

/// The sequence of values denoted by a list of element descriptions.
pub open spec fn expr_arr_vals(v: Seq<JsonExpr>) -> Seq<JsonVal>
    decreases v,
{
    if v.len() == 0 {
        Seq::empty()
    } else {
        expr_arr_vals(v.drop_last()).push(v.last().value())
    }
}

/// The map denoted by a list of key-value descriptions: entries are taken
/// left to right, so on a duplicate key the last-written value wins.
pub open spec fn expr_obj_map(ps: Seq<(String, JsonExpr)>) -> Map<Seq<char>, JsonVal>
    decreases ps,
{
    if ps.len() == 0 {
        Map::empty()
    } else {
        expr_obj_map(ps.drop_last()).insert(ps.last().0@, ps.last().1.value())
    }
}

impl JsonExpr {
    /// The document value a literal description denotes.
    pub open spec fn value(self) -> JsonVal
        decreases self,
    {
        match self {
            JsonExpr::Null => JsonVal::Null,
            JsonExpr::Leaf(j) => j@,
            JsonExpr::Array(v) => JsonVal::Array(expr_arr_vals(v@)),
            JsonExpr::Object(ps) => JsonVal::Object(expr_obj_map(ps@)),
        }
    }

    /// Every embedded pre-built sub-value in the description is well-formed.
    pub open spec fn wf(self) -> bool
        decreases self,
    {
        match self {
            JsonExpr::Null => true,
            JsonExpr::Leaf(j) => j.wf(),
            JsonExpr::Array(v) => forall|i: int| 0 <= i < v@.len() ==> v@[i].wf(),
            JsonExpr::Object(ps) => forall|i: int| 0 <= i < ps@.len() ==> ps@[i].1.wf(),
        }
    }
}

/// An element list of well-formed descriptions is well-formed.
proof fn lemma_wf_expr_array(v: Vec<JsonExpr>)
    requires
        forall|i: int| 0 <= i < v@.len() ==> v@[i].wf(),
    ensures
        (JsonExpr::Array(v)).wf(),
{
}

/// A key-value list of well-formed descriptions is well-formed.
proof fn lemma_wf_expr_object(ps: Vec<(String, JsonExpr)>)
    requires
        forall|i: int| 0 <= i < ps@.len() ==> ps@[i].1.wf(),
    ensures
        (JsonExpr::Object(ps)).wf(),
{
}

pub broadcast proof fn lemma_expr_arr_vals(v: Seq<JsonExpr>)
    ensures
        #[trigger] expr_arr_vals(v).len() == v.len(),
        forall|i: int| 0 <= i < v.len() ==> expr_arr_vals(v)[i] == v[i].value(),
    decreases v,
{
    if v.len() > 0 {
        lemma_expr_arr_vals(v.drop_last());
        assert(forall|i: int| 0 <= i < v.len() - 1 ==> v.drop_last()[i] == v[i]);
        assert forall|i: int| 0 <= i < v.len() implies expr_arr_vals(v)[i] == v[i].value() by {
            if i < v.len() - 1 {
                assert(expr_arr_vals(v)[i] == expr_arr_vals(v.drop_last())[i]);
            } else {
                assert(v[i] == v.last());
            }
        }
    }
}

/// Taking one more pair into the prefix inserts that pair's entry.
proof fn lemma_expr_obj_map_prefix(ps: Seq<(String, JsonExpr)>, i: int)
    requires
        0 <= i < ps.len(),
    ensures
        expr_obj_map(ps.subrange(0, i + 1)) == expr_obj_map(ps.subrange(0, i)).insert(
            ps[i].0@,
            ps[i].1.value(),
        ),
{
    assert(ps.subrange(0, i + 1).drop_last() =~= ps.subrange(0, i));
    assert(ps.subrange(0, i + 1).last() == ps[i]);
}

/// Put a key-value pair into a pair list with unique keys, replacing the
/// pair that carries the key if there is one: the map gains exactly this
/// entry, as an unordered store's insert would.
fn insert_pair(ps: &mut Vec<(String, Json)>, k: String, v: Json)
    requires
        keys_unique(old(ps)@),
        forall|j: int| 0 <= j < old(ps)@.len() ==> old(ps)@[j].1.wf(),
        v.wf(),
    ensures
        keys_unique(final(ps)@),
        forall|j: int| 0 <= j < final(ps)@.len() ==> final(ps)@[j].1.wf(),
        obj_map_of(final(ps)@) == obj_map_of(old(ps)@).insert(k@, v@),
{
    let ghost orig = ps@;
    let mut i: usize = 0;
    #[verifier::loop_isolation(false)]
    while i < ps.len()
        invariant
            ps@ == orig,
            i <= ps@.len(),
            forall|j: int| 0 <= j < i ==> #[trigger] ps@[j].0@ != k@,
        decreases ps@.len() - i,
    {
        if ps[i].0 == k {
            proof {
                lemma_obj_map_remove(orig, i as int);
            }
            let _replaced = ps.remove(i);
            proof {
                assert(forall|j: int|
                    0 <= j < ps@.len() ==> exists|j2: int|
                        0 <= j2 < orig.len() && #[trigger] ps@[j] == orig[j2]);
                assert forall|j: int| 0 <= j < ps@.len() implies #[trigger] ps@[j].1.wf() by {
                    let j2 = choose|j2: int| 0 <= j2 < orig.len() && ps@[j] == orig[j2];
                    assert(orig[j2].1.wf());
                }
                lemma_obj_map_push(ps@, k, v);
            }
            let ghost removed = ps@;
            ps.push((k, v));
            proof {
                assert(forall|j: int| 0 <= j < removed.len() ==> ps@[j] == removed[j]);
                assert(ps@.last() == (k, v));
                assert(forall|j: int| 0 <= j < removed.len() ==> ps@[j].0@ != k@);
                assert(keys_unique(ps@));
                assert(obj_map_of(ps@) == obj_map_of(orig).remove(orig[i as int].0@).insert(
                    k@,
                    v@,
                ));
                assert(obj_map_of(orig).remove(k@).insert(k@, v@) =~= obj_map_of(orig).insert(
                    k@,
                    v@,
                ));
            }
            return ;
        }
        i += 1;
    }
    proof {
        lemma_obj_map_push(ps@, k, v);
    }
    let ghost before = ps@;
    ps.push((k, v));
    proof {
        assert(forall|j: int| 0 <= j < before.len() ==> ps@[j] == before[j]);
        assert(ps@.last() == (k, v));
        assert(keys_unique(ps@));
    }
}

/// Build one document value from a nested literal description, recursing
/// through containers: `null` becomes `Null`, an element list becomes an
/// `Array` in source order, a key-value list becomes an `Object` in which a
/// repeated key keeps its last-written value, and a leaf passes through as
/// the scalar it was coerced to.
pub fn build(e: &JsonExpr) -> (j: Json)
    requires
        e.wf(),
    ensures
        j@ == e.value(),
        j.wf(),
    decreases e,
{
    match e {
        JsonExpr::Null => Json::Null,
        JsonExpr::Leaf(j) => j.duplicate(),
        JsonExpr::Array(v) => {
            let mut out: Vec<Json> = Vec::new();
            let mut i: usize = 0;
            #[verifier::loop_isolation(false)]
            while i < v.len()
                invariant
                    i <= v@.len(),
                    out@.len() == i,
                    forall|j: int| 0 <= j < i ==> #[trigger] out@[j]@ == v@[j].value(),
                    forall|j: int| 0 <= j < i ==> #[trigger] out@[j].wf(),
                decreases v@.len() - i,
            {
                let c = build(&v[i]);
                out.push(c);
                i += 1;
            }
            proof {
                lemma_arr_view_of(out@);
                lemma_expr_arr_vals(v@);
                assert(arr_view_of(out@) =~= expr_arr_vals(v@));
            }
            proof {
                lemma_wf_array(out);
            }
            Json::Array(out)
        },
        JsonExpr::Object(ps) => {
            let mut out: Vec<(String, Json)> = Vec::new();
            let mut i: usize = 0;
            #[verifier::loop_isolation(false)]
            while i < ps.len()
                invariant
                    i <= ps@.len(),
                    keys_unique(out@),
                    forall|j: int| 0 <= j < out@.len() ==> #[trigger] out@[j].1.wf(),
                    obj_map_of(out@) == expr_obj_map(ps@.subrange(0, i as int)),
                decreases ps@.len() - i,
            {
                let key = ps[i].0.clone();
                let val = build(&ps[i].1);
                insert_pair(&mut out, key, val);
                proof {
                    lemma_expr_obj_map_prefix(ps@, i as int);
                }
                i += 1;
            }
            proof {
                assert(ps@.subrange(0, ps@.len() as int) =~= ps@);
                lemma_wf_object(out);
            }
            Json::Object(out)
        },
    }
}

/// Derive a literal description of a built value; rebuilding it denotes the
/// same abstract value.
pub fn to_expr(v: &Json) -> (e: JsonExpr)
    requires
        v.wf(),
    ensures
        e.value() == v@,
        e.wf(),
    decreases v,
{
    match v {
        Json::Null => JsonExpr::Null,
        Json::Boolean(b) => JsonExpr::Leaf(Json::Boolean(*b)),
        Json::Number(bits) => JsonExpr::Leaf(Json::Number(*bits)),
        Json::String(s) => JsonExpr::Leaf(Json::String(s.clone())),
        Json::Array(arr) => {
            let mut out: Vec<JsonExpr> = Vec::new();
            let mut i: usize = 0;
            #[verifier::loop_isolation(false)]
            while i < arr.len()
                invariant
                    i <= arr@.len(),
                    out@.len() == i,
                    forall|j: int| 0 <= j < i ==> #[trigger] out@[j].value() == arr@[j]@,
                    forall|j: int| 0 <= j < i ==> #[trigger] out@[j].wf(),
                decreases arr@.len() - i,
            {
                proof {
                    assert(arr@[i as int].wf());
                }
                let c = to_expr(&arr[i]);
                out.push(c);
                i += 1;
            }
            proof {
                lemma_expr_arr_vals(out@);
                lemma_arr_view_of(arr@);
                assert(expr_arr_vals(out@) =~= arr_view_of(arr@));
                lemma_wf_expr_array(out);
            }
            JsonExpr::Array(out)
        },
        Json::Object(ps) => {
            let mut out: Vec<(String, JsonExpr)> = Vec::new();
            let mut i: usize = 0;
            #[verifier::loop_isolation(false)]
            while i < ps.len()
                invariant
                    i <= ps@.len(),
                    out@.len() == i,
                    forall|j: int| 0 <= j < i ==> #[trigger] out@[j].0@ == ps@[j].0@,
                    forall|j: int| 0 <= j < i ==> #[trigger] out@[j].1.value() == ps@[j].1@,
                    forall|j: int| 0 <= j < i ==> #[trigger] out@[j].1.wf(),
                decreases ps@.len() - i,
            {
                proof {
                    assert(ps@[i as int].1.wf());
                }
                let k = ps[i].0.clone();
                let c = to_expr(&ps[i].1);
                out.push((k, c));
                i += 1;
            }
            proof {
                lemma_obj_map_eq_expr(ps@, out@);
                lemma_wf_expr_object(out);
            }
            JsonExpr::Object(out)
        },
    }
}

/// Pair lists over values and over descriptions that agree pointwise on key
/// text and denoted value denote the same map.
proof fn lemma_obj_map_eq_expr(a: Seq<(String, Json)>, b: Seq<(String, JsonExpr)>)
    requires
        a.len() == b.len(),
        forall|i: int| 0 <= i < a.len() ==> a[i].0@ == b[i].0@ && a[i].1@ == b[i].1.value(),
    ensures
        obj_map_of(a) == expr_obj_map(b),
    decreases a,
{
    if a.len() > 0 {
        assert(forall|i: int| 0 <= i < a.len() - 1 ==> a.drop_last()[i] == a[i]);
        assert(forall|i: int| 0 <= i < b.len() - 1 ==> b.drop_last()[i] == b[i]);
        lemma_obj_map_eq_expr(a.drop_last(), b.drop_last());
        assert(a.last() == a[a.len() - 1]);
        assert(b.last() == b[b.len() - 1]);
    }
}

/// The position of the last pair of a key-value list that carries a key, or
/// a negative number when none does.
pub open spec fn last_index_of_key(ps: Seq<(String, JsonExpr)>, k: Seq<char>) -> int
    decreases ps,
{
    if ps.len() == 0 {
        -1
    } else if ps.last().0@ == k {
        ps.len() - 1
    } else {
        last_index_of_key(ps.drop_last(), k)
    }
}

/// Duplicate keys collapse silently, last write wins: when one or more
/// pairs of a braced list carry the same key, the object that list denotes
/// maps the key to the value of the pair written last, and no error is
/// raised.
pub proof fn lemma_last_write_wins(ps: Seq<(String, JsonExpr)>, k: Seq<char>)
    requires
        exists|i: int| 0 <= i < ps.len() && ps[i].0@ == k,
    ensures
        ({
            let li = last_index_of_key(ps, k);
            &&& 0 <= li < ps.len()
            &&& ps[li].0@ == k
            &&& (forall|j: int| li < j < ps.len() ==> ps[j].0@ != k)
            &&& expr_obj_map(ps).contains_key(k)
            &&& expr_obj_map(ps)[k] == ps[li].1.value()
        }),
    decreases ps,
{
    let i = choose|i: int| 0 <= i < ps.len() && ps[i].0@ == k;
    if ps.last().0@ == k {
        assert(last_index_of_key(ps, k) == ps.len() - 1);
    } else {
        assert(forall|j: int| 0 <= j < ps.len() - 1 ==> ps.drop_last()[j] == ps[j]);
        assert(i < ps.len() - 1);
        assert(ps.drop_last()[i].0@ == k);
        lemma_last_write_wins(ps.drop_last(), k);
        let li = last_index_of_key(ps.drop_last(), k);
        assert(last_index_of_key(ps, k) == li);
        assert(ps[li] == ps.drop_last()[li]);
    }
}

/// Rebuild a value through a literal description derived from it. The
/// result is structurally equal to the input: the builder round-trips, with
/// object entries compared as a mapping regardless of order.
pub fn rebuild(v: &Json) -> (w: Json)
    requires
        v.wf(),
    ensures
        w@ == v@,
        w.wf(),
{
    let e = to_expr(v);
    build(&e)
}

} // verus!
