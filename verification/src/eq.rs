use vstd::prelude::*;

use crate::json::{
    arr_view_of, keys_unique, lemma_arr_view_of, lemma_obj_map_contains, lemma_obj_map_len,
    lemma_obj_map_value, obj_map_of, Json, JsonVal,
};
use vstd::set_lib::lemma_subset_equality;

verus! {

/// Index of the pair carrying a key, if any.
fn find_key(qs: &Vec<(String, Json)>, k: &String) -> (r: Option<usize>)
    ensures
        match r {
            Some(j) => (j as int) < qs@.len() && qs@[j as int].0@ == k@,
            None => forall|j: int| 0 <= j < qs@.len() ==> qs@[j].0@ != k@,
        },
{
    let mut i: usize = 0;
    #[verifier::loop_isolation(false)]
    while i < qs.len()
        invariant
            i <= qs@.len(),
            forall|j: int| 0 <= j < i ==> #[trigger] qs@[j].0@ != k@,
        decreases qs@.len() - i,
    {
        if qs[i].0 == *k {
            return Some(i);
        }
        i += 1;
    }
    None
}

/// Structural equality of document values: equal exactly when the two trees
/// denote the same abstract value, so objects are compared as key-to-value
/// mappings regardless of the order their entries were written in, never by
/// reference or by entry position.
pub fn json_eq(a: &Json, b: &Json) -> (r: bool)
    requires
        a.wf(),
        b.wf(),
    ensures
        r == (a@ == b@),
    decreases a,
{
    match (a, b) {
        (Json::Null, Json::Null) => true,
        (Json::Boolean(x), Json::Boolean(y)) => *x == *y,
        (Json::Number(x), Json::Number(y)) => *x == *y,
        (Json::String(x), Json::String(y)) => *x == *y,
        (Json::Array(u), Json::Array(v)) => {
            proof {
                lemma_arr_view_of(u@);
                lemma_arr_view_of(v@);
            }
            if u.len() != v.len() {
                proof {
                    assert(arr_view_of(u@).len() != arr_view_of(v@).len());
                }
                return false;
            }
            let mut i: usize = 0;
            #[verifier::loop_isolation(false)]
            while i < u.len()
                invariant
                    i <= u@.len(),
                    u@.len() == v@.len(),
                    forall|j: int| 0 <= j < i ==> #[trigger] u@[j]@ == v@[j]@,
                decreases u@.len() - i,
            {
                proof {
                    assert(u@[i as int].wf());
                    assert(v@[i as int].wf());
                }
                if !json_eq(&u[i], &v[i]) {
                    proof {
                        assert(arr_view_of(u@)[i as int] != arr_view_of(v@)[i as int]);
                    }
                    return false;
                }
                i += 1;
            }
            proof {
                assert(arr_view_of(u@) =~= arr_view_of(v@));
            }
            true
        },
        (Json::Object(ps), Json::Object(qs)) => {
            proof {
                assert(keys_unique(ps@));
                assert(keys_unique(qs@));
                lemma_obj_map_len(ps@);
                lemma_obj_map_len(qs@);
            }
            if ps.len() != qs.len() {
                proof {
                    assert(obj_map_of(ps@).dom().len() != obj_map_of(qs@).dom().len());
                }
                return false;
            }
            let mut i: usize = 0;
            #[verifier::loop_isolation(false)]
            while i < ps.len()
                invariant
                    i <= ps@.len(),
                    forall|j: int| 0 <= j < i ==> obj_map_of(qs@).contains_key(
                        #[trigger] ps@[j].0@,
                    ) && obj_map_of(qs@)[ps@[j].0@] == ps@[j].1@,
                decreases ps@.len() - i,
            {
                proof {
                    lemma_obj_map_value(ps@, i as int);
                    assert(ps@[i as int].1.wf());
                }
                let found = find_key(qs, &ps[i].0);
                match found {
                    None => {
                        proof {
                            lemma_obj_map_contains(qs@, ps@[i as int].0@);
                            assert(!obj_map_of(qs@).contains_key(ps@[i as int].0@));
                            assert(obj_map_of(ps@).contains_key(ps@[i as int].0@));
                        }
                        return false;
                    },
                    Some(j) => {
                        proof {
                            lemma_obj_map_value(qs@, j as int);
                            assert(qs@[j as int].1.wf());
                        }
                        if !json_eq(&ps[i].1, &qs[j].1) {
                            proof {
                                assert(obj_map_of(ps@)[ps@[i as int].0@] == ps@[i as int].1@);
                                assert(obj_map_of(qs@)[ps@[i as int].0@] == qs@[j as int].1@);
                            }
                            return false;
                        }
                    },
                }
                i += 1;
            }
            proof {
                let m1 = obj_map_of(ps@);
                let m2 = obj_map_of(qs@);
                assert forall|k: Seq<char>| #[trigger] m1.dom().contains(k) implies m2.dom()
                    .contains(k) && m1[k] == m2[k] by {
                    assert(m1.contains_key(k));
                    lemma_obj_map_contains(ps@, k);
                    let j = choose|j: int| 0 <= j < ps@.len() && ps@[j].0@ == k;
                    lemma_obj_map_value(ps@, j);
                    assert(obj_map_of(qs@).contains_key(ps@[j].0@));
                    assert(m2.dom().contains(k));
                }
                assert(m1.dom().subset_of(m2.dom()));
                lemma_subset_equality(m1.dom(), m2.dom());
                assert(m1 =~= m2);
            }
            true
        },
        _ => {
            proof {
                assert(a@ != b@);
            }
            false
        },
    }
}

/// Structural equality is reflexive: every abstract document value equals
/// itself, so `json_eq(x, x)` holds for every well-formed tree `x`.
pub proof fn lemma_eq_reflexive(v: JsonVal)
    ensures
        v == v,
{
}

/// Structural equality is symmetric: the order of comparison is immaterial.
pub proof fn lemma_eq_symmetric(a: JsonVal, b: JsonVal)
    ensures
        (a == b) <==> (b == a),
{
}

/// Structural equality is transitive.
pub proof fn lemma_eq_transitive(a: JsonVal, b: JsonVal, c: JsonVal)
    requires
        a == b,
        b == c,
    ensures
        a == c,
{
}

/// Equality is structural, not reference-based: any two trees denoting the
/// same abstract value are equal, in particular two trees built
/// independently from one literal description (the builder's contract fixes
/// the abstract value of its result to the value the description denotes).
pub proof fn lemma_independent_builds_equal(e: crate::builder::JsonExpr, j1: Json, j2: Json)
    requires
        j1@ == e.value(),
        j2@ == e.value(),
    ensures
        j1@ == j2@,
{
}

} // verus!
