use vstd::prelude::*;

verus! {

/// The mathematical model of a document value: a tagged tree whose object
/// nodes are finite maps from key to child, so that two objects written in
/// different orders are the same value.
///
/// A number is carried as the bit pattern of an IEEE 754 double.
pub enum JsonVal {
    Null,
    Boolean(bool),
    Number(u64),
    String(Seq<char>),
    Array(Seq<JsonVal>),
    Object(Map<Seq<char>, JsonVal>),
}

/// An in-memory document value.
///
/// `Number` holds the bit pattern of an IEEE 754 double; every numeric
/// source type is normalized to that representation on construction.
/// `Object` holds its entries as a list of pairs whose keys are unique
/// (see [`Json::wf`]); the abstract value is the key-to-value map, so the
/// order of the pairs carries no meaning.
#[derive(Debug)]
pub enum Json {
    Null,
    Boolean(bool),
    Number(u64),
    String(String),
    Array(Vec<Json>),
    Object(Vec<(String, Json)>),
}

/// The sequence of abstract values of a list of document values.
pub open spec fn arr_view_of(v: Seq<Json>) -> Seq<JsonVal>
    decreases v,
{
    if v.len() == 0 {
        Seq::empty()
    } else {
        arr_view_of(v.drop_last()).push(v.last()@)
    }
}

/// The map denoted by a list of key-value pairs: entries are inserted left
/// to right, so on a duplicate key the rightmost (last-written) value wins.
pub open spec fn obj_map_of(ps: Seq<(String, Json)>) -> Map<Seq<char>, JsonVal>
    decreases ps,
{
    if ps.len() == 0 {
        Map::empty()
    } else {
        obj_map_of(ps.drop_last()).insert(ps.last().0@, ps.last().1@)
    }
}

impl View for Json {
    type V = JsonVal;

    open spec fn view(&self) -> JsonVal
        decreases self,
    {
        match self {
            Json::Null => JsonVal::Null,
            Json::Boolean(b) => JsonVal::Boolean(*b),
            Json::Number(bits) => JsonVal::Number(*bits),
            Json::String(s) => JsonVal::String(s@),
            Json::Array(v) => JsonVal::Array(arr_view_of(v@)),
            Json::Object(ps) => JsonVal::Object(obj_map_of(ps@)),
        }
    }
}

pub broadcast proof fn lemma_arr_view_of(v: Seq<Json>)
    ensures
        #[trigger] arr_view_of(v).len() == v.len(),
        forall|i: int| 0 <= i < v.len() ==> arr_view_of(v)[i] == v[i]@,
    decreases v,
{
    if v.len() > 0 {
        lemma_arr_view_of(v.drop_last());
        assert(forall|i: int| 0 <= i < v.len() - 1 ==> v.drop_last()[i] == v[i]);
        assert(arr_view_of(v) == arr_view_of(v.drop_last()).push(v.last()@));
        assert forall|i: int| 0 <= i < v.len() implies arr_view_of(v)[i] == v[i]@ by {
            if i < v.len() - 1 {
                assert(arr_view_of(v)[i] == arr_view_of(v.drop_last())[i]);
            } else {
                assert(v[i] == v.last());
            }
        }
    }
}

/// The keys of a pair list are pairwise distinct.
pub open spec fn keys_unique(ps: Seq<(String, Json)>) -> bool {
    forall|i: int, j: int| 0 <= i < j < ps.len() ==> ps[i].0@ != ps[j].0@
}

impl Json {
    /// Well-formed: every object node in the tree has unique keys.
    pub open spec fn wf(self) -> bool
        decreases self,
    {
        match self {
            Json::Null => true,
            Json::Boolean(_) => true,
            Json::Number(_) => true,
            Json::String(_) => true,
            Json::Array(v) => forall|i: int| 0 <= i < v@.len() ==> v@[i].wf(),
            Json::Object(ps) => {
                &&& keys_unique(ps@)
                &&& forall|i: int| 0 <= i < ps@.len() ==> ps@[i].1.wf()
            },
        }
    }
}

/// An array node over well-formed children is well-formed.
pub proof fn lemma_wf_array(v: Vec<Json>)
    requires
        forall|i: int| 0 <= i < v@.len() ==> v@[i].wf(),
    ensures
        (Json::Array(v)).wf(),
{
}

/// An object node with unique keys over well-formed children is well-formed.
pub proof fn lemma_wf_object(ps: Vec<(String, Json)>)
    requires
        keys_unique(ps@),
        forall|i: int| 0 <= i < ps@.len() ==> ps@[i].1.wf(),
    ensures
        (Json::Object(ps)).wf(),
{
}

/// A key is in the map exactly when some pair carries it.
pub broadcast proof fn lemma_obj_map_contains(ps: Seq<(String, Json)>, k: Seq<char>)
    ensures
        #[trigger] obj_map_of(ps).contains_key(k) <==> exists|i: int|
            0 <= i < ps.len() && ps[i].0@ == k,
    decreases ps,
{
    if ps.len() > 0 {
        lemma_obj_map_contains(ps.drop_last(), k);
        assert(forall|i: int| 0 <= i < ps.len() - 1 ==> ps.drop_last()[i] == ps[i]);
        assert(obj_map_of(ps) == obj_map_of(ps.drop_last()).insert(ps.last().0@, ps.last().1@));
        assert(obj_map_of(ps).contains_key(k) <==> (k == ps.last().0@ || obj_map_of(
            ps.drop_last(),
        ).contains_key(k)));
        if obj_map_of(ps).contains_key(k) {
            if ps.last().0@ == k {
                assert(ps[ps.len() - 1].0@ == k);
            } else {
                assert(obj_map_of(ps.drop_last()).contains_key(k));
                let i = choose|i: int|
                    0 <= i < ps.drop_last().len() && ps.drop_last()[i].0@ == k;
                assert(ps[i].0@ == k);
            }
        }
        if exists|i: int| 0 <= i < ps.len() && ps[i].0@ == k {
            let i = choose|i: int| 0 <= i < ps.len() && ps[i].0@ == k;
            if i < ps.len() - 1 {
                assert(ps.drop_last()[i].0@ == k);
            } else {
                assert(ps.last().0@ == k);
            }
            assert(obj_map_of(ps).contains_key(k));
        }
    }
}

/// Under unique keys, the pair carrying a key decides its value in the map.
pub proof fn lemma_obj_map_value(ps: Seq<(String, Json)>, i: int)
    requires
        keys_unique(ps),
        0 <= i < ps.len(),
    ensures
        obj_map_of(ps).contains_key(ps[i].0@),
        obj_map_of(ps)[ps[i].0@] == ps[i].1@,
    decreases ps,
{
    lemma_obj_map_contains(ps, ps[i].0@);
    assert(obj_map_of(ps) == obj_map_of(ps.drop_last()).insert(ps.last().0@, ps.last().1@));
    if i < ps.len() - 1 {
        assert(ps[i].0@ != ps.last().0@);
        assert(forall|x: int| 0 <= x < ps.len() - 1 ==> ps.drop_last()[x] == ps[x]);
        assert(keys_unique(ps.drop_last()));
        lemma_obj_map_value(ps.drop_last(), i);
        assert(obj_map_of(ps)[ps[i].0@] == obj_map_of(ps.drop_last())[ps[i].0@]);
    } else {
        assert(ps[i] == ps.last());
        assert(obj_map_of(ps)[ps[i].0@] == ps.last().1@);
    }
}

/// Under unique keys, the map has exactly as many entries as the pair list.
pub proof fn lemma_obj_map_len(ps: Seq<(String, Json)>)
    requires
        keys_unique(ps),
    ensures
        obj_map_of(ps).dom().finite(),
        obj_map_of(ps).dom().len() == ps.len(),
    decreases ps,
{
    if ps.len() == 0 {
        assert(obj_map_of(ps).dom() =~= Set::<Seq<char>>::empty());
    } else {
        assert(forall|i: int| 0 <= i < ps.len() - 1 ==> ps.drop_last()[i] == ps[i]);
        assert(keys_unique(ps.drop_last()));
        lemma_obj_map_len(ps.drop_last());
        lemma_obj_map_contains(ps.drop_last(), ps.last().0@);
        assert(forall|x: int|
            0 <= x < ps.drop_last().len() ==> ps.drop_last()[x].0@ != ps.last().0@);
        assert(!obj_map_of(ps.drop_last()).contains_key(ps.last().0@));
        assert(obj_map_of(ps) == obj_map_of(ps.drop_last()).insert(ps.last().0@, ps.last().1@));
        assert(obj_map_of(ps).dom() =~= obj_map_of(ps.drop_last()).dom().insert(ps.last().0@));
    }
}

/// Appending a pair inserts its key-value view into the map.
pub proof fn lemma_obj_map_push(s: Seq<(String, Json)>, k: String, v: Json)
    ensures
        obj_map_of(s.push((k, v))) == obj_map_of(s).insert(k@, v@),
{
    assert(s.push((k, v)).drop_last() =~= s);
    assert(s.push((k, v)).last() == (k, v));
}

/// Removing the one pair that carries a key removes exactly that entry.
pub proof fn lemma_obj_map_remove(s: Seq<(String, Json)>, i: int)
    requires
        keys_unique(s),
        0 <= i < s.len(),
    ensures
        obj_map_of(s.remove(i)) == obj_map_of(s).remove(s[i].0@),
        keys_unique(s.remove(i)),
        forall|j: int| 0 <= j < s.len() - 1 ==> #[trigger] s.remove(i)[j].0@ != s[i].0@,
        forall|j: int| 0 <= j < s.len() - 1 ==> exists|j2: int|
            0 <= j2 < s.len() && #[trigger] s.remove(i)[j] == s[j2],
    decreases s,
{
    assert(forall|j: int| 0 <= j < i ==> s.remove(i)[j] == s[j]);
    assert(forall|j: int| i <= j < s.len() - 1 ==> s.remove(i)[j] == s[j + 1]);
    if i == s.len() - 1 {
        assert(s.remove(i) =~= s.drop_last());
        lemma_obj_map_contains(s.drop_last(), s[i].0@);
        assert(forall|j: int| 0 <= j < s.len() - 1 ==> s.drop_last()[j] == s[j]);
        assert(!obj_map_of(s.drop_last()).contains_key(s[i].0@));
        assert(obj_map_of(s) == obj_map_of(s.drop_last()).insert(s.last().0@, s.last().1@));
        assert(obj_map_of(s).remove(s[i].0@) =~= obj_map_of(s.drop_last()));
    } else {
        let k = s[i].0@;
        assert(forall|j: int| 0 <= j < s.len() - 1 ==> s.drop_last()[j] == s[j]);
        assert(keys_unique(s.drop_last()));
        lemma_obj_map_remove(s.drop_last(), i);
        assert(s.remove(i).drop_last() =~= s.drop_last().remove(i));
        assert(s.remove(i).last() == s.last());
        assert(obj_map_of(s.remove(i)) == obj_map_of(s.drop_last().remove(i)).insert(
            s.last().0@,
            s.last().1@,
        ));
        assert(s.last().0@ != k);
        assert(obj_map_of(s.drop_last()).remove(k).insert(s.last().0@, s.last().1@)
            =~= obj_map_of(s.drop_last()).insert(s.last().0@, s.last().1@).remove(k));
        assert(obj_map_of(s) == obj_map_of(s.drop_last()).insert(s.last().0@, s.last().1@));
    }
}

/// Pair lists that agree pointwise on key text and value views denote the
/// same map.
pub proof fn lemma_obj_map_congruence(a: Seq<(String, Json)>, b: Seq<(String, Json)>)
    requires
        a.len() == b.len(),
        forall|i: int| 0 <= i < a.len() ==> a[i].0@ == b[i].0@ && a[i].1@ == b[i].1@,
    ensures
        obj_map_of(a) == obj_map_of(b),
    decreases a,
{
    if a.len() > 0 {
        assert(forall|i: int| 0 <= i < a.len() - 1 ==> a.drop_last()[i] == a[i]);
        assert(forall|i: int| 0 <= i < b.len() - 1 ==> b.drop_last()[i] == b[i]);
        lemma_obj_map_congruence(a.drop_last(), b.drop_last());
        assert(a.last() == a[a.len() - 1]);
        assert(b.last() == b[b.len() - 1]);
    }
}

impl Json {
    /// A deep copy: the copy denotes the same abstract value, and copying a
    /// well-formed value yields a well-formed value.
    pub fn duplicate(&self) -> (r: Json)
        ensures
            r@ == self@,
            self.wf() ==> r.wf(),
        decreases self,
    {
        match self {
            Json::Null => Json::Null,
            Json::Boolean(b) => Json::Boolean(*b),
            Json::Number(bits) => Json::Number(*bits),
            Json::String(s) => Json::String(s.clone()),
            Json::Array(v) => {
                let mut out: Vec<Json> = Vec::new();
                let mut i: usize = 0;
                #[verifier::loop_isolation(false)]
                while i < v.len()
                    invariant
                        i <= v@.len(),
                        out@.len() == i,
                        forall|j: int| 0 <= j < i ==> #[trigger] out@[j]@ == v@[j]@,
                        forall|j: int| 0 <= j < i ==> v@[j].wf() ==> #[trigger] out@[j].wf(),
                    decreases v@.len() - i,
                {
                    let c = v[i].duplicate();
                    out.push(c);
                    i += 1;
                }
                proof {
                    lemma_arr_view_of(out@);
                    lemma_arr_view_of(v@);
                    assert(arr_view_of(out@) =~= arr_view_of(v@));
                    if self.wf() {
                        assert forall|j: int| 0 <= j < out@.len() implies out@[j].wf() by {
                            assert(v@[j].wf());
                        }
                    }
                }
                Json::Array(out)
            },
            Json::Object(ps) => {
                let mut out: Vec<(String, Json)> = Vec::new();
                let mut i: usize = 0;
                #[verifier::loop_isolation(false)]
                while i < ps.len()
                    invariant
                        i <= ps@.len(),
                        out@.len() == i,
                        forall|j: int| 0 <= j < i ==> #[trigger] out@[j].0@ == ps@[j].0@,
                        forall|j: int| 0 <= j < i ==> #[trigger] out@[j].1@ == ps@[j].1@,
                        forall|j: int| 0 <= j < i ==> ps@[j].1.wf() ==> #[trigger] out@[j].1.wf(),
                    decreases ps@.len() - i,
                {
                    let k = ps[i].0.clone();
                    let c = ps[i].1.duplicate();
                    out.push((k, c));
                    i += 1;
                }
                proof {
                    lemma_obj_map_congruence(out@, ps@);
                    if self.wf() {
                        assert forall|x: int, y: int|
                            0 <= x < y < out@.len() implies out@[x].0@ != out@[y].0@ by {
                            assert(ps@[x].0@ != ps@[y].0@);
                        }
                        assert forall|j: int| 0 <= j < out@.len() implies out@[j].1.wf() by {
                            assert(ps@[j].1.wf());
                        }
                    }
                }
                Json::Object(out)
            },
        }
    }
}

impl Clone for Json {
    /// Cloning is a deep copy and keeps the abstract value.
    fn clone(&self) -> (res: Json)
        ensures
            res@ == self@,
            self.wf() ==> res.wf(),
    {
        self.duplicate()
    }
}

} // verus!
