//! A structured JSON value: the envelope's transport shape, and the carrier
//! for the free-form extension values inside an authentication request.

use vstd::prelude::*;

verus! {

broadcast use vstd::std_specs::vec::group_vec_axioms, vstd::seq::group_seq_axioms;

/// Mathematical model of a JSON value, used by every contract of the codec.
pub enum JVal {
    Null,
    Bool(bool),
    Int(i64),
    Str(Seq<char>),
    Arr(Seq<JVal>),
    Obj(Seq<(Seq<char>, JVal)>),
}

/// A JSON value as held at run time. Numbers are restricted to 64-bit signed
/// integers: the envelope carries only integer numbers (a timestamp and a
/// signature counter).
#[derive(Debug, PartialEq, Eq)]
pub enum Json {
    Null,
    Bool(bool),
    Int(i64),
    Str(String),
    Arr(Vec<Json>),
    Obj(Vec<(String, Json)>),
}

impl Json {
    /// The mathematical value of this JSON tree.
    pub open spec fn jval(self) -> JVal
        decreases self,
    {
        match self {
            Json::Null => JVal::Null,
            Json::Bool(b) => JVal::Bool(b),
            Json::Int(i) => JVal::Int(i),
            Json::Str(s) => JVal::Str(s@),
            Json::Arr(items) => JVal::Arr(jvals_of(items@)),
            Json::Obj(pairs) => JVal::Obj(jpairs_of(pairs@)),
        }
    }
}

impl View for Json {
    type V = JVal;

    open spec fn view(&self) -> JVal {
        self.jval()
    }
}

/// The mathematical values of a sequence of JSON trees.
pub open spec fn jvals_of(items: Seq<Json>) -> Seq<JVal>
    decreases items,
{
    if items.len() == 0 {
        Seq::<JVal>::empty()
    } else {
        seq![items[0].jval()] + jvals_of(items.drop_first())
    }
}

/// The mathematical values of a sequence of JSON object members.
pub open spec fn jpairs_of(pairs: Seq<(String, Json)>) -> Seq<(Seq<char>, JVal)>
    decreases pairs,
{
    if pairs.len() == 0 {
        Seq::<(Seq<char>, JVal)>::empty()
    } else {
        seq![(pairs[0].0@, pairs[0].1.jval())] + jpairs_of(pairs.drop_first())
    }
}

/// Pointwise reading of `jvals_of`.
pub broadcast proof fn lemma_jvals_of_index(items: Seq<Json>)
    ensures
        #[trigger] jvals_of(items).len() == items.len(),
        forall|i: int| 0 <= i < items.len() ==> jvals_of(items)[i] == items[i].jval(),
    decreases items.len(),
{
    if items.len() > 0 {
        lemma_jvals_of_index(items.drop_first());
        assert forall|i: int| 0 <= i < items.len() implies jvals_of(items)[i]
            == items[i].jval() by {
            if i > 0 {
                assert(jvals_of(items)[i] == jvals_of(items.drop_first())[i - 1]);
            }
        }
    }
}

/// Pointwise reading of `jpairs_of`.
pub broadcast proof fn lemma_jpairs_of_index(pairs: Seq<(String, Json)>)
    ensures
        #[trigger] jpairs_of(pairs).len() == pairs.len(),
        forall|i: int|
            0 <= i < pairs.len() ==> jpairs_of(pairs)[i] == (pairs[i].0@, pairs[i].1.jval()),
    decreases pairs.len(),
{
    if pairs.len() > 0 {
        lemma_jpairs_of_index(pairs.drop_first());
        assert forall|i: int| 0 <= i < pairs.len() implies jpairs_of(pairs)[i] == (
            pairs[i].0@,
            pairs[i].1.jval(),
        ) by {
            if i > 0 {
                assert(jpairs_of(pairs)[i] == jpairs_of(pairs.drop_first())[i - 1]);
            }
        }
    }
}

/// A JSON tree and its mathematical value are built by the matching
/// constructors, with matching contents.
pub proof fn lemma_jval_shape(j: Json)
    ensures
        (j is Null) == (j.jval() is Null),
        (j is Bool) == (j.jval() is Bool),
        j is Bool ==> j.jval()->Bool_0 == j->Bool_0,
        (j is Int) == (j.jval() is Int),
        j is Int ==> j.jval()->Int_0 == j->Int_0,
        (j is Str) == (j.jval() is Str),
        j is Str ==> j.jval()->Str_0 == j->Str_0@,
        (j is Arr) == (j.jval() is Arr),
        j is Arr ==> j.jval()->Arr_0 == jvals_of(j->Arr_0@),
        (j is Obj) == (j.jval() is Obj),
        j is Obj ==> j.jval()->Obj_0 == jpairs_of(j->Obj_0@),
{
    match j {
        Json::Null => {},
        Json::Bool(_) => {},
        Json::Int(_) => {},
        Json::Str(_) => {},
        Json::Arr(_) => {},
        Json::Obj(_) => {},
    }
}

/// The first value stored under `key` among the members of a JSON object,
/// if any.
pub open spec fn spec_lookup(ms: Seq<(Seq<char>, JVal)>, key: Seq<char>) -> Option<JVal>
    decreases ms.len(),
{
    if ms.len() == 0 {
        None
    } else if ms[0].0 == key {
        Some(ms[0].1)
    } else {
        spec_lookup(ms.drop_first(), key)
    }
}

/// Finds the first member of a JSON object stored under `key`.
pub fn lookup<'a>(pairs: &'a Vec<(String, Json)>, key: &String) -> (r: Option<&'a Json>)
    ensures
        match r {
            Some(v) => spec_lookup(jpairs_of(pairs@), key@) == Some(v.jval()),
            None => spec_lookup(jpairs_of(pairs@), key@) is None,
        },
{
    proof {
        lemma_jpairs_of_index(pairs@);
    }
    let ghost ms = jpairs_of(pairs@);
    assert(ms.skip(0) =~= ms);
    let mut i: usize = 0;
    while i < pairs.len()
        invariant
            i <= pairs.len(),
            ms == jpairs_of(pairs@),
            ms.len() == pairs@.len(),
            forall|k: int|
                0 <= k < pairs.len() ==> ms[k] == (pairs@[k].0@, pairs@[k].1.jval()),
            spec_lookup(ms, key@) == spec_lookup(ms.skip(i as int), key@),
        decreases pairs.len() - i,
    {
        assert(ms.skip(i as int)[0] == ms[i as int]);
        if pairs[i].0.eq(key) {
            return Some(&pairs[i].1);
        }
        assert(ms.skip(i as int).drop_first() =~= ms.skip(i as int + 1));
        assert(spec_lookup(ms.skip(i as int), key@) == spec_lookup(
            ms.skip(i as int + 1),
            key@,
        ));
        i = i + 1;
    }
    assert(ms.skip(pairs@.len() as int) =~= Seq::<(Seq<char>, JVal)>::empty());
    None
}

/// Copies a string, contents preserved.
pub fn clone_string(s: &String) -> (r: String)
    ensures
        r@ == s@,
{
    s.clone()
}

/// Copies a JSON tree, value preserved.
#[verifier::loop_isolation(false)]
pub fn clone_json(j: &Json) -> (r: Json)
    ensures
        r@ == j@,
    decreases j,
{
    match j {
        Json::Null => Json::Null,
        Json::Bool(b) => Json::Bool(*b),
        Json::Int(i) => Json::Int(*i),
        Json::Str(s) => Json::Str(s.clone()),
        Json::Arr(items) => {
            let mut out: Vec<Json> = Vec::new();
            let mut i: usize = 0;
            while i < items.len()
                invariant
                    i <= items.len(),
                    out@.len() == i,
                    forall|k: int| 0 <= k < i ==> out@[k].jval() == items@[k].jval(),
                decreases items.len() - i,
            {
                proof {
                    assert(decreases_to!(*j => j->Arr_0));
                    assert(decreases_to!(*items => items@));
                    assert(decreases_to!(items@ => items@[i as int]));
                }
                let c = clone_json(&items[i]);
                out.push(c);
                i = i + 1;
            }
            proof {
                lemma_jvals_of_index(out@);
                lemma_jvals_of_index(items@);
                assert(jvals_of(out@) =~= jvals_of(items@));
            }
            Json::Arr(out)
        },
        Json::Obj(pairs) => {
            let mut out: Vec<(String, Json)> = Vec::new();
            let mut i: usize = 0;
            while i < pairs.len()
                invariant
                    i <= pairs.len(),
                    out@.len() == i,
                    forall|k: int|
                        0 <= k < i ==> (out@[k].0@ == pairs@[k].0@ && out@[k].1.jval()
                            == pairs@[k].1.jval()),
                decreases pairs.len() - i,
            {
                proof {
                    assert(decreases_to!(*j => j->Obj_0));
                    assert(decreases_to!(*pairs => pairs@));
                    assert(decreases_to!(pairs@ => pairs@[i as int]));
                    assert(decreases_to!(pairs@[i as int] => pairs@[i as int].1));
                }
                let key = pairs[i].0.clone();
                let val = clone_json(&pairs[i].1);
                out.push((key, val));
                i = i + 1;
            }
            proof {
                lemma_jpairs_of_index(out@);
                lemma_jpairs_of_index(pairs@);
                assert(jpairs_of(out@) =~= jpairs_of(pairs@));
            }
            Json::Obj(out)
        },
    }
}

} // verus!
