//! A small JSON value type with an exact mathematical model.
//!
//! The provider speaks JSON everywhere: job content is newline-delimited JSON
//! records, results come back the same way, and response-format schemas are
//! JSON documents. This module gives the crate one tree type for all of it,
//! with a spec-level twin ([`JsonV`]) that contracts are written over, a
//! deterministic serializer ([`text`]) and a parser ([`parse`]).
//!
//! Numbers are kept as their literal text: the crate never does arithmetic on
//! JSON numbers, and keeping the literal makes serialization deterministic
//! and lossless without floating point.

use vstd::prelude::*;

pub mod parse;
pub mod text;

verus! {

/// A JSON value.
///
/// Object members keep their order; keys are expected to be unique (the
/// parser enforces this, see [`parse`]). A [`Json::Num`] holds the number's
/// literal text exactly as it was parsed or formatted.
#[derive(Debug, PartialEq, Eq)]
pub enum Json {
    /// The literal `null`.
    Null,
    /// A boolean.
    Bool(bool),
    /// A number, as its literal text (for example `-12.5e3`).
    Num(String),
    /// A string.
    Str(String),
    /// An array.
    Arr(Vec<Json>),
    /// An object: a list of key/value members in order.
    Obj(Vec<(String, Json)>),
}

/// The mathematical model of a JSON value: the same tree over `Seq`.
pub enum JsonV {
    /// The literal `null`.
    Null,
    /// A boolean.
    Bool(bool),
    /// A number, as its literal text.
    Num(Seq<char>),
    /// A string.
    Str(Seq<char>),
    /// An array.
    Arr(Seq<JsonV>),
    /// An object.
    Obj(Seq<(Seq<char>, JsonV)>),
}

impl View for Json {
    type V = JsonV;

    open spec fn view(&self) -> JsonV
        decreases self,
    {
        match self {
            Json::Null => JsonV::Null,
            Json::Bool(b) => JsonV::Bool(*b),
            Json::Num(s) => JsonV::Num(s@),
            Json::Str(s) => JsonV::Str(s@),
            Json::Arr(items) => JsonV::Arr(view_list(items@)),
            Json::Obj(entries) => JsonV::Obj(view_entries(entries@)),
        }
    }
}

/// The model of a list of JSON values.
pub open spec fn view_list(l: Seq<Json>) -> Seq<JsonV>
    decreases l,
{
    if l.len() == 0 {
        Seq::empty()
    } else {
        view_list(l.drop_last()).push(l.last()@)
    }
}

/// The model of a list of JSON object members.
pub open spec fn view_entries(l: Seq<(String, Json)>) -> Seq<(Seq<char>, JsonV)>
    decreases l,
{
    if l.len() == 0 {
        Seq::empty()
    } else {
        view_entries(l.drop_last()).push((l.last().0@, l.last().1@))
    }
}

/// The model of a list is the element-wise model.
pub proof fn lemma_view_list(l: Seq<Json>)
    ensures
        view_list(l).len() == l.len(),
        forall|i: int| 0 <= i < l.len() ==> #[trigger] view_list(l)[i] == l[i]@,
    decreases l.len(),
{
    if l.len() != 0 {
        lemma_view_list(l.drop_last());
        assert(view_list(l) == view_list(l.drop_last()).push(l.last()@));
        assert(view_list(l.drop_last()).len() == l.len() - 1);
        assert(view_list(l).len() == l.len());
        assert forall|i: int| 0 <= i < l.len() implies #[trigger] view_list(l)[i] == l[i]@ by {
            if i < l.len() - 1 {
                assert(view_list(l)[i] == view_list(l.drop_last())[i]);
                assert(l.drop_last()[i] == l[i]);
            }
        }
    }
}

/// The model of a member list is the element-wise model.
pub proof fn lemma_view_entries(l: Seq<(String, Json)>)
    ensures
        view_entries(l).len() == l.len(),
        forall|i: int|
            0 <= i < l.len() ==> #[trigger] view_entries(l)[i] == (l[i].0@, l[i].1@),
    decreases l.len(),
{
    if l.len() != 0 {
        lemma_view_entries(l.drop_last());
        assert(view_entries(l) == view_entries(l.drop_last()).push((l.last().0@, l.last().1@)));
        assert(view_entries(l.drop_last()).len() == l.len() - 1);
        assert(view_entries(l).len() == l.len());
        assert forall|i: int|
            0 <= i < l.len() implies #[trigger] view_entries(l)[i] == (l[i].0@, l[i].1@) by {
            if i < l.len() - 1 {
                assert(view_entries(l)[i] == view_entries(l.drop_last())[i]);
                assert(l.drop_last()[i] == l[i]);
            }
        }
    }
}

/// Inserting a value at the front inserts its model at the front.
pub proof fn lemma_view_list_insert0(l0: Seq<Json>, v: Json)
    ensures
        view_list(l0.insert(0, v)) == seq![v@] + view_list(l0),
{
    let ins = l0.insert(0, v);
    l0.insert_ensures(0, v);
    lemma_view_list(l0);
    lemma_view_list(ins);
    assert forall|t: int| 0 <= t < ins.len() implies view_list(ins)[t] == (seq![v@] + view_list(
        l0,
    ))[t] by {
        assert(view_list(ins)[t] == ins[t]@);
        if t == 0 {
            assert(ins[0] == v);
        } else {
            assert(ins[t] == l0[t - 1]);
            assert(view_list(l0)[t - 1] == l0[t - 1]@);
        }
    }
    assert(view_list(ins) =~= seq![v@] + view_list(l0));
}

/// Inserting a member at the front inserts its model at the front.
pub proof fn lemma_view_entries_insert0(l0: Seq<(String, Json)>, e: (String, Json))
    ensures
        view_entries(l0.insert(0, e)) == seq![(e.0@, e.1@)] + view_entries(l0),
{
    let ins = l0.insert(0, e);
    l0.insert_ensures(0, e);
    lemma_view_entries(l0);
    lemma_view_entries(ins);
    assert forall|t: int|
        0 <= t < ins.len() implies view_entries(ins)[t] == (seq![(e.0@, e.1@)] + view_entries(
        l0,
    ))[t] by {
        assert(view_entries(ins)[t] == (ins[t].0@, ins[t].1@));
        if t == 0 {
            assert(ins[0] == e);
        } else {
            assert(ins[t] == l0[t - 1]);
            assert(view_entries(l0)[t - 1] == (l0[t - 1].0@, l0[t - 1].1@));
        }
    }
    assert(view_entries(ins) =~= seq![(e.0@, e.1@)] + view_entries(l0));
}

/// The value of the member with the given key, if any.
///
/// When a key is repeated the latest member wins; the parser rejects such
/// objects, so this only matters for values built by hand.
pub open spec fn obj_get(entries: Seq<(Seq<char>, JsonV)>, key: Seq<char>) -> Option<JsonV>
    decreases entries.len(),
{
    if entries.len() == 0 {
        None
    } else if entries.last().0 == key {
        Some(entries.last().1)
    } else {
        obj_get(entries.drop_last(), key)
    }
}

/// True when some member has the given key.
pub open spec fn obj_has(entries: Seq<(Seq<char>, JsonV)>, key: Seq<char>) -> bool {
    obj_get(entries, key) is Some
}

impl Json {
    /// A deep copy of the value; its model is unchanged.
    #[verifier::loop_isolation(false)]
    pub fn deep_clone(&self) -> (r: Json)
        ensures
            r@ == self@,
        decreases self,
    {
        match self {
            Json::Null => Json::Null,
            Json::Bool(b) => Json::Bool(*b),
            Json::Num(s) => Json::Num(s.clone()),
            Json::Str(s) => Json::Str(s.clone()),
            Json::Arr(items) => {
                let mut out: Vec<Json> = Vec::new();
                let n = items.len();
                let mut i: usize = 0;
                while i < n
                    invariant
                        i <= n,
                        n == items.len(),
                        out@.len() == i,
                        forall|k: int| 0 <= k < i ==> #[trigger] out@[k]@ == items@[k]@,
                    decreases n - i,
                {
                    proof {
                        assert(decreases_to!(self => items));
                        assert(decreases_to!(items => items@));
                        assert(decreases_to!(items@ => items@[i as int]));
                    }
                    let c = items[i].deep_clone();
                    out.push(c);
                    i = i + 1;
                }
                proof {
                    lemma_view_list(out@);
                    lemma_view_list(items@);
                    assert forall|k: int|
                        0 <= k < n implies view_list(out@)[k] == view_list(items@)[k] by {
                        assert(out@[k]@ == items@[k]@);
                    }
                    assert(view_list(out@) =~= view_list(items@));
                }
                Json::Arr(out)
            },
            Json::Obj(entries) => {
                let mut out: Vec<(String, Json)> = Vec::new();
                let n = entries.len();
                let mut i: usize = 0;
                while i < n
                    invariant
                        i <= n,
                        n == entries.len(),
                        out@.len() == i,
                        forall|k: int|
                            0 <= k < i ==> (#[trigger] out@[k]).0@ == entries@[k].0@ && out@[k].1@
                                == entries@[k].1@,
                    decreases n - i,
                {
                    proof {
                        assert(decreases_to!(self => entries));
                        assert(decreases_to!(entries => entries@));
                        assert(decreases_to!(entries@ => entries@[i as int]));
                        assert(decreases_to!(entries@[i as int] => entries@[i as int].1));
                    }
                    let k = entries[i].0.clone();
                    let v = entries[i].1.deep_clone();
                    out.push((k, v));
                    i = i + 1;
                }
                proof {
                    lemma_view_entries(out@);
                    lemma_view_entries(entries@);
                    assert forall|k: int|
                        0 <= k < n implies view_entries(out@)[k] == view_entries(entries@)[k] by {
                        assert(out@[k].0@ == entries@[k].0@ && out@[k].1@ == entries@[k].1@);
                    }
                    assert(view_entries(out@) =~= view_entries(entries@));
                }
                Json::Obj(out)
            },
        }
    }

    /// A number value for an unsigned integer.
    pub fn num_u64(n: u64) -> (r: Json)
        ensures
            r@ == JsonV::Num(crate::strutil::dec_chars(n as nat)),
    {
        Json::Num(crate::strutil::u64_to_string(n))
    }

    /// Looks up the first member with the given key of an object value.
    ///
    /// Returns `None` when `self` is not an object or has no such member.
    pub fn get<'a>(&'a self, key: &str) -> (r: Option<&'a Json>)
        ensures
            match self@ {
                JsonV::Obj(entries) => match r {
                    Some(v) => obj_get(entries, key@) == Some(v@),
                    None => !obj_has(entries, key@),
                },
                _ => r is None,
            },
    {
        match self {
            Json::Obj(entries) => obj_find(entries, key),
            _ => None,
        }
    }
}

/// Looks up the member with the given key in a member list, latest first.
pub fn obj_find<'a>(entries: &'a Vec<(String, Json)>, key: &str) -> (r: Option<&'a Json>)
    ensures
        match r {
            Some(v) => obj_get(view_entries(entries@), key@) == Some(v@),
            None => !obj_has(view_entries(entries@), key@),
        },
{
    let n = entries.len();
    proof {
        lemma_view_entries(entries@);
        assert(view_entries(entries@).take(n as int) =~= view_entries(entries@));
    }
    let mut i: usize = n;
    while i > 0
        invariant
            i <= n,
            n == entries.len(),
            obj_get(view_entries(entries@), key@) == obj_get(
                view_entries(entries@).take(i as int),
                key@,
            ),
        decreases i,
    {
        i = i - 1;
        proof {
            lemma_view_entries(entries@);
            assert(view_entries(entries@).take(i + 1 as int).drop_last() =~= view_entries(
                entries@,
            ).take(i as int));
            assert(view_entries(entries@).take(i + 1 as int).last() == view_entries(
                entries@,
            )[i as int]);
        }
        if crate::strutil::str_eq(entries[i].0.as_str(), key) {
            return Some(&entries[i].1);
        }
    }
    proof {
        assert(view_entries(entries@).take(0) =~= Seq::<(Seq<char>, JsonV)>::empty());
    }
    None
}

} // verus!
