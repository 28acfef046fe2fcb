//! The schema canonicalizer.
//!
//! The provider's structured-output mode accepts a restricted JSON-Schema
//! dialect. [`OpenAiTransform`] rewrites an arbitrary schema into it: every
//! object-valued schema node that is not a bare `$ref` gets
//! `additionalProperties: false`, loses its `minimum`, `maximum` and `format`
//! keywords, and has its `required` array replaced by the full list of
//! declared property names in sorted order; a `oneOf` combinator is renamed
//! to `anyOf`. The rewrite recurses through every subschema position:
//! `properties`, `items`, combinators, definitions and so on.
//!
//! The whole transformation is the spec function [`canon`]; the executable
//! rewrite returns exactly `canon` of its input. Two laws are proved here:
//! canonicalization is idempotent ([`lemma_canon_idempotent`]), and every
//! schema node of the output is strict ([`lemma_canon_strict`]).

use vstd::prelude::*;

use crate::json::{obj_get, obj_has, view_entries, view_list, Json, JsonV};
use crate::json::{lemma_view_entries, lemma_view_list};
use crate::strutil::{lex_le, str_eq, str_lex_le};

verus! {

/// Keys whose value is a single subschema.
pub open spec fn is_single_sub(k: Seq<char>) -> bool {
    k == "not"@ || k == "if"@ || k == "then"@ || k == "else"@ || k == "contains"@ || k
        == "additionalProperties"@ || k == "propertyNames"@ || k == "additionalItems"@
}

/// Keys whose value is an array of subschemas.
pub open spec fn is_array_sub(k: Seq<char>) -> bool {
    k == "allOf"@ || k == "anyOf"@ || k == "oneOf"@ || k == "prefixItems"@
}

/// Keys whose value is an object mapping names to subschemas.
pub open spec fn is_map_sub(k: Seq<char>) -> bool {
    k == "properties"@ || k == "patternProperties"@ || k == "$defs"@ || k == "definitions"@
}

/// The member list without any member keyed `k`.
pub open spec fn ents_remove(l: Seq<(Seq<char>, JsonV)>, k: Seq<char>) -> Seq<(Seq<char>, JsonV)>
    decreases l.len(),
{
    if l.len() == 0 {
        l
    } else if l.last().0 == k {
        ents_remove(l.drop_last(), k)
    } else {
        ents_remove(l.drop_last(), k).push(l.last())
    }
}

/// The member list with the member keyed `k` set to `v`: the latest such
/// member is replaced in place, or a new member is added.
pub open spec fn ents_set(l: Seq<(Seq<char>, JsonV)>, k: Seq<char>, v: JsonV) -> Seq<
    (Seq<char>, JsonV),
>
    decreases l.len(),
{
    if l.len() == 0 {
        seq![(k, v)]
    } else if l.last().0 == k {
        l.drop_last().push((k, v))
    } else {
        ents_set(l.drop_last(), k, v).push(l.last())
    }
}

/// What removal leaves behind, seen through lookups.
pub proof fn lemma_remove_get(l: Seq<(Seq<char>, JsonV)>, k: Seq<char>, k2: Seq<char>)
    ensures
        obj_get(ents_remove(l, k), k2) == if k2 == k {
            None::<JsonV>
        } else {
            obj_get(l, k2)
        },
    decreases l.len(),
{
    if l.len() != 0 {
        lemma_remove_get(l.drop_last(), k, k2);
        if l.last().0 != k {
            let r = ents_remove(l.drop_last(), k).push(l.last());
            assert(r.last() == l.last());
            assert(r.drop_last() =~= ents_remove(l.drop_last(), k));
        }
    }
}

/// Removing a key that is not there changes nothing.
pub proof fn lemma_remove_absent(l: Seq<(Seq<char>, JsonV)>, k: Seq<char>)
    requires
        !obj_has(l, k),
    ensures
        ents_remove(l, k) == l,
    decreases l.len(),
{
    if l.len() != 0 {
        assert(l.last().0 != k);
        lemma_remove_absent(l.drop_last(), k);
        assert(ents_remove(l, k) =~= l);
    }
}

/// What setting leaves behind, seen through lookups.
pub proof fn lemma_set_get(l: Seq<(Seq<char>, JsonV)>, k: Seq<char>, v: JsonV, k2: Seq<char>)
    ensures
        obj_get(ents_set(l, k, v), k2) == if k2 == k {
            Some(v)
        } else {
            obj_get(l, k2)
        },
    decreases l.len(),
{
    if l.len() == 0 {
        let r = ents_set(l, k, v);
        assert(r.last() == (k, v));
        assert(r.drop_last() =~= l);
    } else if l.last().0 == k {
        let r = l.drop_last().push((k, v));
        assert(r.last() == (k, v));
        assert(r.drop_last() =~= l.drop_last());
    } else {
        lemma_set_get(l.drop_last(), k, v, k2);
        let r = ents_set(l.drop_last(), k, v).push(l.last());
        assert(r.last() == l.last());
        assert(r.drop_last() =~= ents_set(l.drop_last(), k, v));
    }
}

/// Setting a key to the value it already has changes nothing.
pub proof fn lemma_set_same(l: Seq<(Seq<char>, JsonV)>, k: Seq<char>, v: JsonV)
    requires
        obj_get(l, k) == Some(v),
    ensures
        ents_set(l, k, v) == l,
    decreases l.len(),
{
    if l.len() != 0 {
        if l.last().0 == k {
            assert(ents_set(l, k, v) =~= l);
        } else {
            lemma_set_same(l.drop_last(), k, v);
            assert(ents_set(l, k, v) =~= l);
        }
    }
}

/// Inserts a name into a sorted list of names, keeping it sorted.
pub open spec fn insert_sorted(l: Seq<Seq<char>>, x: Seq<char>) -> Seq<Seq<char>>
    decreases l.len(),
{
    if l.len() == 0 {
        seq![x]
    } else if lex_le(x, l.first()) {
        seq![x] + l
    } else {
        seq![l.first()] + insert_sorted(l.drop_first(), x)
    }
}

/// Sorts a list of names lexicographically.
pub open spec fn sort_names(l: Seq<Seq<char>>) -> Seq<Seq<char>>
    decreases l.len(),
{
    if l.len() == 0 {
        l
    } else {
        insert_sorted(sort_names(l.drop_last()), l.last())
    }
}

/// Non-decreasing lexicographic order.
pub open spec fn sorted_names(l: Seq<Seq<char>>) -> bool {
    forall|a: int, b: int| 0 <= a < b < l.len() ==> lex_le(#[trigger] l[a], #[trigger] l[b])
}

/// Insertion preserves sortedness, grows the list by one, and adds exactly
/// the inserted name.
pub proof fn lemma_insert_sorted(l: Seq<Seq<char>>, x: Seq<char>)
    requires
        sorted_names(l),
    ensures
        sorted_names(insert_sorted(l, x)),
        insert_sorted(l, x).len() == l.len() + 1,
        forall|y: Seq<char>|
            #![trigger insert_sorted(l, x).contains(y)]
            insert_sorted(l, x).contains(y) <==> (l.contains(y) || y == x),
    decreases l.len(),
{
    crate::strutil::lemma_lex_le_total(x, x);
    if l.len() == 0 {
        assert forall|y: Seq<char>|
            insert_sorted(l, x).contains(y) <==> (l.contains(y) || y == x) by {
            if y == x {
                assert(insert_sorted(l, x)[0] == x);
            }
        }
    } else if lex_le(x, l.first()) {
        let r = seq![x] + l;
        assert forall|a: int, b: int| 0 <= a < b < r.len() implies lex_le(r[a], r[b]) by {
            if a == 0 {
                if b == 1 {
                    assert(r[b] == l.first());
                } else {
                    assert(lex_le(l[0], l[b - 1]));
                    crate::strutil::lemma_lex_le_transitive(x, l[0], l[b - 1]);
                }
            }
        }
        assert forall|y: Seq<char>| r.contains(y) <==> (l.contains(y) || y == x) by {
            if y == x {
                assert(r[0] == x);
            }
            if l.contains(y) {
                let w = choose|w: int| 0 <= w < l.len() && l[w] == y;
                assert(r[w + 1] == y);
            }
            if r.contains(y) && y != x {
                let w = choose|w: int| 0 <= w < r.len() && r[w] == y;
                assert(w >= 1);
                assert(l[w - 1] == y);
            }
        }
    } else {
        crate::strutil::lemma_lex_le_total(x, l.first());
        assert(lex_le(l.first(), x));
        assert forall|a: int, b: int|
            0 <= a < b < l.drop_first().len() implies lex_le(
            #[trigger] l.drop_first()[a],
            #[trigger] l.drop_first()[b],
        ) by {
            assert(l.drop_first()[a] == l[a + 1]);
            assert(l.drop_first()[b] == l[b + 1]);
        }
        lemma_insert_sorted(l.drop_first(), x);
        assert(insert_sorted(l.drop_first(), x).contains(x));
        let t = insert_sorted(l.drop_first(), x);
        let r = seq![l.first()] + t;
        assert forall|a: int, b: int| 0 <= a < b < r.len() implies lex_le(r[a], r[b]) by {
            if a == 0 {
                assert(t.contains(r[b]));
                let w = choose|w: int| 0 <= w < t.len() && t[w] == r[b];
                if t[w] == x {
                    assert(lex_le(l.first(), x));
                } else {
                    assert(l.drop_first().contains(t[w]));
                    let u = choose|u: int| 0 <= u < l.drop_first().len() && l.drop_first()[u]
                        == t[w];
                    assert(l.drop_first()[u] == l[u + 1]);
                    assert(lex_le(l[0], l[u + 1]));
                }
            } else {
                assert(r[a] == t[a - 1] && r[b] == t[b - 1]);
            }
        }
        assert forall|y: Seq<char>| r.contains(y) <==> (l.contains(y) || y == x) by {
            if r.contains(y) {
                let w = choose|w: int| 0 <= w < r.len() && r[w] == y;
                if w == 0 {
                    assert(l[0] == y);
                } else {
                    assert(t.contains(y));
                    if y != x {
                        assert(l.drop_first().contains(y));
                        let u = choose|u: int|
                            0 <= u < l.drop_first().len() && l.drop_first()[u] == y;
                        assert(l[u + 1] == y);
                    }
                }
            }
            if y == x {
                assert(insert_sorted(l.drop_first(), x).contains(x) <==> (l.drop_first().contains(
                    x,
                ) || x == x));
                assert(t.contains(x));
                let w = choose|w: int| 0 <= w < t.len() && t[w] == x;
                assert(r[w + 1] == x);
            }
            if l.contains(y) {
                let w = choose|w: int| 0 <= w < l.len() && l[w] == y;
                if w == 0 {
                    assert(r[0] == y);
                } else {
                    assert(l.drop_first()[w - 1] == y);
                    assert(t.contains(y));
                    let u = choose|u: int| 0 <= u < t.len() && t[u] == y;
                    assert(r[u + 1] == y);
                }
            }
        }
    }
}

/// Sorting sorts, and neither adds nor drops names.
pub proof fn lemma_sort_names(l: Seq<Seq<char>>)
    ensures
        sorted_names(sort_names(l)),
        sort_names(l).len() == l.len(),
        forall|y: Seq<char>| #![trigger sort_names(l).contains(y)]
            sort_names(l).contains(y) <==> l.contains(y),
    decreases l.len(),
{
    if l.len() != 0 {
        lemma_sort_names(l.drop_last());
        lemma_insert_sorted(sort_names(l.drop_last()), l.last());
        assert forall|y: Seq<char>| sort_names(l).contains(y) <==> l.contains(y) by {
            if l.contains(y) {
                let w = choose|w: int| 0 <= w < l.len() && l[w] == y;
                if w < l.len() - 1 {
                    assert(l.drop_last()[w] == y);
                    assert(l.drop_last().contains(y));
                }
            }
            if l.drop_last().contains(y) {
                let w = choose|w: int| 0 <= w < l.drop_last().len() && l.drop_last()[w] == y;
                assert(l[w] == y);
            }
            if y == l.last() {
                assert(l[l.len() - 1] == y);
            }
        }
    }
}

/// The keys of a member list, in order.
pub open spec fn keys_of(l: Seq<(Seq<char>, JsonV)>) -> Seq<Seq<char>>
    decreases l.len(),
{
    if l.len() == 0 {
        Seq::empty()
    } else {
        keys_of(l.drop_last()).push(l.last().0)
    }
}

/// The declared property names of a schema node: the keys of its
/// `properties` object, or none.
pub open spec fn prop_names(l: Seq<(Seq<char>, JsonV)>) -> Seq<Seq<char>> {
    match obj_get(l, "properties"@) {
        Some(JsonV::Obj(p)) => keys_of(p),
        _ => Seq::empty(),
    }
}

/// Names as JSON string values.
pub open spec fn strs_of(names: Seq<Seq<char>>) -> Seq<JsonV>
    decreases names.len(),
{
    if names.len() == 0 {
        Seq::empty()
    } else {
        strs_of(names.drop_last()).push(JsonV::Str(names.last()))
    }
}

/// The canonical `required` array of a schema node: its property names,
/// sorted.
pub open spec fn required_value(l: Seq<(Seq<char>, JsonV)>) -> JsonV {
    JsonV::Arr(strs_of(sort_names(prop_names(l))))
}

/// Whether the node gets a `required` member at all: only when it declares
/// properties or already had one (so `{}` stays `{}`).
pub open spec fn needs_required(l: Seq<(Seq<char>, JsonV)>) -> bool {
    prop_names(l).len() > 0 || obj_has(l, "required"@)
}

/// The rewrite of one object node's own members: strictness enforcement
/// (skipped for bare references) and the `oneOf` to `anyOf` renaming.
pub open spec fn local_rewrite(l: Seq<(Seq<char>, JsonV)>) -> Seq<(Seq<char>, JsonV)> {
    let l3 = if obj_has(l, "$ref"@) {
        l
    } else {
        let l1 = ents_remove(ents_remove(ents_remove(l, "format"@), "minimum"@), "maximum"@);
        let l2 = ents_set(l1, "additionalProperties"@, JsonV::Bool(false));
        if needs_required(l2) {
            ents_set(l2, "required"@, required_value(l2))
        } else {
            l2
        }
    };
    match obj_get(l3, "oneOf"@) {
        Some(ov) => ents_remove(ents_set(l3, "anyOf"@, ov), "oneOf"@),
        None => l3,
    }
}

/// The canonical form of a schema value.
pub open spec fn canon(v: JsonV) -> JsonV
    decreases v, 0int,
{
    match v {
        JsonV::Obj(e) => JsonV::Obj(local_rewrite(canon_entries(e))),
        _ => v,
    }
}

/// The members of an object node with every subschema position canonicalized.
pub open spec fn canon_entries(l: Seq<(Seq<char>, JsonV)>) -> Seq<(Seq<char>, JsonV)>
    decreases l, 2int,
{
    if l.len() == 0 {
        l
    } else {
        canon_entries(l.drop_last()).push((l.last().0, canon_at(l.last().0, l.last().1)))
    }
}

/// The canonical form of the value at key `k`, by what the key means.
pub open spec fn canon_at(k: Seq<char>, v: JsonV) -> JsonV
    decreases v, 1int,
{
    if k == "items"@ {
        match v {
            JsonV::Arr(items) => JsonV::Arr(canon_list(items)),
            _ => canon(v),
        }
    } else if is_single_sub(k) {
        canon(v)
    } else if is_array_sub(k) {
        match v {
            JsonV::Arr(items) => JsonV::Arr(canon_list(items)),
            _ => v,
        }
    } else if is_map_sub(k) {
        match v {
            JsonV::Obj(p) => JsonV::Obj(canon_vals(p)),
            _ => v,
        }
    } else {
        v
    }
}

/// Each element canonicalized.
pub open spec fn canon_list(l: Seq<JsonV>) -> Seq<JsonV>
    decreases l, 0int,
{
    if l.len() == 0 {
        l
    } else {
        canon_list(l.drop_last()).push(canon(l.last()))
    }
}

/// Each member's value canonicalized, keys kept.
pub open spec fn canon_vals(l: Seq<(Seq<char>, JsonV)>) -> Seq<(Seq<char>, JsonV)>
    decreases l, 0int,
{
    if l.len() == 0 {
        l
    } else {
        canon_vals(l.drop_last()).push((l.last().0, canon(l.last().1)))
    }
}

/// Setting an absent key prepends the new member.
pub proof fn lemma_ents_set_absent(l: Seq<(Seq<char>, JsonV)>, k: Seq<char>, v: JsonV)
    requires
        !obj_has(l, k),
    ensures
        ents_set(l, k, v) == seq![(k, v)] + l,
    decreases l.len(),
{
    if l.len() == 0 {
        assert(ents_set(l, k, v) =~= seq![(k, v)] + l);
    } else {
        assert(l.last().0 != k);
        lemma_ents_set_absent(l.drop_last(), k, v);
        assert(ents_set(l, k, v) =~= seq![(k, v)] + l);
    }
}

/// Setting a key whose latest occurrence is at `idx` updates that member in
/// place.
pub proof fn lemma_ents_set_update(l: Seq<(Seq<char>, JsonV)>, k: Seq<char>, v: JsonV, idx: int)
    requires
        0 <= idx < l.len(),
        l[idx].0 == k,
        forall|t: int| idx < t < l.len() ==> (#[trigger] l[t]).0 != k,
    ensures
        ents_set(l, k, v) == l.update(idx, (k, v)),
    decreases l.len(),
{
    if idx == l.len() - 1 {
        assert(l.last().0 == k);
        assert(ents_set(l, k, v) =~= l.update(idx, (k, v)));
    } else {
        assert(l.last().0 != k);
        assert(forall|t: int|
            idx < t < l.drop_last().len() ==> (#[trigger] l.drop_last()[t]).0 != k);
        lemma_ents_set_update(l.drop_last(), k, v, idx);
        assert(ents_set(l, k, v) =~= l.update(idx, (k, v)));
    }
}

/// If no member has the key, the lookup yields nothing.
pub proof fn lemma_obj_get_none(l: Seq<(Seq<char>, JsonV)>, k: Seq<char>)
    requires
        forall|t: int| 0 <= t < l.len() ==> (#[trigger] l[t]).0 != k,
    ensures
        obj_get(l, k) is None,
    decreases l.len(),
{
    if l.len() != 0 {
        assert(l.last() == l[l.len() - 1]);
        assert(forall|t: int|
            0 <= t < l.drop_last().len() ==> (#[trigger] l.drop_last()[t]).0 != k);
        lemma_obj_get_none(l.drop_last(), k);
    }
}

/// The views of a list of strings.
pub open spec fn strs_view(l: Seq<String>) -> Seq<Seq<char>>
    decreases l.len(),
{
    if l.len() == 0 {
        Seq::empty()
    } else {
        strs_view(l.drop_last()).push(l.last()@)
    }
}

/// The view of a string list is the element-wise view.
pub proof fn lemma_strs_view(l: Seq<String>)
    ensures
        strs_view(l).len() == l.len(),
        forall|i: int| 0 <= i < l.len() ==> strs_view(l)[i] == #[trigger] l[i]@,
    decreases l.len(),
{
    if l.len() != 0 {
        lemma_strs_view(l.drop_last());
        assert(strs_view(l) == strs_view(l.drop_last()).push(l.last()@));
        assert forall|i: int| 0 <= i < l.len() implies strs_view(l)[i] == #[trigger] l[i]@ by {
            if i < l.len() - 1 {
                assert(strs_view(l)[i] == strs_view(l.drop_last())[i]);
                assert(l.drop_last()[i] == l[i]);
            }
        }
    }
}

/// The latest index whose member has the given key, if any.
fn find_last_key(v: &Vec<(String, Json)>, k: &str) -> (r: Option<usize>)
    ensures
        match r {
            Some(idx) => idx < v@.len() && view_entries(v@)[idx as int].0 == k@ && forall|t: int|
                idx < t < v@.len() ==> (#[trigger] view_entries(v@)[t]).0 != k@,
            None => forall|t: int|
                0 <= t < v@.len() ==> (#[trigger] view_entries(v@)[t]).0 != k@,
        },
{
    proof {
        lemma_view_entries(v@);
    }
    let n = v.len();
    let mut i: usize = n;
    while i > 0
        invariant
            i <= n,
            n == v@.len(),
            forall|t: int| i <= t < v@.len() ==> (#[trigger] view_entries(v@)[t]).0 != k@,
        decreases i,
    {
        i = i - 1;
        proof {
            lemma_view_entries(v@);
        }
        if str_eq(v[i].0.as_str(), k) {
            return Some(i);
        }
    }
    None
}

/// A copy of the member list without any member keyed `k`.
fn ents_remove_exec(v: &Vec<(String, Json)>, k: &str) -> (r: Vec<(String, Json)>)
    ensures
        view_entries(r@) == ents_remove(view_entries(v@), k@),
{
    proof {
        lemma_view_entries(v@);
        assert(view_entries(v@).take(0) =~= Seq::<(Seq<char>, JsonV)>::empty());
    }
    let n = v.len();
    let mut out: Vec<(String, Json)> = Vec::new();
    let mut i: usize = 0;
    while i < n
        invariant
            i <= n,
            n == v@.len(),
            view_entries(v@).len() == n,
            forall|t: int| 0 <= t < n ==> view_entries(v@)[t] == (#[trigger] v@[t].0@, v@[t].1@),
            view_entries(out@) == ents_remove(view_entries(v@).take(i as int), k@),
        decreases n - i,
    {
        let ghost ev = view_entries(v@);
        proof {
            assert(ev.take(i + 1 as int).drop_last() =~= ev.take(i as int));
            assert(ev.take(i + 1 as int).last() == ev[i as int]);
        }
        if !str_eq(v[i].0.as_str(), k) {
            let ghost out0 = out@;
            out.push((v[i].0.clone(), v[i].1.deep_clone()));
            proof {
                lemma_view_entries(out0);
                lemma_view_entries(out@);
                assert(out@.drop_last() =~= out0);
                assert(view_entries(out@) =~= view_entries(out0).push((v@[i as int].0@, v@[
                    i as int].1@)));
            }
        }
        i = i + 1;
    }
    proof {
        assert(view_entries(v@).take(n as int) =~= view_entries(v@));
    }
    out
}

/// The member list with the member keyed `k` set to `val`.
fn ents_set_exec(v: &Vec<(String, Json)>, k: &str, val: Json) -> (r: Vec<(String, Json)>)
    ensures
        view_entries(r@) == ents_set(view_entries(v@), k@, val@),
{
    proof {
        lemma_view_entries(v@);
    }
    let n = v.len();
    let ghost ev = view_entries(v@);
    let ghost gval = val;
    let found = find_last_key(v, k);
    let mut out: Vec<(String, Json)> = Vec::new();
    let stop: usize = match found {
        Some(idx) => idx,
        None => 0,
    };
    match found {
        Some(idx) => {
            proof {
                lemma_ents_set_update(ev, k@, gval@, idx as int);
            }
            let mut i: usize = 0;
            while i < idx
                invariant
                    i <= idx < n,
                    n == v@.len(),
                    ev == view_entries(v@),
                    ev.len() == n,
                    forall|t: int| 0 <= t < n ==> ev[t] == (#[trigger] v@[t].0@, v@[t].1@),
                    out@.len() == i,
                    forall|t: int|
                        0 <= t < i ==> (#[trigger] out@[t]).0@ == v@[t].0@ && out@[t].1@
                            == v@[t].1@,
                decreases idx - i,
            {
                out.push((v[i].0.clone(), v[i].1.deep_clone()));
                i = i + 1;
            }
            out.push((String::from_str(k), val));
            let mut i: usize = idx + 1;
            while i < n
                invariant
                    idx < i <= n,
                    n == v@.len(),
                    ev == view_entries(v@),
                    ev.len() == n,
                    forall|t: int| 0 <= t < n ==> ev[t] == (#[trigger] v@[t].0@, v@[t].1@),
                    out@.len() == i,
                    forall|t: int|
                        0 <= t < i && t != idx ==> (#[trigger] out@[t]).0@ == v@[t].0@ && out@[
                            t].1@ == v@[t].1@,
                    out@[idx as int].0@ == k@ && out@[idx as int].1@ == gval@,
                decreases n - i,
            {
                out.push((v[i].0.clone(), v[i].1.deep_clone()));
                i = i + 1;
            }
            proof {
                lemma_view_entries(out@);
                assert(ents_set(ev, k@, gval@) == ev.update(idx as int, (k@, gval@)));
                assert forall|t: int|
                    0 <= t < out@.len() implies view_entries(out@)[t] == ents_set(
                    ev,
                    k@,
                    gval@,
                )[t] by {
                    assert(view_entries(out@)[t] == (out@[t].0@, out@[t].1@));
                    if t != idx {
                        assert(ev.update(idx as int, (k@, gval@))[t] == ev[t]);
                    }
                }
                assert(view_entries(out@) =~= ents_set(ev, k@, gval@));
            }
            out
        },
        None => {
            proof {
                lemma_obj_get_none(ev, k@);
                lemma_ents_set_absent(ev, k@, gval@);
            }
            out.push((String::from_str(k), val));
            let mut i: usize = 0;
            while i < n
                invariant
                    i <= n,
                    n == v@.len(),
                    ev == view_entries(v@),
                    ev.len() == n,
                    forall|t: int| 0 <= t < n ==> ev[t] == (#[trigger] v@[t].0@, v@[t].1@),
                    out@.len() == i + 1,
                    out@[0].0@ == k@ && out@[0].1@ == gval@,
                    forall|t: int|
                        1 <= t < i + 1 ==> (#[trigger] out@[t]).0@ == v@[t - 1].0@ && out@[t].1@
                            == v@[t - 1].1@,
                decreases n - i,
            {
                out.push((v[i].0.clone(), v[i].1.deep_clone()));
                i = i + 1;
            }
            proof {
                lemma_view_entries(out@);
                assert forall|t: int|
                    0 <= t < out@.len() implies view_entries(out@)[t] == (seq![(k@, gval@)]
                    + ev)[t] by {
                    assert(view_entries(out@)[t] == (out@[t].0@, out@[t].1@));
                }
                assert(view_entries(out@) =~= ents_set(ev, k@, gval@));
            }
            out
        },
    }
}

/// The declared property names of a node, as fresh strings.
fn prop_names_exec(v: &Vec<(String, Json)>) -> (r: Vec<String>)
    ensures
        strs_view(r@) == prop_names(view_entries(v@)),
{
    let out: Vec<String> = Vec::new();
    proof {
        assert(strs_view(out@) =~= Seq::<Seq<char>>::empty());
    }
    match crate::json::obj_find(v, "properties") {
        Some(props) => {
            match props {
                Json::Obj(p) => {
                    proof {
                        lemma_view_entries(p@);
                        assert(keys_of(view_entries(p@).take(0)) =~= Seq::<Seq<char>>::empty());
                    }
                    let m = p.len();
                    let mut out = out;
                    let mut i: usize = 0;
                    while i < m
                        invariant
                            i <= m,
                            m == p@.len(),
                            view_entries(p@).len() == m,
                            forall|t: int|
                                0 <= t < m ==> view_entries(p@)[t] == (
                                #[trigger] p@[t].0@,
                                p@[t].1@,
                                ),
                            strs_view(out@) == keys_of(view_entries(p@).take(i as int)),
                        decreases m - i,
                    {
                        let ghost pv = view_entries(p@);
                        let ghost out0 = out@;
                        out.push(p[i].0.clone());
                        proof {
                            assert(pv.take(i + 1 as int).drop_last() =~= pv.take(i as int));
                            assert(pv.take(i + 1 as int).last() == pv[i as int]);
                            assert(out@.drop_last() =~= out0);
                            assert(strs_view(out@) == strs_view(out0).push(p@[i as int].0@));
                        }
                        i = i + 1;
                    }
                    proof {
                        assert(view_entries(p@).take(m as int) =~= view_entries(p@));
                    }
                    out
                },
                _ => out,
            }
        },
        None => out,
    }
}

/// Inserting at the right place realizes `insert_sorted`.
pub proof fn lemma_insert_sorted_at(l: Seq<Seq<char>>, x: Seq<char>, p: int)
    requires
        0 <= p <= l.len(),
        forall|t: int| 0 <= t < p ==> !lex_le(x, #[trigger] l[t]),
        p < l.len() ==> lex_le(x, l[p]),
    ensures
        insert_sorted(l, x) == l.take(p).push(x) + l.skip(p),
    decreases p,
{
    if p == 0 {
        if l.len() == 0 {
            assert(insert_sorted(l, x) =~= l.take(0).push(x) + l.skip(0));
        } else {
            assert(insert_sorted(l, x) =~= l.take(0).push(x) + l.skip(0));
        }
    } else {
        assert(!lex_le(x, l[0]));
        assert(forall|t: int|
            0 <= t < p - 1 ==> !lex_le(x, #[trigger] l.drop_first()[t]));
        if p - 1 < l.drop_first().len() {
            assert(l.drop_first()[p - 1] == l[p]);
        }
        lemma_insert_sorted_at(l.drop_first(), x, p - 1);
        assert(insert_sorted(l, x) =~= l.take(p).push(x) + l.skip(p));
    }
}

/// Sorts a list of property names lexicographically.
fn sort_names_exec(names: Vec<String>) -> (r: Vec<String>)
    ensures
        strs_view(r@) == sort_names(strs_view(names@)),
{
    let n = names.len();
    let mut out: Vec<String> = Vec::new();
    proof {
        lemma_strs_view(names@);
        assert(strs_view(names@).take(0) =~= Seq::<Seq<char>>::empty());
        assert(strs_view(out@) =~= Seq::<Seq<char>>::empty());
    }
    let mut i: usize = 0;
    while i < n
        invariant
            i <= n,
            n == names@.len(),
            strs_view(names@).len() == n,
            forall|t: int| 0 <= t < n ==> strs_view(names@)[t] == #[trigger] names@[t]@,
            strs_view(out@) == sort_names(strs_view(names@).take(i as int)),
        decreases n - i,
    {
        let x = names[i].clone();
        let m = out.len();
        proof {
            lemma_strs_view(out@);
        }
        let mut p: usize = 0;
        loop
            invariant
                p <= m,
                m == out@.len(),
                strs_view(out@).len() == m,
                forall|t: int| 0 <= t < m ==> strs_view(out@)[t] == #[trigger] out@[t]@,
                x@ == names@[i as int]@,
                forall|t: int| 0 <= t < p ==> !lex_le(x@, #[trigger] strs_view(out@)[t]),
            ensures
                p <= m,
                m == out@.len(),
                forall|t: int| 0 <= t < p ==> !lex_le(x@, #[trigger] strs_view(out@)[t]),
                p < m ==> lex_le(x@, strs_view(out@)[p as int]),
            decreases m - p,
        {
            if p >= m {
                break;
            }
            if str_lex_le(x.as_str(), out[p].as_str()) {
                break;
            }
            p = p + 1;
        }
        let ghost out0 = out@;
        let ghost nv = strs_view(names@);
        let ghost gx = x;
        out.insert(p, x);
        proof {
            lemma_insert_sorted_at(strs_view(out0), nv[i as int], p as int);
            out0.insert_ensures(p as int, gx);
            lemma_strs_view(out0);
            lemma_strs_view(out@);
            assert(out@.len() == out0.len() + 1);
            assert forall|t: int|
                0 <= t < strs_view(out@).len() implies strs_view(out@)[t] == (strs_view(
                out0,
            ).take(p as int).push(nv[i as int]) + strs_view(out0).skip(p as int))[t] by {
                assert(strs_view(out@)[t] == out@[t]@);
                if t < p {
                    assert(out@[t] == out0[t]);
                    assert(strs_view(out0)[t] == out0[t]@);
                } else if t == p {
                    assert(out@[t] == gx);
                } else {
                    assert(out0.insert(p as int, gx)[(t - 1) + 1] == out0[t - 1]);
                    assert(out@[t] == out0[t - 1]);
                    assert(strs_view(out0)[t - 1] == out0[t - 1]@);
                }
            }
            assert(strs_view(out@) =~= strs_view(out0).take(p as int).push(nv[i as int])
                + strs_view(out0).skip(p as int));
            assert(nv.take(i + 1 as int).drop_last() =~= nv.take(i as int));
            assert(nv.take(i + 1 as int).last() == nv[i as int]);
        }
        i = i + 1;
    }
    proof {
        assert(strs_view(names@).take(n as int) =~= strs_view(names@));
    }
    out
}

/// The sorted names as a JSON array of strings.
pub fn strs_arr_exec(names: Vec<String>) -> (r: Json)
    ensures
        r@ == JsonV::Arr(strs_of(strs_view(names@))),
{
    let n = names.len();
    let mut out: Vec<Json> = Vec::new();
    proof {
        lemma_strs_view(names@);
        assert(strs_view(names@).take(0) =~= Seq::<Seq<char>>::empty());
        assert(view_list(out@) =~= Seq::<JsonV>::empty());
        assert(strs_of(Seq::<Seq<char>>::empty()) =~= Seq::<JsonV>::empty());
    }
    let mut i: usize = 0;
    while i < n
        invariant
            i <= n,
            n == names@.len(),
            strs_view(names@).len() == n,
            forall|t: int| 0 <= t < n ==> strs_view(names@)[t] == #[trigger] names@[t]@,
            view_list(out@) == strs_of(strs_view(names@).take(i as int)),
        decreases n - i,
    {
        let ghost out0 = out@;
        let ghost nv = strs_view(names@);
        out.push(Json::Str(names[i].clone()));
        proof {
            crate::json::lemma_view_list(out0);
            crate::json::lemma_view_list(out@);
            assert(out@.drop_last() =~= out0);
            assert(out@.last()@ == JsonV::Str(names@[i as int]@));
            assert(view_list(out@) == view_list(out@.drop_last()).push(out@.last()@));
            assert(view_list(out@) == view_list(out0).push(JsonV::Str(names@[i as int]@)));
            assert(nv.take(i + 1 as int).drop_last() =~= nv.take(i as int));
            assert(nv.take(i + 1 as int).last() == nv[i as int]);
        }
        i = i + 1;
    }
    proof {
        assert(strs_view(names@).take(n as int) =~= strs_view(names@));
    }
    Json::Arr(out)
}

/// Canonicalizes every element of an array of subschemas.
fn canon_list_exec(items: &Vec<Json>) -> (r: Vec<Json>)
    ensures
        view_list(r@) == canon_list(view_list(items@)),
    decreases items, 0int,
{
    proof {
        lemma_view_list(items@);
        assert(view_list(items@).take(0) =~= Seq::<JsonV>::empty());
    }
    let n = items.len();
    let mut out: Vec<Json> = Vec::new();
    let mut i: usize = 0;
    while i < n
        invariant
            i <= n,
            n == items@.len(),
            view_list(items@).len() == n,
            forall|t: int| 0 <= t < n ==> view_list(items@)[t] == #[trigger] items@[t]@,
            view_list(out@) == canon_list(view_list(items@).take(i as int)),
        decreases n - i,
    {
        proof {
            assert(decreases_to!(items => items@));
            assert(decreases_to!(items@ => items@[i as int]));
        }
        let c = canonicalize(&items[i]);
        let ghost out0 = out@;
        out.push(c);
        proof {
            let lv = view_list(items@);
            lemma_view_list(out0);
            lemma_view_list(out@);
            assert(out@.drop_last() =~= out0);
            assert(view_list(out@) == view_list(out0).push(canon(lv[i as int])));
            assert(lv.take(i + 1 as int).drop_last() =~= lv.take(i as int));
            assert(lv.take(i + 1 as int).last() == lv[i as int]);
        }
        i = i + 1;
    }
    proof {
        assert(view_list(items@).take(n as int) =~= view_list(items@));
    }
    out
}

/// Canonicalizes every value of an object of subschemas, keeping the keys.
fn canon_vals_exec(p: &Vec<(String, Json)>) -> (r: Vec<(String, Json)>)
    ensures
        view_entries(r@) == canon_vals(view_entries(p@)),
    decreases p, 0int,
{
    proof {
        lemma_view_entries(p@);
        assert(view_entries(p@).take(0) =~= Seq::<(Seq<char>, JsonV)>::empty());
    }
    let n = p.len();
    let mut out: Vec<(String, Json)> = Vec::new();
    let mut i: usize = 0;
    while i < n
        invariant
            i <= n,
            n == p@.len(),
            view_entries(p@).len() == n,
            forall|t: int| 0 <= t < n ==> view_entries(p@)[t] == (#[trigger] p@[t].0@, p@[t].1@),
            view_entries(out@) == canon_vals(view_entries(p@).take(i as int)),
        decreases n - i,
    {
        proof {
            assert(decreases_to!(p => p@));
            assert(decreases_to!(p@ => p@[i as int]));
            assert(decreases_to!(p@[i as int] => p@[i as int].1));
        }
        let c = canonicalize(&p[i].1);
        let k = p[i].0.clone();
        let ghost out0 = out@;
        out.push((k, c));
        proof {
            let ev = view_entries(p@);
            lemma_view_entries(out0);
            lemma_view_entries(out@);
            assert(out@.drop_last() =~= out0);
            assert(view_entries(out@) == view_entries(out0).push(
                (ev[i as int].0, canon(ev[i as int].1)),
            ));
            assert(ev.take(i + 1 as int).drop_last() =~= ev.take(i as int));
            assert(ev.take(i + 1 as int).last() == ev[i as int]);
        }
        i = i + 1;
    }
    proof {
        assert(view_entries(p@).take(n as int) =~= view_entries(p@));
    }
    out
}

/// Canonicalizes the value found at key `k`, by what the key means.
fn canon_at_exec(k: &str, v: &Json) -> (r: Json)
    ensures
        r@ == canon_at(k@, v@),
    decreases v, 1int,
{
    if str_eq(k, "items") {
        match v {
            Json::Arr(items) => {
                proof {
                    assert(decreases_to!(v => items));
                }
                Json::Arr(canon_list_exec(items))
            },
            _ => canonicalize(v),
        }
    } else if str_eq(k, "not") || str_eq(k, "if") || str_eq(k, "then") || str_eq(k, "else")
        || str_eq(k, "contains") || str_eq(k, "additionalProperties") || str_eq(
        k,
        "propertyNames",
    ) || str_eq(k, "additionalItems") {
        canonicalize(v)
    } else if str_eq(k, "allOf") || str_eq(k, "anyOf") || str_eq(k, "oneOf") || str_eq(
        k,
        "prefixItems",
    ) {
        match v {
            Json::Arr(items) => {
                proof {
                    assert(decreases_to!(v => items));
                }
                Json::Arr(canon_list_exec(items))
            },
            _ => v.deep_clone(),
        }
    } else if str_eq(k, "properties") || str_eq(k, "patternProperties") || str_eq(k, "$defs")
        || str_eq(k, "definitions") {
        match v {
            Json::Obj(p) => {
                proof {
                    assert(decreases_to!(v => p));
                }
                Json::Obj(canon_vals_exec(p))
            },
            _ => v.deep_clone(),
        }
    } else {
        v.deep_clone()
    }
}

/// Canonicalizes every subschema position among an object node's members.
fn canon_entries_exec(entries: &Vec<(String, Json)>) -> (r: Vec<(String, Json)>)
    ensures
        view_entries(r@) == canon_entries(view_entries(entries@)),
    decreases entries, 0int,
{
    proof {
        lemma_view_entries(entries@);
        assert(view_entries(entries@).take(0) =~= Seq::<(Seq<char>, JsonV)>::empty());
    }
    let n = entries.len();
    let mut out: Vec<(String, Json)> = Vec::new();
    let mut i: usize = 0;
    while i < n
        invariant
            i <= n,
            n == entries@.len(),
            view_entries(entries@).len() == n,
            forall|t: int|
                0 <= t < n ==> view_entries(entries@)[t] == (
                #[trigger] entries@[t].0@,
                entries@[t].1@,
                ),
            view_entries(out@) == canon_entries(view_entries(entries@).take(i as int)),
        decreases n - i,
    {
        proof {
            assert(decreases_to!(entries => entries@));
            assert(decreases_to!(entries@ => entries@[i as int]));
            assert(decreases_to!(entries@[i as int] => entries@[i as int].1));
        }
        let c = canon_at_exec(entries[i].0.as_str(), &entries[i].1);
        let k = entries[i].0.clone();
        let ghost out0 = out@;
        out.push((k, c));
        proof {
            let ev = view_entries(entries@);
            lemma_view_entries(out0);
            lemma_view_entries(out@);
            assert(out@.drop_last() =~= out0);
            assert(view_entries(out@) == view_entries(out0).push(
                (ev[i as int].0, canon_at(ev[i as int].0, ev[i as int].1)),
            ));
            assert(ev.take(i + 1 as int).drop_last() =~= ev.take(i as int));
            assert(ev.take(i + 1 as int).last() == ev[i as int]);
        }
        i = i + 1;
    }
    proof {
        assert(view_entries(entries@).take(n as int) =~= view_entries(entries@));
    }
    out
}

/// Returns the canonical form of a schema value: a pure rewrite, the input
/// is left untouched.
pub fn canonicalize(j: &Json) -> (r: Json)
    ensures
        r@ == canon(j@),
    decreases j, 0int,
{
    match j {
        Json::Obj(entries) => {
            proof {
                assert(decreases_to!(j => entries));
            }
            let mut e = canon_entries_exec(entries);
            if crate::json::obj_find(&e, "$ref").is_none() {
                e = ents_remove_exec(&e, "format");
                e = ents_remove_exec(&e, "minimum");
                e = ents_remove_exec(&e, "maximum");
                e = ents_set_exec(&e, "additionalProperties", Json::Bool(false));
                let names = prop_names_exec(&e);
                proof {
                    lemma_strs_view(names@);
                }
                if names.len() > 0 || crate::json::obj_find(&e, "required").is_some() {
                    let sorted = sort_names_exec(names);
                    let arr = strs_arr_exec(sorted);
                    e = ents_set_exec(&e, "required", arr);
                }
            }
            let one = match crate::json::obj_find(&e, "oneOf") {
                Some(ov) => Some(ov.deep_clone()),
                None => None,
            };
            match one {
                Some(ov) => {
                    e = ents_set_exec(&e, "anyOf", ov);
                    e = ents_remove_exec(&e, "oneOf");
                },
                None => {},
            }
            Json::Obj(e)
        },
        _ => j.deep_clone(),
    }
}

/// The rewrite that adapts a generated JSON Schema to the provider's
/// structured-output dialect.
pub struct OpenAiTransform;

impl OpenAiTransform {
    /// Rewrites `schema` into the restricted dialect; see [`canon`] for
    /// exactly what changes.
    pub fn transform(&self, schema: &Json) -> (r: Json)
        ensures
            r@ == canon(schema@),
    {
        canonicalize(schema)
    }
}

/// The keys the rewrite itself reads or writes are pairwise distinct, and
/// `required` is not a subschema position.
proof fn lemma_key_facts()
    ensures
        "$ref"@ != "format"@ && "$ref"@ != "minimum"@ && "$ref"@ != "maximum"@ && "$ref"@
            != "additionalProperties"@ && "$ref"@ != "required"@ && "$ref"@ != "properties"@
            && "$ref"@ != "oneOf"@ && "$ref"@ != "anyOf"@,
        "format"@ != "minimum"@ && "format"@ != "maximum"@ && "format"@
            != "additionalProperties"@ && "format"@ != "required"@ && "format"@ != "properties"@
            && "format"@ != "oneOf"@ && "format"@ != "anyOf"@,
        "minimum"@ != "maximum"@ && "minimum"@ != "additionalProperties"@ && "minimum"@
            != "required"@ && "minimum"@ != "properties"@ && "minimum"@ != "oneOf"@ && "minimum"@
            != "anyOf"@,
        "maximum"@ != "additionalProperties"@ && "maximum"@ != "required"@ && "maximum"@
            != "properties"@ && "maximum"@ != "oneOf"@ && "maximum"@ != "anyOf"@,
        "additionalProperties"@ != "required"@ && "additionalProperties"@ != "properties"@
            && "additionalProperties"@ != "oneOf"@ && "additionalProperties"@ != "anyOf"@,
        "required"@ != "properties"@ && "required"@ != "oneOf"@ && "required"@ != "anyOf"@,
        "properties"@ != "oneOf"@ && "properties"@ != "anyOf"@,
        "oneOf"@ != "anyOf"@,
        !is_single_sub("required"@),
        !is_array_sub("required"@),
        !is_map_sub("required"@),
        "required"@ != "items"@,
        is_single_sub("additionalProperties"@),
        is_array_sub("anyOf"@) && is_array_sub("oneOf"@),
        is_map_sub("properties"@),
        !is_single_sub("anyOf"@) && !is_single_sub("oneOf"@),
        "anyOf"@ != "items"@ && "oneOf"@ != "items"@,
{
    reveal_strlit("$ref");
    reveal_strlit("format");
    reveal_strlit("minimum");
    reveal_strlit("maximum");
    reveal_strlit("additionalProperties");
    reveal_strlit("required");
    reveal_strlit("properties");
    reveal_strlit("oneOf");
    reveal_strlit("anyOf");
    reveal_strlit("items");
    reveal_strlit("not");
    reveal_strlit("if");
    reveal_strlit("then");
    reveal_strlit("else");
    reveal_strlit("contains");
    reveal_strlit("propertyNames");
    reveal_strlit("additionalItems");
    reveal_strlit("allOf");
    reveal_strlit("prefixItems");
    reveal_strlit("patternProperties");
    reveal_strlit("$defs");
    reveal_strlit("definitions");
    assert("$ref"@.len() == 4);
    assert("format"@.len() == 6);
    assert("minimum"@.len() == 7);
    assert("maximum"@.len() == 7);
    assert("additionalProperties"@.len() == 20);
    assert("required"@.len() == 8);
    assert("properties"@.len() == 10);
    assert("oneOf"@.len() == 5);
    assert("anyOf"@.len() == 5);
    assert("items"@.len() == 5);
    assert("not"@.len() == 3);
    assert("if"@.len() == 2);
    assert("then"@.len() == 4);
    assert("else"@.len() == 4);
    assert("contains"@.len() == 8);
    assert("propertyNames"@.len() == 13);
    assert("additionalItems"@.len() == 15);
    assert("allOf"@.len() == 5);
    assert("prefixItems"@.len() == 11);
    assert("patternProperties"@.len() == 17);
    assert("$defs"@.len() == 5);
    assert("definitions"@.len() == 11);
    assert("minimum"@[1] == 'i' && "maximum"@[1] == 'a');
    assert("oneOf"@[0] == 'o' && "anyOf"@[0] == 'a' && "items"@[0] == 'i' && "allOf"@[0] == 'a'
        && "$defs"@[0] == '$');
    assert("anyOf"@[1] == 'n' && "allOf"@[1] == 'l' && "$defs"@[1] == 'd');
    assert("contains"@[0] == 'c' && "required"@[0] == 'r');
}

/// Every member's value is unchanged by another pass over its position.
pub open spec fn entries_fixed(l: Seq<(Seq<char>, JsonV)>) -> bool {
    forall|t: int|
        0 <= t < l.len() ==> canon_at((#[trigger] l[t]).0, l[t].1) == l[t].1
}

/// Canonicalizing members position by position, element-wise.
proof fn lemma_canon_entries_elts(l: Seq<(Seq<char>, JsonV)>)
    ensures
        canon_entries(l).len() == l.len(),
        forall|t: int|
            0 <= t < l.len() ==> #[trigger] canon_entries(l)[t] == (
                l[t].0,
                canon_at(l[t].0, l[t].1),
            ),
    decreases l.len(),
{
    if l.len() != 0 {
        lemma_canon_entries_elts(l.drop_last());
        assert(canon_entries(l) == canon_entries(l.drop_last()).push(
            (l.last().0, canon_at(l.last().0, l.last().1)),
        ));
        assert forall|t: int|
            0 <= t < l.len() implies #[trigger] canon_entries(l)[t] == (
            l[t].0,
            canon_at(l[t].0, l[t].1),
        ) by {
            if t < l.len() - 1 {
                assert(canon_entries(l)[t] == canon_entries(l.drop_last())[t]);
                assert(l.drop_last()[t] == l[t]);
            }
        }
    }
}

/// A member list whose values another pass would not change passes through
/// position-wise canonicalization unchanged.
proof fn lemma_entries_fixed_canon(l: Seq<(Seq<char>, JsonV)>)
    requires
        entries_fixed(l),
    ensures
        canon_entries(l) == l,
{
    lemma_canon_entries_elts(l);
    assert(canon_entries(l) =~= l);
}

/// Removal keeps every surviving member, so it keeps them fixed.
proof fn lemma_fixed_remove(l: Seq<(Seq<char>, JsonV)>, k: Seq<char>)
    requires
        entries_fixed(l),
    ensures
        entries_fixed(ents_remove(l, k)),
    decreases l.len(),
{
    if l.len() != 0 {
        assert(forall|t: int|
            0 <= t < l.drop_last().len() ==> #[trigger] l.drop_last()[t] == l[t]);
        lemma_fixed_remove(l.drop_last(), k);
        if l.last().0 != k {
            let r = ents_remove(l.drop_last(), k).push(l.last());
            assert forall|t: int|
                0 <= t < r.len() implies canon_at((#[trigger] r[t]).0, r[t].1) == r[t].1 by {
                if t < r.len() - 1 {
                    assert(r[t] == ents_remove(l.drop_last(), k)[t]);
                } else {
                    assert(r[t] == l.last());
                    assert(l[l.len() - 1] == l.last());
                }
            }
        }
    }
}

/// Setting a fixed value keeps the member list fixed.
proof fn lemma_fixed_set(l: Seq<(Seq<char>, JsonV)>, k: Seq<char>, v: JsonV)
    requires
        entries_fixed(l),
        canon_at(k, v) == v,
    ensures
        entries_fixed(ents_set(l, k, v)),
    decreases l.len(),
{
    if l.len() == 0 {
        let r = ents_set(l, k, v);
        assert(r.len() == 1 && r[0] == (k, v));
    } else if l.last().0 == k {
        let r = l.drop_last().push((k, v));
        assert forall|t: int|
            0 <= t < r.len() implies canon_at((#[trigger] r[t]).0, r[t].1) == r[t].1 by {
            if t < r.len() - 1 {
                assert(r[t] == l.drop_last()[t]);
                assert(l.drop_last()[t] == l[t]);
            } else {
                assert(r[t] == (k, v));
            }
        }
    } else {
        assert(forall|t: int|
            0 <= t < l.drop_last().len() ==> #[trigger] l.drop_last()[t] == l[t]);
        lemma_fixed_set(l.drop_last(), k, v);
        let r = ents_set(l.drop_last(), k, v).push(l.last());
        assert forall|t: int|
            0 <= t < r.len() implies canon_at((#[trigger] r[t]).0, r[t].1) == r[t].1 by {
            if t < r.len() - 1 {
                assert(r[t] == ents_set(l.drop_last(), k, v)[t]);
            } else {
                assert(r[t] == l.last());
                assert(l[l.len() - 1] == l.last());
            }
        }
    }
}

/// A value an object carries is one of its members' values.
proof fn lemma_obj_get_index(l: Seq<(Seq<char>, JsonV)>, k: Seq<char>)
    ensures
        obj_get(l, k) matches Some(v) ==> exists|t: int|
            0 <= t < l.len() && #[trigger] l[t] == (k, v),
    decreases l.len(),
{
    if l.len() != 0 {
        if l.last().0 == k {
            assert(l[l.len() - 1] == (k, obj_get(l, k)->0));
        } else {
            lemma_obj_get_index(l.drop_last(), k);
            if obj_get(l, k) is Some {
                let v = obj_get(l, k)->0;
                let t = choose|t: int| 0 <= t < l.drop_last().len() && #[trigger] l.drop_last()[t]
                    == (k, v);
                assert(l[t] == (k, v));
            }
        }
    }
}

/// One rewrite pass leaves a fixed member list fixed.
proof fn lemma_fixed_local_rewrite(l: Seq<(Seq<char>, JsonV)>)
    requires
        entries_fixed(l),
    ensures
        entries_fixed(local_rewrite(l)),
{
    lemma_key_facts();
    let l3 = if obj_has(l, "$ref"@) {
        l
    } else {
        let l1 = ents_remove(ents_remove(ents_remove(l, "format"@), "minimum"@), "maximum"@);
        let l2 = ents_set(l1, "additionalProperties"@, JsonV::Bool(false));
        if needs_required(l2) {
            ents_set(l2, "required"@, required_value(l2))
        } else {
            l2
        }
    };
    if !obj_has(l, "$ref"@) {
        let l1 = ents_remove(ents_remove(ents_remove(l, "format"@), "minimum"@), "maximum"@);
        lemma_fixed_remove(l, "format"@);
        lemma_fixed_remove(ents_remove(l, "format"@), "minimum"@);
        lemma_fixed_remove(ents_remove(ents_remove(l, "format"@), "minimum"@), "maximum"@);
        let l2 = ents_set(l1, "additionalProperties"@, JsonV::Bool(false));
        assert(canon_at("additionalProperties"@, JsonV::Bool(false)) == JsonV::Bool(false));
        lemma_fixed_set(l1, "additionalProperties"@, JsonV::Bool(false));
        if needs_required(l2) {
            assert(canon_at("required"@, required_value(l2)) == required_value(l2));
            lemma_fixed_set(l2, "required"@, required_value(l2));
        }
        assert(entries_fixed(l3));
    }
    assert(entries_fixed(l3));
    match obj_get(l3, "oneOf"@) {
        Some(ov) => {
            lemma_obj_get_index(l3, "oneOf"@);
            let t = choose|t: int| 0 <= t < l3.len() && #[trigger] l3[t] == ("oneOf"@, ov);
            assert(canon_at("oneOf"@, ov) == ov);
            assert(canon_at("anyOf"@, ov) == ov);
            lemma_fixed_set(l3, "anyOf"@, ov);
            lemma_fixed_remove(ents_set(l3, "anyOf"@, ov), "oneOf"@);
        },
        None => {},
    }
}

/// The rewrite of one node's own members is idempotent.
proof fn lemma_local_rewrite_idem(l: Seq<(Seq<char>, JsonV)>)
    ensures
        local_rewrite(local_rewrite(l)) == local_rewrite(l),
{
    lemma_key_facts();
    let big = local_rewrite(l);
    if obj_has(l, "$ref"@) {
        // only the oneOf step applied
        match obj_get(l, "oneOf"@) {
            Some(ov) => {
                lemma_set_get(l, "anyOf"@, ov, "$ref"@);
                lemma_remove_get(ents_set(l, "anyOf"@, ov), "oneOf"@, "$ref"@);
                assert(obj_has(big, "$ref"@));
                lemma_remove_get(ents_set(l, "anyOf"@, ov), "oneOf"@, "oneOf"@);
                assert(!obj_has(big, "oneOf"@));
            },
            None => {
                assert(big == l);
            },
        }
        assert(obj_has(big, "$ref"@));
        assert(!obj_has(big, "oneOf"@));
    } else {
        let l1 = ents_remove(ents_remove(ents_remove(l, "format"@), "minimum"@), "maximum"@);
        let l2 = ents_set(l1, "additionalProperties"@, JsonV::Bool(false));
        let l3 = if needs_required(l2) {
            ents_set(l2, "required"@, required_value(l2))
        } else {
            l2
        };
        // track the keys the second pass reads through the first pass's steps
        assert forall|k2: Seq<char>|
            k2 != "format"@ && k2 != "minimum"@ && k2 != "maximum"@ implies #[trigger] obj_get(
            l1,
            k2,
        ) == obj_get(l, k2) by {
            lemma_remove_get(l, "format"@, k2);
            lemma_remove_get(ents_remove(l, "format"@), "minimum"@, k2);
            lemma_remove_get(ents_remove(ents_remove(l, "format"@), "minimum"@), "maximum"@, k2);
        }
        assert forall|k2: Seq<char>| #[trigger]
            obj_get(l1, k2) is Some implies k2 != "format"@ && k2 != "minimum"@ && k2
            != "maximum"@ by {
            lemma_remove_get(l, "format"@, k2);
            lemma_remove_get(ents_remove(l, "format"@), "minimum"@, k2);
            lemma_remove_get(ents_remove(ents_remove(l, "format"@), "minimum"@), "maximum"@, k2);
        }
        assert forall|k2: Seq<char>|
            k2 != "additionalProperties"@ implies #[trigger] obj_get(l2, k2) == obj_get(
            l1,
            k2,
        ) by {
            lemma_set_get(l1, "additionalProperties"@, JsonV::Bool(false), k2);
        }
        lemma_set_get(l1, "additionalProperties"@, JsonV::Bool(false), "additionalProperties"@);
        assert forall|k2: Seq<char>|
            k2 != "required"@ implies #[trigger] obj_get(l3, k2) == obj_get(l2, k2) by {
            if needs_required(l2) {
                lemma_set_get(l2, "required"@, required_value(l2), k2);
            }
        }
        match obj_get(l3, "oneOf"@) {
            Some(ov) => {
                assert forall|k2: Seq<char>|
                    k2 != "oneOf"@ && k2 != "anyOf"@ implies #[trigger] obj_get(big, k2)
                    == obj_get(l3, k2) by {
                    lemma_set_get(l3, "anyOf"@, ov, k2);
                    lemma_remove_get(ents_set(l3, "anyOf"@, ov), "oneOf"@, k2);
                }
                lemma_set_get(l3, "anyOf"@, ov, "anyOf"@);
                lemma_remove_get(ents_set(l3, "anyOf"@, ov), "oneOf"@, "anyOf"@);
                lemma_remove_get(ents_set(l3, "anyOf"@, ov), "oneOf"@, "oneOf"@);
            },
            None => {},
        }
        // the second pass
        assert(!obj_has(big, "$ref"@));
        assert(!obj_has(big, "format"@));
        assert(!obj_has(big, "minimum"@));
        assert(!obj_has(big, "maximum"@));
        let b1 = ents_remove(ents_remove(ents_remove(big, "format"@), "minimum"@), "maximum"@);
        lemma_remove_absent(big, "format"@);
        lemma_remove_absent(big, "minimum"@);
        lemma_remove_absent(big, "maximum"@);
        assert(b1 == big);
        assert(obj_get(big, "additionalProperties"@) == Some(JsonV::Bool(false)));
        lemma_set_same(big, "additionalProperties"@, JsonV::Bool(false));
        let b2 = ents_set(b1, "additionalProperties"@, JsonV::Bool(false));
        assert(b2 == big);
        assert(obj_get(b2, "properties"@) == obj_get(l2, "properties"@));
        assert(prop_names(b2) == prop_names(l2));
        if needs_required(l2) {
            lemma_set_get(l2, "required"@, required_value(l2), "required"@);
            assert(obj_get(l3, "required"@) == Some(required_value(l2)));
            assert(obj_get(b2, "required"@) == Some(required_value(l2)));
            assert(needs_required(b2));
            assert(required_value(b2) == required_value(l2));
            lemma_set_same(b2, "required"@, required_value(b2));
            assert(ents_set(b2, "required"@, required_value(b2)) == big);
        } else {
            assert(prop_names(l2).len() == 0 && !obj_has(l2, "required"@));
            assert(obj_get(b2, "required"@) == obj_get(l2, "required"@));
            assert(!needs_required(b2));
        }
        assert(!obj_has(big, "oneOf"@)) by {
            match obj_get(l3, "oneOf"@) {
                Some(ov) => {
                    lemma_remove_get(ents_set(l3, "anyOf"@, ov), "oneOf"@, "oneOf"@);
                },
                None => {},
            }
        }
        assert(local_rewrite(big) == big);
    }
}

/// Canonicalization is idempotent.
///
/// Canonicalizing a schema a second time returns it unchanged, so a schema
/// may be canonicalized defensively without drifting, and the fingerprint of
/// a canonical schema is stable.
pub proof fn lemma_canon_idempotent(v: JsonV)
    ensures
        canon(canon(v)) == canon(v),
    decreases v, 0int,
{
    match v {
        JsonV::Obj(e) => {
            lemma_canon_entries_fixed(e);
            lemma_fixed_local_rewrite(canon_entries(e));
            lemma_entries_fixed_canon(local_rewrite(canon_entries(e)));
            lemma_local_rewrite_idem(canon_entries(e));
        },
        _ => {},
    }
}

/// A second pass over any one position changes nothing.
proof fn lemma_canon_at_idem(k: Seq<char>, v: JsonV)
    ensures
        canon_at(k, canon_at(k, v)) == canon_at(k, v),
    decreases v, 1int,
{
    if k == "items"@ {
        match v {
            JsonV::Arr(items) => lemma_canon_list_idem(items),
            _ => lemma_canon_idempotent(v),
        }
    } else if is_single_sub(k) {
        lemma_canon_idempotent(v);
    } else if is_array_sub(k) {
        match v {
            JsonV::Arr(items) => lemma_canon_list_idem(items),
            _ => {},
        }
    } else if is_map_sub(k) {
        match v {
            JsonV::Obj(p) => lemma_canon_vals_idem(p),
            _ => {},
        }
    }
}

/// Canonicalizing every element is idempotent.
proof fn lemma_canon_list_idem(l: Seq<JsonV>)
    ensures
        canon_list(canon_list(l)) == canon_list(l),
    decreases l, 2int,
{
    if l.len() != 0 {
        lemma_canon_list_idem(l.drop_last());
        lemma_canon_idempotent(l.last());
        let c = canon_list(l);
        assert(c == canon_list(l.drop_last()).push(canon(l.last())));
        assert(c.drop_last() =~= canon_list(l.drop_last()));
        assert(c.last() == canon(l.last()));
        assert(canon_list(c) == canon_list(c.drop_last()).push(canon(c.last())));
        assert(canon_list(c) =~= canon_list(l));
    }
}

/// Canonicalizing every value is idempotent.
proof fn lemma_canon_vals_idem(l: Seq<(Seq<char>, JsonV)>)
    ensures
        canon_vals(canon_vals(l)) == canon_vals(l),
    decreases l, 2int,
{
    if l.len() != 0 {
        lemma_canon_vals_idem(l.drop_last());
        lemma_canon_idempotent(l.last().1);
        let c = canon_vals(l);
        assert(c == canon_vals(l.drop_last()).push((l.last().0, canon(l.last().1))));
        assert(c.drop_last() =~= canon_vals(l.drop_last()));
        assert(c.last() == (l.last().0, canon(l.last().1)));
        assert(canon_vals(c) == canon_vals(c.drop_last()).push((c.last().0, canon(c.last().1))));
        assert(canon_vals(c) =~= canon_vals(l));
    }
}

/// After one position-wise pass, every position is fixed.
proof fn lemma_canon_entries_fixed(l: Seq<(Seq<char>, JsonV)>)
    ensures
        entries_fixed(canon_entries(l)),
    decreases l, 2int,
{
    if l.len() != 0 {
        lemma_canon_entries_fixed(l.drop_last());
        lemma_canon_at_idem(l.last().0, l.last().1);
        let c = canon_entries(l);
        assert(c == canon_entries(l.drop_last()).push(
            (l.last().0, canon_at(l.last().0, l.last().1)),
        ));
        assert forall|t: int|
            0 <= t < c.len() implies canon_at((#[trigger] c[t]).0, c[t].1) == c[t].1 by {
            if t < c.len() - 1 {
                assert(c[t] == canon_entries(l.drop_last())[t]);
            } else {
                assert(c[t] == (l.last().0, canon_at(l.last().0, l.last().1)));
            }
        }
    }
}

/// Local strictness of one object node: unless it is a bare reference, it
/// forbids extra properties, carries no stripped keyword, and its `required`
/// array is exactly its property names, sorted (see [`required_value`] and
/// [`lemma_sort_names`]); `oneOf` is gone either way.
pub open spec fn strict_node(e: Seq<(Seq<char>, JsonV)>) -> bool {
    (obj_has(e, "$ref"@) || {
        &&& obj_get(e, "additionalProperties"@) == Some(JsonV::Bool(false))
        &&& !obj_has(e, "format"@)
        &&& !obj_has(e, "minimum"@)
        &&& !obj_has(e, "maximum"@)
        &&& (match obj_get(e, "required"@) {
            Some(r) => r == required_value(e),
            None => prop_names(e).len() == 0,
        })
    }) && !obj_has(e, "oneOf"@)
}

/// Strictness of a whole schema: every object node reachable through
/// subschema positions is locally strict.
pub open spec fn strict(v: JsonV) -> bool
    decreases v, 0int,
{
    match v {
        JsonV::Obj(e) => strict_node(e) && strict_entries(e),
        _ => true,
    }
}

/// Strictness below each member, by what its key means.
pub open spec fn strict_entries(l: Seq<(Seq<char>, JsonV)>) -> bool
    decreases l, 2int,
{
    if l.len() == 0 {
        true
    } else {
        strict_entries(l.drop_last()) && strict_at(l.last().0, l.last().1)
    }
}

/// Strictness of the value at key `k`.
pub open spec fn strict_at(k: Seq<char>, v: JsonV) -> bool
    decreases v, 1int,
{
    if k == "items"@ {
        match v {
            JsonV::Arr(items) => strict_list(items),
            _ => strict(v),
        }
    } else if is_single_sub(k) {
        strict(v)
    } else if is_array_sub(k) {
        match v {
            JsonV::Arr(items) => strict_list(items),
            _ => true,
        }
    } else if is_map_sub(k) {
        match v {
            JsonV::Obj(p) => strict_vals(p),
            _ => true,
        }
    } else {
        true
    }
}

/// Strictness of every element.
pub open spec fn strict_list(l: Seq<JsonV>) -> bool
    decreases l, 0int,
{
    if l.len() == 0 {
        true
    } else {
        strict_list(l.drop_last()) && strict(l.last())
    }
}

/// Strictness of every value.
pub open spec fn strict_vals(l: Seq<(Seq<char>, JsonV)>) -> bool
    decreases l, 0int,
{
    if l.len() == 0 {
        true
    } else {
        strict_vals(l.drop_last()) && strict(l.last().1)
    }
}

/// Member-wise strictness, as a quantifier.
spec fn strict_all(l: Seq<(Seq<char>, JsonV)>) -> bool {
    forall|t: int| 0 <= t < l.len() ==> strict_at((#[trigger] l[t]).0, l[t].1)
}

/// The recursive and the quantified member-wise strictness agree.
proof fn lemma_strict_entries_iff(l: Seq<(Seq<char>, JsonV)>)
    ensures
        strict_entries(l) <==> strict_all(l),
    decreases l.len(),
{
    if l.len() != 0 {
        lemma_strict_entries_iff(l.drop_last());
        assert(forall|t: int|
            0 <= t < l.drop_last().len() ==> #[trigger] l.drop_last()[t] == l[t]);
        if strict_entries(l) {
            assert forall|t: int|
                0 <= t < l.len() implies strict_at((#[trigger] l[t]).0, l[t].1) by {
                if t < l.len() - 1 {
                    assert(l[t] == l.drop_last()[t]);
                } else {
                    assert(l[t] == l.last());
                }
            }
        }
        if strict_all(l) {
            assert(l[l.len() - 1] == l.last());
        }
    }
}

/// Removal keeps member-wise strictness.
proof fn lemma_strict_remove(l: Seq<(Seq<char>, JsonV)>, k: Seq<char>)
    requires
        strict_all(l),
    ensures
        strict_all(ents_remove(l, k)),
    decreases l.len(),
{
    if l.len() != 0 {
        assert(forall|t: int|
            0 <= t < l.drop_last().len() ==> #[trigger] l.drop_last()[t] == l[t]);
        lemma_strict_remove(l.drop_last(), k);
        if l.last().0 != k {
            let r = ents_remove(l.drop_last(), k).push(l.last());
            assert forall|t: int|
                0 <= t < r.len() implies strict_at((#[trigger] r[t]).0, r[t].1) by {
                if t < r.len() - 1 {
                    assert(r[t] == ents_remove(l.drop_last(), k)[t]);
                } else {
                    assert(r[t] == l.last());
                    assert(l[l.len() - 1] == l.last());
                }
            }
        }
    }
}

/// Setting a strict value keeps member-wise strictness.
proof fn lemma_strict_set(l: Seq<(Seq<char>, JsonV)>, k: Seq<char>, v: JsonV)
    requires
        strict_all(l),
        strict_at(k, v),
    ensures
        strict_all(ents_set(l, k, v)),
    decreases l.len(),
{
    if l.len() == 0 {
        let r = ents_set(l, k, v);
        assert(r.len() == 1 && r[0] == (k, v));
    } else if l.last().0 == k {
        let r = l.drop_last().push((k, v));
        assert forall|t: int|
            0 <= t < r.len() implies strict_at((#[trigger] r[t]).0, r[t].1) by {
            if t < r.len() - 1 {
                assert(r[t] == l.drop_last()[t]);
                assert(l.drop_last()[t] == l[t]);
            } else {
                assert(r[t] == (k, v));
            }
        }
    } else {
        assert(forall|t: int|
            0 <= t < l.drop_last().len() ==> #[trigger] l.drop_last()[t] == l[t]);
        lemma_strict_set(l.drop_last(), k, v);
        let r = ents_set(l.drop_last(), k, v).push(l.last());
        assert forall|t: int|
            0 <= t < r.len() implies strict_at((#[trigger] r[t]).0, r[t].1) by {
            if t < r.len() - 1 {
                assert(r[t] == ents_set(l.drop_last(), k, v)[t]);
            } else {
                assert(r[t] == l.last());
                assert(l[l.len() - 1] == l.last());
            }
        }
    }
}

/// One rewrite pass keeps member-wise strictness.
proof fn lemma_strict_local_rewrite(l: Seq<(Seq<char>, JsonV)>)
    requires
        strict_all(l),
    ensures
        strict_all(local_rewrite(l)),
{
    lemma_key_facts();
    let l3 = if obj_has(l, "$ref"@) {
        l
    } else {
        let l1 = ents_remove(ents_remove(ents_remove(l, "format"@), "minimum"@), "maximum"@);
        let l2 = ents_set(l1, "additionalProperties"@, JsonV::Bool(false));
        if needs_required(l2) {
            ents_set(l2, "required"@, required_value(l2))
        } else {
            l2
        }
    };
    if !obj_has(l, "$ref"@) {
        let l1 = ents_remove(ents_remove(ents_remove(l, "format"@), "minimum"@), "maximum"@);
        lemma_strict_remove(l, "format"@);
        lemma_strict_remove(ents_remove(l, "format"@), "minimum"@);
        lemma_strict_remove(ents_remove(ents_remove(l, "format"@), "minimum"@), "maximum"@);
        let l2 = ents_set(l1, "additionalProperties"@, JsonV::Bool(false));
        assert(strict_at("additionalProperties"@, JsonV::Bool(false)));
        lemma_strict_set(l1, "additionalProperties"@, JsonV::Bool(false));
        if needs_required(l2) {
            assert(strict_at("required"@, required_value(l2)));
            lemma_strict_set(l2, "required"@, required_value(l2));
        }
    }
    assert(strict_all(l3));
    match obj_get(l3, "oneOf"@) {
        Some(ov) => {
            lemma_obj_get_index(l3, "oneOf"@);
            let t = choose|t: int| 0 <= t < l3.len() && #[trigger] l3[t] == ("oneOf"@, ov);
            assert(strict_at("oneOf"@, ov));
            assert(strict_at("anyOf"@, ov));
            lemma_strict_set(l3, "anyOf"@, ov);
            lemma_strict_remove(ents_set(l3, "anyOf"@, ov), "oneOf"@);
        },
        None => {},
    }
}

/// One rewrite pass makes the node itself strict.
proof fn lemma_local_rewrite_strict_node(l: Seq<(Seq<char>, JsonV)>)
    ensures
        strict_node(local_rewrite(l)),
{
    lemma_key_facts();
    let big = local_rewrite(l);
    if obj_has(l, "$ref"@) {
        match obj_get(l, "oneOf"@) {
            Some(ov) => {
                lemma_set_get(l, "anyOf"@, ov, "$ref"@);
                lemma_remove_get(ents_set(l, "anyOf"@, ov), "oneOf"@, "$ref"@);
                lemma_remove_get(ents_set(l, "anyOf"@, ov), "oneOf"@, "oneOf"@);
            },
            None => {},
        }
        assert(obj_has(big, "$ref"@));
        assert(!obj_has(big, "oneOf"@));
    } else {
        let l1 = ents_remove(ents_remove(ents_remove(l, "format"@), "minimum"@), "maximum"@);
        let l2 = ents_set(l1, "additionalProperties"@, JsonV::Bool(false));
        let l3 = if needs_required(l2) {
            ents_set(l2, "required"@, required_value(l2))
        } else {
            l2
        };
        assert forall|k2: Seq<char>|
            k2 != "format"@ && k2 != "minimum"@ && k2 != "maximum"@ implies #[trigger] obj_get(
            l1,
            k2,
        ) == obj_get(l, k2) by {
            lemma_remove_get(l, "format"@, k2);
            lemma_remove_get(ents_remove(l, "format"@), "minimum"@, k2);
            lemma_remove_get(ents_remove(ents_remove(l, "format"@), "minimum"@), "maximum"@, k2);
        }
        assert forall|k2: Seq<char>| #[trigger]
            obj_get(l1, k2) is Some implies k2 != "format"@ && k2 != "minimum"@ && k2
            != "maximum"@ by {
            lemma_remove_get(l, "format"@, k2);
            lemma_remove_get(ents_remove(l, "format"@), "minimum"@, k2);
            lemma_remove_get(ents_remove(ents_remove(l, "format"@), "minimum"@), "maximum"@, k2);
        }
        assert forall|k2: Seq<char>|
            k2 != "additionalProperties"@ implies #[trigger] obj_get(l2, k2) == obj_get(
            l1,
            k2,
        ) by {
            lemma_set_get(l1, "additionalProperties"@, JsonV::Bool(false), k2);
        }
        lemma_set_get(l1, "additionalProperties"@, JsonV::Bool(false), "additionalProperties"@);
        assert forall|k2: Seq<char>|
            k2 != "required"@ implies #[trigger] obj_get(l3, k2) == obj_get(l2, k2) by {
            if needs_required(l2) {
                lemma_set_get(l2, "required"@, required_value(l2), k2);
            }
        }
        if needs_required(l2) {
            lemma_set_get(l2, "required"@, required_value(l2), "required"@);
        }
        match obj_get(l3, "oneOf"@) {
            Some(ov) => {
                assert forall|k2: Seq<char>|
                    k2 != "oneOf"@ && k2 != "anyOf"@ implies #[trigger] obj_get(big, k2)
                    == obj_get(l3, k2) by {
                    lemma_set_get(l3, "anyOf"@, ov, k2);
                    lemma_remove_get(ents_set(l3, "anyOf"@, ov), "oneOf"@, k2);
                }
                lemma_remove_get(ents_set(l3, "anyOf"@, ov), "oneOf"@, "oneOf"@);
            },
            None => {},
        }
        assert(!obj_has(big, "$ref"@));
        assert(!obj_has(big, "oneOf"@));
        assert(obj_get(big, "additionalProperties"@) == Some(JsonV::Bool(false)));
        assert(!obj_has(big, "format"@));
        assert(!obj_has(big, "minimum"@));
        assert(!obj_has(big, "maximum"@));
        assert(obj_get(big, "properties"@) == obj_get(l2, "properties"@));
        assert(prop_names(big) == prop_names(l2));
        if needs_required(l2) {
            assert(obj_get(big, "required"@) == Some(required_value(l2)));
            assert(required_value(big) == required_value(l2));
        } else {
            assert(obj_get(big, "required"@) == obj_get(l2, "required"@));
            assert(prop_names(big).len() == 0);
        }
    }
}

/// Canonicalization yields a strict schema.
///
/// Every object node of the output that stands at a schema position — the
/// document itself, and every node reachable through subschema keys — either
/// is a bare `$ref` or lists every declared property name in its `required`
/// array, sorted lexicographically, with `additionalProperties` forced to
/// `false` and the stripped keywords gone.
pub proof fn lemma_canon_strict(v: JsonV)
    ensures
        strict(canon(v)),
    decreases v, 0int,
{
    match v {
        JsonV::Obj(e) => {
            let m = canon_entries(e);
            lemma_canon_entries_strict(e);
            lemma_strict_entries_iff(m);
            lemma_strict_local_rewrite(m);
            lemma_strict_entries_iff(local_rewrite(m));
            lemma_local_rewrite_strict_node(m);
        },
        _ => {},
    }
}

/// Position-wise canonicalization leaves every position strict.
proof fn lemma_canon_entries_strict(l: Seq<(Seq<char>, JsonV)>)
    ensures
        strict_entries(canon_entries(l)),
    decreases l, 2int,
{
    if l.len() != 0 {
        lemma_canon_entries_strict(l.drop_last());
        lemma_canon_at_strict(l.last().0, l.last().1);
        let c = canon_entries(l);
        assert(c == canon_entries(l.drop_last()).push(
            (l.last().0, canon_at(l.last().0, l.last().1)),
        ));
        assert(c.drop_last() =~= canon_entries(l.drop_last()));
        assert(c.last() == (l.last().0, canon_at(l.last().0, l.last().1)));
    }
}

/// Canonicalizing one position leaves it strict.
proof fn lemma_canon_at_strict(k: Seq<char>, v: JsonV)
    ensures
        strict_at(k, canon_at(k, v)),
    decreases v, 1int,
{
    if k == "items"@ {
        match v {
            JsonV::Arr(items) => lemma_canon_list_strict(items),
            _ => lemma_canon_strict(v),
        }
    } else if is_single_sub(k) {
        lemma_canon_strict(v);
    } else if is_array_sub(k) {
        match v {
            JsonV::Arr(items) => lemma_canon_list_strict(items),
            _ => {},
        }
    } else if is_map_sub(k) {
        match v {
            JsonV::Obj(p) => lemma_canon_vals_strict(p),
            _ => {},
        }
    }
}

/// Canonicalizing every element leaves them all strict.
proof fn lemma_canon_list_strict(l: Seq<JsonV>)
    ensures
        strict_list(canon_list(l)),
    decreases l, 2int,
{
    if l.len() != 0 {
        lemma_canon_list_strict(l.drop_last());
        lemma_canon_strict(l.last());
        let c = canon_list(l);
        assert(c == canon_list(l.drop_last()).push(canon(l.last())));
        assert(c.drop_last() =~= canon_list(l.drop_last()));
        assert(c.last() == canon(l.last()));
    }
}

/// Canonicalizing every value leaves them all strict.
proof fn lemma_canon_vals_strict(l: Seq<(Seq<char>, JsonV)>)
    ensures
        strict_vals(canon_vals(l)),
    decreases l, 2int,
{
    if l.len() != 0 {
        lemma_canon_vals_strict(l.drop_last());
        lemma_canon_strict(l.last().1);
        let c = canon_vals(l);
        assert(c == canon_vals(l.drop_last()).push((l.last().0, canon(l.last().1))));
        assert(c.drop_last() =~= canon_vals(l.drop_last()));
        assert(c.last() == (l.last().0, canon(l.last().1)));
    }
}

} // verus!
