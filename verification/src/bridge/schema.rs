//! Tool schemas as strict consumers accept them: references inlined, `oneOf`
//! and type unions rewritten as `anyOf`, every array schema with its items.

use vstd::prelude::*;

use crate::json::{keys_ascend, nesting, nesting_of_all, nesting_of_members};
use crate::json::{obj_get, obj_insert, obj_remove, pairs_view};
use crate::json::{Json, JsonView, Object};
use crate::text::{strip_prefix, stripped, text_before, text_eq};

verus! {

/// How often a definition is expanded inside itself.
pub const REF_DEPTH: usize = 8;

// ── References ───────────────────────────────────────────────────────

/// The members of one object laid over those of another, references aside.
pub open spec fn overlaid(
    target: Seq<(Seq<char>, JsonView)>,
    src: Seq<(Seq<char>, JsonView)>,
) -> Seq<(Seq<char>, JsonView)>
    decreases src.len(),
{
    if src.len() == 0 {
        target
    } else if src.last().0 == "$ref"@ {
        overlaid(target, src.drop_last())
    } else {
        obj_insert(overlaid(target, src.drop_last()), src.last().0, src.last().1)
    }
}

/// The definition that an object refers to.
pub open spec fn referred(
    m: Seq<(Seq<char>, JsonView)>,
    defs: Seq<(Seq<char>, JsonView)>,
) -> Option<JsonView> {
    match obj_get(m, "$ref"@) {
        Some(JsonView::String(r)) => match stripped(r, "#/$defs/"@) {
            Some(name) => obj_get(defs, name),
            None => None,
        },
        _ => None,
    }
}

/// A schema with its references replaced by the definitions they name, the
/// members beside a reference kept over the definition's. Inside a definition
/// the depth is one less; at depth zero references stay.
pub open spec fn substituted(
    v: JsonView,
    defs: Seq<(Seq<char>, JsonView)>,
    depth: nat,
) -> JsonView
    decreases depth, v,
{
    if depth == 0 {
        v
    } else {
        match v {
            JsonView::Object(m) => {
                let own = substituted_members(m, defs, depth);
                match referred(m, defs) {
                    Some(def) => match substituted(def, defs, (depth - 1) as nat) {
                        JsonView::Object(inlined) => JsonView::Object(overlaid(inlined, own)),
                        other => other,
                    },
                    None => JsonView::Object(own),
                }
            },
            JsonView::Array(a) => JsonView::Array(
                Seq::new(
                    a.len(),
                    |i: int|
                        if 0 <= i < a.len() {
                            substituted(a[i], defs, depth)
                        } else {
                            JsonView::Null
                        },
                ),
            ),
            _ => v,
        }
    }
}

/// Members with the references below them replaced.
pub open spec fn substituted_members(
    m: Seq<(Seq<char>, JsonView)>,
    defs: Seq<(Seq<char>, JsonView)>,
    depth: nat,
) -> Seq<(Seq<char>, JsonView)>
    decreases depth, m,
{
    Seq::new(
        m.len(),
        |i: int|
            if 0 <= i < m.len() {
                (m[i].0, substituted(m[i].1, defs, depth))
            } else {
                (Seq::<char>::empty(), JsonView::Null)
            },
    )
}

/// The definitions that a schema carries.
pub open spec fn definitions(schema: JsonView) -> Seq<(Seq<char>, JsonView)> {
    match schema.get("$defs"@) {
        Some(JsonView::Object(m)) => m,
        _ => Seq::empty(),
    }
}

/// A schema without its definitions.
pub open spec fn without_definitions(schema: JsonView) -> JsonView {
    match schema {
        JsonView::Object(m) => JsonView::Object(obj_remove(m, "$defs"@)),
        _ => schema,
    }
}

/// A schema with its definitions inlined where they are referred to.
pub open spec fn inlined(schema: JsonView) -> JsonView {
    substituted(without_definitions(schema), definitions(schema), REF_DEPTH as nat)
}

/// Members with the same keys are in order together.
proof fn same_keys_ascend(a: Seq<(Seq<char>, JsonView)>, b: Seq<(Seq<char>, JsonView)>)
    requires
        keys_ascend(a),
        a.len() == b.len(),
        forall|i: int| 0 <= i < a.len() ==> (#[trigger] b[i]).0 == a[i].0,
    ensures
        keys_ascend(b),
{
    assert forall|i: int, j: int| 0 <= i < j < b.len() implies text_before(
        (#[trigger] b[i]).0,
        (#[trigger] b[j]).0,
    ) by {
        assert(text_before(a[i].0, a[j].0));
    }
}

/// Lays the members of one object over another's, references aside.
fn overlay(target: Object, src: &Object) -> (r: Object)
    ensures
        r.view() == overlaid(target.view(), src.view()),
{
    let mut out = target;
    let mut i: usize = 0;
    while i < src.len()
        invariant
            i <= src.view().len(),
            out.view() == overlaid(target.view(), src.view().take(i as int)),
        decreases src.view().len() - i,
    {
        let (k, val) = src.member(i);
        proof {
            let t = src.view().take(i + 1);
            assert(t.drop_last() =~= src.view().take(i as int));
            assert(t.last() == src.view()[i as int]);
        }
        if !text_eq(k.as_str(), "$ref") {
            out = out.insert(k.clone(), val.clone());
        }
        i = i + 1;
    }
    proof {
        assert(src.view().take(i as int) =~= src.view());
    }
    out
}

/// Finds the definition that an object refers to.
fn definition_for<'a>(m: &Object, defs: &'a Object) -> (r: Option<&'a Json>)
    ensures
        r is Some <==> referred(m.view(), defs.view()) is Some,
        r matches Some(d) ==> referred(m.view(), defs.view()) == Some(d.view()),
{
    match m.get("$ref") {
        Some(Json::String(r)) => match strip_prefix(r.as_str(), "#/$defs/") {
            Some(name) => defs.get(name.as_str()),
            None => None,
        },
        _ => None,
    }
}

/// Replaces the references in a schema.
pub fn substitute_refs(v: Json, defs: &Object, depth: usize) -> (r: Json)
    ensures
        r.view() == substituted(v.view(), defs.view(), depth as nat),
    decreases depth, v.view(),
{
    if depth == 0 {
        return v;
    }
    match v {
        Json::Object(m) => {
            let ghost before = m.view();
            let found: Option<Json> = match definition_for(&m, defs) {
                Some(def) => Some(substitute_refs(def.clone(), defs, depth - 1)),
                None => None,
            };
            let members = m.into_members();
            let ghost all = members@;
            let mut out: Vec<(String, Json)> = Vec::new();
            for p in it: members
                invariant
                    it.seq() == all,
                    out@.len() == it.index(),
                    pairs_view(all) == before,
                    v.view() == JsonView::Object(before),
                    depth > 0,
                    forall|k: int|
                        0 <= k < out@.len() ==> (#[trigger] out@[k]).0 == all[k].0
                            && out@[k].1.view() == substituted(
                            all[k].1.view(),
                            defs.view(),
                            depth as nat,
                        ),
            {
                proof {
                    let at = it.index() as int;
                    assert(before[at] == (p.0@, p.1.view()));
                    assert(decreases_to!(v.view() => v.view()->Object_0));
                    assert(decreases_to!(before => before[at]));
                    assert(decreases_to!(before[at] => before[at].1));
                }
                out.push((p.0, substitute_refs(p.1, defs, depth)));
            }
            proof {
                same_keys_ascend(before, pairs_view(out@));
                assert(pairs_view(out@) =~= substituted_members(
                    before,
                    defs.view(),
                    depth as nat,
                ));
            }
            let own = Object::from_members(out);
            match found {
                Some(Json::Object(inner)) => Json::Object(overlay(inner, &own)),
                Some(other) => other,
                None => Json::Object(own),
            }
        },
        Json::Array(a) => {
            let ghost all = a@;
            let mut out: Vec<Json> = Vec::new();
            for x in it: a
                invariant
                    it.seq() == all,
                    v.view() == JsonView::Array(Json::views(all)),
                    out@.len() == it.index(),
                    depth > 0,
                    forall|k: int|
                        0 <= k < out@.len() ==> (#[trigger] out@[k]).view() == substituted(
                            all[k].view(),
                            defs.view(),
                            depth as nat,
                        ),
            {
                proof {
                    let parts = Json::views(all);
                    assert(parts[it.index() as int] == x.view());
                    assert(decreases_to!(v.view() => v.view()->Array_0));
                    assert(decreases_to!(parts => parts[it.index() as int]));
                }
                out.push(substitute_refs(x, defs, depth));
            }
            proof {
                assert(Json::views(out@) =~= substituted(
                    JsonView::Array(Json::views(all)),
                    defs.view(),
                    depth as nat,
                )->Array_0);
            }
            Json::Array(out)
        },
        other => other,
    }
}

/// Recursively inlines `#/$defs/*` references so that weaker models (and
/// providers that reject `$ref`) get flat schemas. The depth bound breaks
/// reference cycles: recursive types stay as `$ref`.
pub fn inline_defs(schema: &Json) -> (r: Json)
    ensures
        r.view() == inlined(schema.view()),
{
    let defs = match schema.get("$defs") {
        Some(Json::Object(m)) => m.clone(),
        _ => Object::new(),
    };
    let out = match schema.clone() {
        Json::Object(m) => {
            let (rest, _) = m.remove("$defs");
            Json::Object(rest)
        },
        other => other,
    };
    substitute_refs(out, &defs, REF_DEPTH)
}

// ── Strict form ──────────────────────────────────────────────────────

/// An object with `oneOf` turned into `anyOf`.
pub open spec fn one_of_folded(m: Seq<(Seq<char>, JsonView)>) -> Seq<(Seq<char>, JsonView)> {
    match obj_get(m, "oneOf"@) {
        None => m,
        Some(one_of) => {
            let rest = obj_remove(m, "oneOf"@);
            match (obj_get(rest, "anyOf"@), one_of) {
                (Some(JsonView::Array(existing)), JsonView::Array(add)) => obj_insert(
                    rest,
                    "anyOf"@,
                    JsonView::Array(existing + add),
                ),
                (Some(JsonView::Array(_)), _) => rest,
                _ => obj_insert(rest, "anyOf"@, one_of),
            }
        },
    }
}

/// The schema of one type.
pub open spec fn type_variant(t: JsonView) -> JsonView {
    JsonView::Object(seq![("type"@, t)])
}

/// An object with a union of types turned into `anyOf`.
pub open spec fn types_folded(m: Seq<(Seq<char>, JsonView)>) -> Seq<(Seq<char>, JsonView)> {
    match obj_get(m, "type"@) {
        Some(JsonView::Array(types)) => {
            let rest = obj_remove(m, "type"@);
            let variants = types.map_values(|t: JsonView| type_variant(t));
            match obj_get(rest, "anyOf"@) {
                Some(JsonView::Array(existing)) => obj_insert(
                    rest,
                    "anyOf"@,
                    JsonView::Array(existing + variants),
                ),
                _ => obj_insert(rest, "anyOf"@, JsonView::Array(variants)),
            }
        },
        _ => m,
    }
}

/// An object with items declared where its type is an array.
pub open spec fn items_declared(m: Seq<(Seq<char>, JsonView)>) -> Seq<(Seq<char>, JsonView)> {
    if obj_get(m, "type"@) == Some(JsonView::String("array"@)) && obj_get(m, "items"@) is None {
        obj_insert(m, "items"@, JsonView::Object(Seq::empty()))
    } else {
        m
    }
}

/// A schema with its items declared where it is an array schema.
pub open spec fn with_items(v: JsonView) -> JsonView {
    match v {
        JsonView::Object(m) => JsonView::Object(items_declared(m)),
        _ => v,
    }
}

/// A schema in strict form, at every level.
pub open spec fn strict(v: JsonView) -> JsonView
    decreases
            nesting(v),
            if v is Object {
                1int
            } else {
                0int
            },
            1int,
{
    with_items(rewritten(v))
}

/// A schema with its unions rewritten as `anyOf` and the schemas below it in
/// strict form.
pub open spec fn rewritten(v: JsonView) -> JsonView
    decreases
            nesting(v),
            if v is Object {
                1int
            } else {
                0int
            },
            0int,
{
    match v {
        JsonView::Object(m) => {
            let folded = types_folded(one_of_folded(m));
            proof {
                folded_nesting(m);
            }
            JsonView::Object(
                Seq::new(
                    folded.len(),
                    |i: int|
                        if 0 <= i < folded.len() {
                            (folded[i].0, strict(folded[i].1))
                        } else {
                            (Seq::<char>::empty(), JsonView::Null)
                        },
                ),
            )
        },
        JsonView::Array(a) => {
            proof {
                all_nesting(a);
            }
            JsonView::Array(
                Seq::new(
                    a.len(),
                    |i: int|
                        if 0 <= i < a.len() {
                            strict(a[i])
                        } else {
                            JsonView::Null
                        },
                ),
            )
        },
        _ => v,
    }
}

/// No value nests deeper than the deepest of its array.
pub proof fn all_nesting(a: Seq<JsonView>)
    ensures
        forall|i: int| 0 <= i < a.len() ==> nesting(#[trigger] a[i]) <= nesting_of_all(a),
    decreases a.len(),
{
    if a.len() > 0 {
        all_nesting(a.drop_last());
        assert forall|i: int| 0 <= i < a.len() implies nesting(#[trigger] a[i]) <= nesting_of_all(
            a,
        ) by {
            if i < a.len() - 1 {
                assert(nesting(a.drop_last()[i]) <= nesting_of_all(a.drop_last()));
            }
        }
    }
}

/// No member nests deeper than the deepest of its object.
proof fn members_nesting(m: Seq<(Seq<char>, JsonView)>)
    ensures
        forall|i: int| 0 <= i < m.len() ==> nesting((#[trigger] m[i]).1) <= nesting_of_members(m),
    decreases m.len(),
{
    if m.len() > 0 {
        members_nesting(m.drop_last());
        assert forall|i: int| 0 <= i < m.len() implies nesting((#[trigger] m[i]).1)
            <= nesting_of_members(m) by {
            if i < m.len() - 1 {
                assert(nesting(m.drop_last()[i].1) <= nesting_of_members(m.drop_last()));
            }
        }
    }
}

/// What is found under a key nests no deeper than the members do.
proof fn found_nesting(m: Seq<(Seq<char>, JsonView)>, key: Seq<char>, bound: nat)
    requires
        forall|i: int| 0 <= i < m.len() ==> nesting((#[trigger] m[i]).1) <= bound,
    ensures
        obj_get(m, key) matches Some(v) ==> nesting(v) <= bound,
{
    if obj_get(m, key) is Some {
        let at = crate::json::obj_get_found(m, key);
        assert(nesting(m[at].1) <= bound);
    }
}

/// Every member after a removal was one before.
proof fn removed_from(m: Seq<(Seq<char>, JsonView)>, key: Seq<char>)
    ensures
        forall|i: int|
            0 <= i < obj_remove(m, key).len() ==> m.contains(#[trigger] obj_remove(m, key)[i]),
    decreases m.len(),
{
    if m.len() > 0 {
        removed_from(m.drop_last(), key);
        let r = obj_remove(m, key);
        assert forall|i: int| 0 <= i < r.len() implies m.contains(#[trigger] r[i]) by {
            if m.last().0 != key && i == r.len() - 1 {
                assert(m[m.len() - 1] == r[i]);
            } else {
                let d = m.drop_last();
                assert(d.contains(obj_remove(d, key)[i]));
                let k = choose|k: int| 0 <= k < d.len() && d[k] == r[i];
                assert(m[k] == r[i]);
            }
        }
    }
}

/// Every member after an insertion was one before or is the new one.
proof fn inserted_into(m: Seq<(Seq<char>, JsonView)>, key: Seq<char>, value: JsonView)
    ensures
        forall|i: int|
            0 <= i < obj_insert(m, key, value).len() ==> (#[trigger] obj_insert(m, key, value)[i])
                == (key, value) || m.contains(obj_insert(m, key, value)[i]),
    decreases m.len(),
{
    let r = obj_insert(m, key, value);
    if m.len() > 0 {
        inserted_into(m.drop_last(), key, value);
        assert forall|i: int| 0 <= i < r.len() implies (#[trigger] r[i]) == (key, value)
            || m.contains(r[i]) by {
            if m.last().0 == key {
                if i < m.len() - 1 {
                    assert(m[i] == r[i]);
                }
            } else if crate::text::text_before(m.last().0, key) {
                if i < m.len() {
                    assert(m[i] == r[i]);
                }
            } else if i == r.len() - 1 {
                assert(m[m.len() - 1] == r[i]);
            } else {
                let d = m.drop_last();
                assert(obj_insert(d, key, value)[i] == r[i]);
                if r[i] != (key, value) {
                    assert(d.contains(r[i]));
                    let k = choose|k: int| 0 <= k < d.len() && d[k] == r[i];
                    assert(m[k] == r[i]);
                }
            }
        }
    }
}

spec fn members_within(m: Seq<(Seq<char>, JsonView)>, bound: nat) -> bool {
    forall|i: int| 0 <= i < m.len() ==> nesting((#[trigger] m[i]).1) <= bound
}

proof fn removal_within(m: Seq<(Seq<char>, JsonView)>, key: Seq<char>, bound: nat)
    requires
        members_within(m, bound),
    ensures
        members_within(obj_remove(m, key), bound),
{
    removed_from(m, key);
    let r = obj_remove(m, key);
    assert forall|i: int| 0 <= i < r.len() implies nesting((#[trigger] r[i]).1) <= bound by {
        assert(m.contains(r[i]));
        let k = choose|k: int| 0 <= k < m.len() && m[k] == r[i];
        assert(nesting(m[k].1) <= bound);
    }
}

/// Folding nests no member deeper than the object; one that nests as deep as
/// the object is an array.
pub proof fn folded_nesting(m: Seq<(Seq<char>, JsonView)>)
    ensures
        ({
            let folded = types_folded(one_of_folded(m));
            forall|i: int|
                0 <= i < folded.len() ==> nesting((#[trigger] folded[i]).1) <= nesting(
                    JsonView::Object(m),
                ) && (nesting(folded[i].1) == nesting(JsonView::Object(m)) ==> folded[i].1 is Array)
        }),
{
    let bound = nesting_of_members(m);
    members_nesting(m);
    let f = one_of_folded(m);
    assert(members_within(f, bound)) by {
        found_nesting(m, "oneOf"@, bound);
        removal_within(m, "oneOf"@, bound);
        let rest = obj_remove(m, "oneOf"@);
        found_nesting(rest, "anyOf"@, bound);
        if let Some(one_of) = obj_get(m, "oneOf"@) {
            let value = match (obj_get(rest, "anyOf"@), one_of) {
                (Some(JsonView::Array(existing)), JsonView::Array(add)) => JsonView::Array(
                    existing + add,
                ),
                _ => one_of,
            };
            assert(nesting(value) <= bound) by {
                if let (Some(JsonView::Array(existing)), JsonView::Array(add)) = (
                    obj_get(rest, "anyOf"@),
                    one_of,
                ) {
                    all_nesting(existing);
                    all_nesting(add);
                    let both = existing + add;
                    assert forall|i: int| 0 <= i < both.len() implies nesting(#[trigger] both[i])
                        <= bound - 1 by {
                        if i < existing.len() {
                            assert(nesting(existing[i]) <= nesting_of_all(existing));
                        } else {
                            assert(nesting(add[i - existing.len()]) <= nesting_of_all(add));
                        }
                    }
                    crate::json::values_nesting_bound(both, (bound - 1) as nat);
                }
            }
            inserted_into(rest, "anyOf"@, value);
            let r = obj_insert(rest, "anyOf"@, value);
            assert forall|i: int| 0 <= i < r.len() implies nesting((#[trigger] r[i]).1) <= bound by {
                if r[i] != ("anyOf"@, value) {
                    assert(rest.contains(r[i]));
                    let k = choose|k: int| 0 <= k < rest.len() && rest[k] == r[i];
                    assert(nesting(rest[k].1) <= bound);
                }
            }
        }
    }
    let g = types_folded(f);
    found_nesting(f, "type"@, bound);
    if let Some(JsonView::Array(types)) = obj_get(f, "type"@) {
        let rest = obj_remove(f, "type"@);
        removal_within(f, "type"@, bound);
        found_nesting(rest, "anyOf"@, bound);
        let variants = types.map_values(|t: JsonView| type_variant(t));
        let list = match obj_get(rest, "anyOf"@) {
            Some(JsonView::Array(existing)) => existing + variants,
            _ => variants,
        };
        all_nesting(types);
        assert forall|i: int| 0 <= i < list.len() implies nesting(#[trigger] list[i]) <= bound by {
            let from = list.len() - variants.len();
            if i < from {
                if let Some(JsonView::Array(existing)) = obj_get(rest, "anyOf"@) {
                    all_nesting(existing);
                    assert(nesting(existing[i]) <= nesting_of_all(existing));
                }
            } else {
                let t = types[i - from];
                assert(list[i] == type_variant(t));
                assert(nesting(t) <= nesting_of_all(types));
                let one = seq![("type"@, t)];
                assert(one.drop_last() =~= Seq::<(Seq<char>, JsonView)>::empty());
                reveal_with_fuel(nesting_of_members, 2);
                assert(nesting_of_members(one) == nesting(t));
            }
        }
        crate::json::values_nesting_bound(list, bound);
        inserted_into(rest, "anyOf"@, JsonView::Array(list));
        assert forall|i: int| 0 <= i < g.len() implies nesting((#[trigger] g[i]).1) <= bound + 1 && (
        nesting(g[i].1) == bound + 1 ==> g[i].1 is Array) by {
            if g[i] != ("anyOf"@, JsonView::Array(list)) {
                assert(rest.contains(g[i]));
                let k = choose|k: int| 0 <= k < rest.len() && rest[k] == g[i];
                assert(nesting(rest[k].1) <= bound);
            }
        }
    }
}

/// The values of an array member, or `None` for anything else.
fn array_member(m: &Object, key: &str) -> (r: Option<Vec<Json>>)
    ensures
        match r {
            Some(a) => obj_get(m.view(), key@) == Some(JsonView::Array(Json::views(a@))),
            None => !(obj_get(m.view(), key@) matches Some(JsonView::Array(_))),
        },
{
    match m.get(key) {
        Some(j) => match j.clone() {
            Json::Array(a) => Some(a),
            _ => None,
        },
        None => None,
    }
}

/// Values of one list after those of another.
fn appended(first: Vec<Json>, second: Vec<Json>) -> (r: Vec<Json>)
    ensures
        Json::views(r@) == Json::views(first@) + Json::views(second@),
{
    let mut out = first;
    let mut more = second;
    out.append(&mut more);
    proof {
        assert(Json::views(out@) =~= Json::views(first@) + Json::views(second@));
    }
    out
}

/// Turns `oneOf` into `anyOf`.
fn fold_one_of(m: Object) -> (r: Object)
    ensures
        r.view() == one_of_folded(m.view()),
{
    let (rest, taken) = m.remove("oneOf");
    match taken {
        None => {
            proof {
                crate::json::obj_remove_none(m.view(), "oneOf"@);
            }
            rest
        },
        Some(one_of) => match array_member(&rest, "anyOf") {
            Some(existing) => match one_of {
                Json::Array(add) => rest.insert(
                    "anyOf".to_owned(),
                    Json::Array(appended(existing, add)),
                ),
                _ => rest,
            },
            None => rest.insert("anyOf".to_owned(), one_of),
        },
    }
}

/// The schema of each type.
fn type_variants(types: Vec<Json>) -> (r: Vec<Json>)
    ensures
        Json::views(r@) == Json::views(types@).map_values(|t: JsonView| type_variant(t)),
{
    let ghost all = types@;
    let mut out: Vec<Json> = Vec::new();
    for t in it: types
        invariant
            it.seq() == all,
            out@.len() == it.index(),
            forall|k: int|
                0 <= k < out@.len() ==> (#[trigger] out@[k]).view() == type_variant(all[k].view()),
    {
        let ghost tv = t.view();
        let m = Object::new().insert("type".to_owned(), t);
        proof {
            assert(m.view() =~= seq![("type"@, tv)]);
        }
        out.push(Json::Object(m));
    }
    proof {
        assert(Json::views(out@) =~= Json::views(all).map_values(|t: JsonView| type_variant(t)));
    }
    out
}

/// Turns a union of types into `anyOf`.
fn fold_types(m: Object) -> (r: Object)
    ensures
        r.view() == types_folded(m.view()),
{
    match array_member(&m, "type") {
        None => m,
        Some(types) => {
            let (rest, _) = m.remove("type");
            let variants = type_variants(types);
            match array_member(&rest, "anyOf") {
                Some(existing) => rest.insert(
                    "anyOf".to_owned(),
                    Json::Array(appended(existing, variants)),
                ),
                None => rest.insert("anyOf".to_owned(), Json::Array(variants)),
            }
        },
    }
}

/// Declares the items of an array schema that has none.
fn declare_items(m: Object) -> (r: Object)
    ensures
        r.view() == items_declared(m.view()),
{
    let is_array = match m.get("type") {
        Some(Json::String(t)) => text_eq(t.as_str(), "array"),
        _ => false,
    };
    if is_array && m.get("items").is_none() {
        m.insert("items".to_owned(), Json::Object(Object::new()))
    } else {
        m
    }
}

/// Strict consumers of tool schemas reject `oneOf` and array-valued `type`
/// (such as `["string","null"]` for an optional text, or enum variants).
/// Rewrites both into the equivalent `anyOf` form, and declares the items of
/// every array schema.
pub fn sanitize_for_strict(v: Json) -> (r: Json)
    ensures
        r.view() == strict(v.view()),
    decreases
            nesting(v.view()),
            if v.view() is Object {
                1int
            } else {
                0int
            },
{
    let ghost whole = v.view();
    match v {
        Json::Object(m) => {
            let ghost before = m.view();
            proof {
                folded_nesting(before);
            }
            let folded = fold_types(fold_one_of(m));
            let ghost parts = folded.view();
            let members = folded.into_members();
            let ghost all = members@;
            let mut out: Vec<(String, Json)> = Vec::new();
            for p in it: members
                invariant
                    it.seq() == all,
                    pairs_view(all) == parts,
                    whole == JsonView::Object(before),
                    whole == v.view(),
                    parts == types_folded(one_of_folded(before)),
                    forall|i: int|
                        0 <= i < parts.len() ==> nesting((#[trigger] parts[i]).1) <= nesting(whole)
                            && (nesting(parts[i].1) == nesting(whole) ==> parts[i].1 is Array),
                    out@.len() == it.index(),
                    forall|k: int|
                        0 <= k < out@.len() ==> (#[trigger] out@[k]).0 == all[k].0
                            && out@[k].1.view() == strict(all[k].1.view()),
            {
                proof {
                    assert(parts[it.index() as int] == (p.0@, p.1.view()));
                }
                out.push((p.0, sanitize_for_strict(p.1)));
            }
            proof {
                same_keys_ascend(parts, pairs_view(out@));
                assert(pairs_view(out@) =~= rewritten(whole)->Object_0);
            }
            Json::Object(declare_items(Object::from_members(out)))
        },
        Json::Array(a) => {
            let ghost all = a@;
            proof {
                all_nesting(Json::views(all));
            }
            let mut out: Vec<Json> = Vec::new();
            for x in it: a
                invariant
                    it.seq() == all,
                    whole == JsonView::Array(Json::views(all)),
                    whole == v.view(),
                    forall|i: int|
                        0 <= i < Json::views(all).len() ==> nesting(#[trigger] Json::views(all)[i])
                            <= nesting_of_all(Json::views(all)),
                    out@.len() == it.index(),
                    forall|k: int|
                        0 <= k < out@.len() ==> (#[trigger] out@[k]).view() == strict(all[k].view()),
            {
                proof {
                    assert(Json::views(all)[it.index() as int] == x.view());
                }
                out.push(sanitize_for_strict(x));
            }
            proof {
                assert(Json::views(out@) =~= rewritten(whole)->Array_0);
            }
            Json::Array(out)
        },
        other => other,
    }
}

// ── Laws ─────────────────────────────────────────────────────────────

/// Whether a schema is in strict form at every level: no `oneOf`, no union of
/// types, items for every array.
pub open spec fn is_strict(v: JsonView) -> bool
    decreases v,
{
    match v {
        JsonView::Object(m) => {
            &&& obj_get(m, "oneOf"@) is None
            &&& !(obj_get(m, "type"@) matches Some(JsonView::Array(_)))
            &&& obj_get(m, "type"@) == Some(JsonView::String("array"@)) ==> obj_get(
                m,
                "items"@,
            ) is Some
            &&& forall|i: int| 0 <= i < m.len() ==> is_strict((#[trigger] m[i]).1)
        },
        JsonView::Array(a) => forall|i: int| 0 <= i < a.len() ==> is_strict(#[trigger] a[i]),
        _ => true,
    }
}

proof fn keywords_differ()
    ensures
        "oneOf"@ != "anyOf"@,
        "oneOf"@ != "type"@,
        "oneOf"@ != "items"@,
        "anyOf"@ != "type"@,
        "type"@ != "items"@,
{
    reveal_strlit("oneOf");
    reveal_strlit("anyOf");
    reveal_strlit("type");
    reveal_strlit("items");
    assert("oneOf"@[0] == 'o');
    assert("anyOf"@[0] == 'a');
    assert("type"@[0] == 't');
    assert("items"@[0] == 'i');
}

/// Folding leaves neither `oneOf` nor a union of types.
proof fn folded_keywords(m: Seq<(Seq<char>, JsonView)>)
    ensures
        ({
            let folded = types_folded(one_of_folded(m));
            &&& obj_get(folded, "oneOf"@) is None
            &&& !(obj_get(folded, "type"@) matches Some(JsonView::Array(_)))
        }),
{
    keywords_differ();
    let f = one_of_folded(m);
    assert(obj_get(f, "oneOf"@) is None) by {
        if let Some(one_of) = obj_get(m, "oneOf"@) {
            let rest = obj_remove(m, "oneOf"@);
            crate::json::obj_remove_get(m, "oneOf"@, "anyOf"@);
            crate::json::obj_insert_get(rest, "anyOf"@, one_of, "oneOf"@);
            if let (Some(JsonView::Array(existing)), JsonView::Array(add)) = (
                obj_get(rest, "anyOf"@),
                one_of,
            ) {
                crate::json::obj_insert_get(
                    rest,
                    "anyOf"@,
                    JsonView::Array(existing + add),
                    "oneOf"@,
                );
            }
        }
    }
    if let Some(JsonView::Array(types)) = obj_get(f, "type"@) {
        let rest = obj_remove(f, "type"@);
        let variants = types.map_values(|t: JsonView| type_variant(t));
        let list = match obj_get(rest, "anyOf"@) {
            Some(JsonView::Array(existing)) => existing + variants,
            _ => variants,
        };
        crate::json::obj_remove_get(f, "type"@, "oneOf"@);
        crate::json::obj_insert_get(rest, "anyOf"@, JsonView::Array(list), "oneOf"@);
        crate::json::obj_insert_get(rest, "anyOf"@, JsonView::Array(list), "type"@);
    }
}

/// What stands under a key once every member is in strict form.
proof fn strict_member(
    a: Seq<(Seq<char>, JsonView)>,
    b: Seq<(Seq<char>, JsonView)>,
    key: Seq<char>,
)
    requires
        a.len() == b.len(),
        forall|i: int| 0 <= i < a.len() ==> (#[trigger] b[i]) == (a[i].0, strict(a[i].1)),
    ensures
        match obj_get(a, key) {
            Some(x) => obj_get(b, key) == Some(strict(x)),
            None => obj_get(b, key) is None,
        },
    decreases a.len(),
{
    if a.len() > 0 {
        let n = a.len() - 1;
        assert(b[n] == (a[n].0, strict(a[n].1)));
        assert forall|i: int| 0 <= i < n implies (#[trigger] b.drop_last()[i]) == (
            a.drop_last()[i].0,
            strict(a.drop_last()[i].1),
        ) by {
            assert(b[i] == (a[i].0, strict(a[i].1)));
        }
        strict_member(a.drop_last(), b.drop_last(), key);
    }
}

/// Whatever the schema, its strict form has no `oneOf`, no union of types and
/// no array schema without items, at any level.
pub proof fn strict_form_is_strict(v: JsonView)
    ensures
        is_strict(strict(v)),
    decreases
            nesting(v),
            if v is Object {
                1int
            } else {
                0int
            },
{
    match v {
        JsonView::Object(m) => {
            let folded = types_folded(one_of_folded(m));
            folded_nesting(m);
            folded_keywords(m);
            keywords_differ();
            let inner = rewritten(v)->Object_0;
            assert forall|i: int| 0 <= i < folded.len() implies (#[trigger] inner[i]) == (
                folded[i].0,
                strict(folded[i].1),
            ) && is_strict(inner[i].1) by {
                strict_form_is_strict(folded[i].1);
            }
            strict_member(folded, inner, "oneOf"@);
            strict_member(folded, inner, "type"@);
            let r = items_declared(inner);
            let none = JsonView::Object(Seq::empty());
            crate::json::obj_insert_get(inner, "items"@, none, "oneOf"@);
            crate::json::obj_insert_get(inner, "items"@, none, "type"@);
            inserted_into(inner, "items"@, none);
            assert(is_strict(none));
            assert forall|i: int| 0 <= i < r.len() implies is_strict((#[trigger] r[i]).1) by {
                if r[i] != ("items"@, none) {
                    if r == inner {
                        assert(is_strict(inner[i].1));
                    } else {
                        assert(inner.contains(r[i]));
                        let k = choose|k: int| 0 <= k < inner.len() && inner[k] == r[i];
                        assert(is_strict(inner[k].1));
                    }
                }
            }
            assert(strict(v) == JsonView::Object(r));
        },
        JsonView::Array(a) => {
            all_nesting(a);
            let inner = rewritten(v)->Array_0;
            assert forall|i: int| 0 <= i < inner.len() implies is_strict(#[trigger] inner[i]) by {
                strict_form_is_strict(a[i]);
            }
        },
        _ => {},
    }
}

/// A schema in strict form stays as it is.
pub proof fn strict_form_is_kept(v: JsonView)
    requires
        is_strict(v),
    ensures
        strict(v) == v,
    decreases
            nesting(v),
            if v is Object {
                1int
            } else {
                0int
            },
{
    match v {
        JsonView::Object(m) => {
            folded_nesting(m);
            assert(types_folded(one_of_folded(m)) == m);
            let inner = rewritten(v)->Object_0;
            assert forall|i: int| 0 <= i < m.len() implies (#[trigger] inner[i]) == m[i] by {
                assert(is_strict(m[i].1));
                strict_form_is_kept(m[i].1);
            }
            assert(inner =~= m);
        },
        JsonView::Array(a) => {
            all_nesting(a);
            let inner = rewritten(v)->Array_0;
            assert forall|i: int| 0 <= i < a.len() implies (#[trigger] inner[i]) == a[i] by {
                assert(is_strict(a[i]));
                strict_form_is_kept(a[i]);
            }
            assert(inner =~= a);
        },
        _ => {},
    }
}

/// Sanitizing twice is sanitizing once.
pub proof fn strict_form_is_idempotent(v: JsonView)
    ensures
        strict(strict(v)) == strict(v),
{
    strict_form_is_strict(v);
    strict_form_is_kept(strict(v));
}

// ── What inlining keeps ──────────────────────────────────────────────

/// Whether nothing in a schema refers to a definition.
pub open spec fn self_contained(v: JsonView, defs: Seq<(Seq<char>, JsonView)>) -> bool
    decreases v,
{
    match v {
        JsonView::Object(m) => referred(m, defs) is None && forall|i: int|
            0 <= i < m.len() ==> self_contained((#[trigger] m[i]).1, defs),
        JsonView::Array(a) => forall|i: int|
            0 <= i < a.len() ==> self_contained(#[trigger] a[i], defs),
        _ => true,
    }
}

/// What becomes of each member.
proof fn member_by_member(
    m: Seq<(Seq<char>, JsonView)>,
    defs: Seq<(Seq<char>, JsonView)>,
    depth: nat,
)
    ensures
        substituted_members(m, defs, depth).len() == m.len(),
        forall|i: int|
            0 <= i < m.len() ==> #[trigger] substituted_members(m, defs, depth)[i] == (
                m[i].0,
                substituted(m[i].1, defs, depth),
            ),
{
}

/// A schema that refers to nothing stays as it is.
pub proof fn self_contained_is_kept(
    v: JsonView,
    defs: Seq<(Seq<char>, JsonView)>,
    depth: nat,
)
    requires
        self_contained(v, defs),
    ensures
        substituted(v, defs, depth) == v,
    decreases v,
{
    if depth > 0 {
        match v {
            JsonView::Object(m) => {
                let r = substituted(v, defs, depth);
                member_by_member(m, defs, depth);
                assert forall|i: int| 0 <= i < m.len() implies #[trigger] r->Object_0[i]
                    == m[i] by {
                    assert(decreases_to!(v => m[i].1));
                    self_contained_is_kept(m[i].1, defs, depth);
                }
                assert(r->Object_0 =~= m);
            },
            JsonView::Array(a) => {
                let r = substituted(v, defs, depth);
                assert forall|i: int| 0 <= i < a.len() implies #[trigger] r->Array_0[i]
                    == a[i] by {
                    assert(decreases_to!(v => a[i]));
                    self_contained_is_kept(a[i], defs, depth);
                }
                assert(r->Array_0 =~= a);
            },
            _ => {},
        }
    }
}

/// The definitions of a schema are not in its inlined form, unless the schema
/// as a whole is a reference.
pub proof fn definitions_are_dropped(m: Seq<(Seq<char>, JsonView)>)
    requires
        referred(obj_remove(m, "$defs"@), definitions(JsonView::Object(m))) is None,
    ensures
        inlined(JsonView::Object(m)).get("$defs"@) is None,
{
    let schema = JsonView::Object(m);
    let rest = obj_remove(m, "$defs"@);
    let r = inlined(schema)->Object_0;
    member_by_member(rest, definitions(schema), REF_DEPTH as nat);
    crate::json::obj_remove_get(m, "$defs"@, "$defs"@);
    if obj_get(r, "$defs"@) is Some {
        let at = crate::json::obj_get_found(r, "$defs"@);
        assert(r[at].0 == rest[at].0);
        some_member_has_key(rest, at);
    }
}

/// A key that a member has gives some member.
proof fn some_member_has_key(m: Seq<(Seq<char>, JsonView)>, at: int)
    requires
        0 <= at < m.len(),
    ensures
        obj_get(m, m[at].0) is Some,
    decreases m.len(),
{
    if at < m.len() - 1 {
        some_member_has_key(m.drop_last(), at);
    }
}

/// Where a reference is replaced, the members beside it count over those of
/// the definition, which keeps all its others.
pub proof fn own_members_win(
    definition: Seq<(Seq<char>, JsonView)>,
    own: Seq<(Seq<char>, JsonView)>,
    key: Seq<char>,
)
    requires
        key != "$ref"@,
    ensures
        obj_get(overlaid(definition, own), key) == if obj_get(own, key) is Some {
            obj_get(own, key)
        } else {
            obj_get(definition, key)
        },
    decreases own.len(),
{
    if own.len() > 0 {
        own_members_win(definition, own.drop_last(), key);
        if own.last().0 != "$ref"@ {
            crate::json::obj_insert_get(
                overlaid(definition, own.drop_last()),
                own.last().0,
                own.last().1,
                key,
            );
        }
    }
}

// ── Flat schemas ─────────────────────────────────────────────────────

/// Whether the references in a schema lead through at most a number of
/// definitions, one inside the other.
pub open spec fn leads_within(
    v: JsonView,
    defs: Seq<(Seq<char>, JsonView)>,
    levels: nat,
) -> bool
    decreases levels, v,
{
    match v {
        JsonView::Object(m) => {
            &&& match referred(m, defs) {
                Some(def) => levels > 0 && leads_within(def, defs, (levels - 1) as nat),
                None => true,
            }
            &&& forall|i: int| 0 <= i < m.len() ==> leads_within((#[trigger] m[i]).1, defs, levels)
        },
        JsonView::Array(a) => forall|i: int|
            0 <= i < a.len() ==> leads_within(#[trigger] a[i], defs, levels),
        _ => true,
    }
}

/// Whether no definition is a bare text, which is no schema.
pub open spec fn no_bare_texts(defs: Seq<(Seq<char>, JsonView)>) -> bool {
    forall|i: int| 0 <= i < defs.len() ==> !((#[trigger] defs[i]).1 is String)
}

/// What an object refers to is no bare text.
proof fn referred_is_no_text(
    m: Seq<(Seq<char>, JsonView)>,
    defs: Seq<(Seq<char>, JsonView)>,
)
    requires
        no_bare_texts(defs),
    ensures
        referred(m, defs) matches Some(def) ==> !(def is String),
{
    if let Some(JsonView::String(r)) = obj_get(m, "$ref"@) {
        if let Some(name) = stripped(r, "#/$defs/"@) {
            if obj_get(defs, name) is Some {
                let at = crate::json::obj_get_found(defs, name);
                assert(!(defs[at].1 is String));
            }
        }
    }
}

/// Nothing turns into a text.
proof fn texts_stay_texts(v: JsonView, defs: Seq<(Seq<char>, JsonView)>, depth: nat)
    requires
        no_bare_texts(defs),
    ensures
        v is String ==> substituted(v, defs, depth) == v,
        !(v is String) ==> !(substituted(v, defs, depth) is String),
    decreases depth,
{
    if depth > 0 {
        if let JsonView::Object(m) = v {
            referred_is_no_text(m, defs);
            if let Some(def) = referred(m, defs) {
                texts_stay_texts(def, defs, (depth - 1) as nat);
            }
        }
    }
}

/// What stands under a key once the references below it are replaced.
proof fn substituted_member(
    m: Seq<(Seq<char>, JsonView)>,
    defs: Seq<(Seq<char>, JsonView)>,
    depth: nat,
    key: Seq<char>,
)
    ensures
        obj_get(substituted_members(m, defs, depth), key) == match obj_get(m, key) {
            Some(x) => Some(substituted(x, defs, depth)),
            None => None,
        },
    decreases m.len(),
{
    member_by_member(m, defs, depth);
    if m.len() > 0 {
        let all = substituted_members(m, defs, depth);
        let front = substituted_members(m.drop_last(), defs, depth);
        member_by_member(m.drop_last(), defs, depth);
        assert(all.drop_last() =~= front) by {
            assert forall|i: int| 0 <= i < front.len() implies all.drop_last()[i] == #[trigger] front[i] by {
                assert(all[i] == (m[i].0, substituted(m[i].1, defs, depth)));
            }
        }
        assert(all[m.len() - 1] == (m.last().0, substituted(m.last().1, defs, depth)));
        substituted_member(m.drop_last(), defs, depth, key);
    }
}

/// What is laid over a definition brings in no reference of its own.
proof fn overlaid_keeps_ref(
    target: Seq<(Seq<char>, JsonView)>,
    src: Seq<(Seq<char>, JsonView)>,
)
    ensures
        obj_get(overlaid(target, src), "$ref"@) == obj_get(target, "$ref"@),
    decreases src.len(),
{
    if src.len() > 0 {
        overlaid_keeps_ref(target, src.drop_last());
        if src.last().0 != "$ref"@ {
            crate::json::obj_insert_get(
                overlaid(target, src.drop_last()),
                src.last().0,
                src.last().1,
                "$ref"@,
            );
        }
    }
}

spec fn members_contained(
    m: Seq<(Seq<char>, JsonView)>,
    defs: Seq<(Seq<char>, JsonView)>,
) -> bool {
    forall|i: int| 0 <= i < m.len() ==> self_contained((#[trigger] m[i]).1, defs)
}

/// Members that refer to nothing, laid over others that do not, give such
/// members.
proof fn overlaid_is_contained(
    target: Seq<(Seq<char>, JsonView)>,
    src: Seq<(Seq<char>, JsonView)>,
    defs: Seq<(Seq<char>, JsonView)>,
)
    requires
        members_contained(target, defs),
        members_contained(src, defs),
    ensures
        members_contained(overlaid(target, src), defs),
    decreases src.len(),
{
    if src.len() > 0 {
        let front = src.drop_last();
        assert(members_contained(front, defs)) by {
            assert forall|i: int| 0 <= i < front.len() implies self_contained(
                (#[trigger] front[i]).1,
                defs,
            ) by {
                assert(self_contained(src[i].1, defs));
            }
        }
        overlaid_is_contained(target, front, defs);
        if src.last().0 != "$ref"@ {
            let part = overlaid(target, front);
            let r = overlaid(target, src);
            inserted_into(part, src.last().0, src.last().1);
            assert(self_contained(src[src.len() - 1].1, defs));
            assert forall|i: int| 0 <= i < r.len() implies self_contained(
                (#[trigger] r[i]).1,
                defs,
            ) by {
                if r[i] != src.last() {
                    assert(part.contains(r[i]));
                    let k = choose|k: int| 0 <= k < part.len() && part[k] == r[i];
                    assert(self_contained(part[k].1, defs));
                }
            }
        }
    }
}

/// Replacing references leaves none, where they lead through no more
/// definitions than the depth admits.
pub proof fn replacing_leaves_no_reference(
    v: JsonView,
    defs: Seq<(Seq<char>, JsonView)>,
    depth: nat,
)
    requires
        leads_within(v, defs, depth),
        no_bare_texts(defs),
    ensures
        self_contained(substituted(v, defs, depth), defs),
    decreases depth, v,
{
    match v {
        JsonView::Object(m) => {
            if depth == 0 {
                assert forall|i: int| 0 <= i < m.len() implies self_contained(
                    (#[trigger] m[i]).1,
                    defs,
                ) by {
                    assert(decreases_to!(v => m[i].1));
                    replacing_leaves_no_reference(m[i].1, defs, depth);
                }
            } else {
                let own = substituted_members(m, defs, depth);
                member_by_member(m, defs, depth);
                assert forall|i: int| 0 <= i < own.len() implies self_contained(
                    (#[trigger] own[i]).1,
                    defs,
                ) by {
                    assert(leads_within(m[i].1, defs, depth));
                    assert(decreases_to!(v => m[i].1));
                    replacing_leaves_no_reference(m[i].1, defs, depth);
                }
                match referred(m, defs) {
                    Some(def) => {
                        replacing_leaves_no_reference(def, defs, (depth - 1) as nat);
                        if let JsonView::Object(inner) = substituted(
                            def,
                            defs,
                            (depth - 1) as nat,
                        ) {
                            overlaid_keeps_ref(inner, own);
                            overlaid_is_contained(inner, own, defs);
                            let r = overlaid(inner, own);
                            assert(referred(r, defs) == referred(inner, defs));
                            assert(substituted(v, defs, depth) == JsonView::Object(r));
                        }
                    },
                    None => {
                        substituted_member(m, defs, depth, "$ref"@);
                        if let Some(x) = obj_get(m, "$ref"@) {
                            texts_stay_texts(x, defs, depth);
                        }
                        assert(referred(own, defs) is None);
                        assert(substituted(v, defs, depth) == JsonView::Object(own));
                    },
                }
            }
        },
        JsonView::Array(a) => {
            let r = substituted(v, defs, depth);
            assert forall|i: int| 0 <= i < a.len() implies self_contained(
                #[trigger] r->Array_0[i],
                defs,
            ) by {
                assert(leads_within(a[i], defs, depth));
                assert(decreases_to!(v => a[i]));
                replacing_leaves_no_reference(a[i], defs, depth);
            }
        },
        _ => {},
    }
}

/// A schema whose definitions lead through one another no deeper than the
/// bound is flat once it is inlined: it refers to none of them any more.
/// Recursive definitions lead through one another without end.
pub proof fn inlined_schemas_are_flat(schema: JsonView)
    requires
        leads_within(without_definitions(schema), definitions(schema), REF_DEPTH as nat),
        no_bare_texts(definitions(schema)),
    ensures
        self_contained(inlined(schema), definitions(schema)),
{
    replacing_leaves_no_reference(
        without_definitions(schema),
        definitions(schema),
        REF_DEPTH as nat,
    );
}

/// Whether no definition refers to another, or to itself.
pub open spec fn definitions_stand_alone(defs: Seq<(Seq<char>, JsonView)>) -> bool {
    forall|i: int| 0 <= i < defs.len() ==> self_contained((#[trigger] defs[i]).1, defs)
}

/// What refers to nothing leads through no definition.
proof fn contained_leads_nowhere(v: JsonView, defs: Seq<(Seq<char>, JsonView)>, levels: nat)
    requires
        self_contained(v, defs),
    ensures
        leads_within(v, defs, levels),
    decreases v,
{
    match v {
        JsonView::Object(m) => {
            assert forall|i: int| 0 <= i < m.len() implies leads_within(
                (#[trigger] m[i]).1,
                defs,
                levels,
            ) by {
                assert(decreases_to!(v => m[i].1));
                contained_leads_nowhere(m[i].1, defs, levels);
            }
        },
        JsonView::Array(a) => {
            assert forall|i: int| 0 <= i < a.len() implies leads_within(
                #[trigger] a[i],
                defs,
                levels,
            ) by {
                assert(decreases_to!(v => a[i]));
                contained_leads_nowhere(a[i], defs, levels);
            }
        },
        _ => {},
    }
}

/// Definitions that stand alone are one level deep, wherever they are referred
/// to.
proof fn alone_is_one_level(v: JsonView, defs: Seq<(Seq<char>, JsonView)>, levels: nat)
    requires
        definitions_stand_alone(defs),
        levels > 0,
    ensures
        leads_within(v, defs, levels),
    decreases v,
{
    match v {
        JsonView::Object(m) => {
            if let Some(def) = referred(m, defs) {
                if let Some(JsonView::String(r)) = obj_get(m, "$ref"@) {
                    if let Some(name) = stripped(r, "#/$defs/"@) {
                        let at = crate::json::obj_get_found(defs, name);
                        assert(self_contained(defs[at].1, defs));
                    }
                }
                contained_leads_nowhere(def, defs, (levels - 1) as nat);
            }
            assert forall|i: int| 0 <= i < m.len() implies leads_within(
                (#[trigger] m[i]).1,
                defs,
                levels,
            ) by {
                assert(decreases_to!(v => m[i].1));
                alone_is_one_level(m[i].1, defs, levels);
            }
        },
        JsonView::Array(a) => {
            assert forall|i: int| 0 <= i < a.len() implies leads_within(
                #[trigger] a[i],
                defs,
                levels,
            ) by {
                assert(decreases_to!(v => a[i]));
                alone_is_one_level(a[i], defs, levels);
            }
        },
        _ => {},
    }
}

/// Whatever the schema, it is flat once it is inlined where its definitions
/// stand alone.
pub proof fn standing_definitions_give_flat_schemas(schema: JsonView)
    requires
        definitions_stand_alone(definitions(schema)),
        no_bare_texts(definitions(schema)),
    ensures
        self_contained(inlined(schema), definitions(schema)),
{
    alone_is_one_level(without_definitions(schema), definitions(schema), REF_DEPTH as nat);
    inlined_schemas_are_flat(schema);
}

// ── What inlining gives, member by member ────────────────────────────

/// A reference names what follows its prefix.
proof fn reference_names(name: Seq<char>)
    ensures
        stripped("#/$defs/"@ + name, "#/$defs/"@) == Some(name),
{
    let prefix = "#/$defs/"@;
    let r = prefix + name;
    assert(r.subrange(0, prefix.len() as int) =~= prefix);
    assert(r.skip(prefix.len() as int) =~= name);
}

/// A reference that names something is its prefix and the name.
proof fn name_of_reference(r: Seq<char>, name: Seq<char>)
    requires
        stripped(r, "#/$defs/"@) == Some(name),
    ensures
        r == "#/$defs/"@ + name,
{
    let prefix = "#/$defs/"@;
    assert(r.subrange(0, prefix.len() as int) =~= prefix);
    assert(r =~= prefix + name);
}

/// What replaces a reference to a definition that becomes an object: under
/// every key but `$ref` that stands beside the reference, what stands there,
/// with its references replaced; under every other key, what the definition
/// has. A definition that becomes anything else replaces the whole object.
pub proof fn references_become_definitions(
    m: Seq<(Seq<char>, JsonView)>,
    defs: Seq<(Seq<char>, JsonView)>,
    depth: nat,
    name: Seq<char>,
    def: JsonView,
    key: Seq<char>,
)
    requires
        depth > 0,
        obj_get(m, "$ref"@) == Some(JsonView::String("#/$defs/"@ + name)),
        obj_get(defs, name) == Some(def),
    ensures
        match substituted(def, defs, (depth - 1) as nat) {
            JsonView::Object(inner) => {
                let whole = substituted(JsonView::Object(m), defs, depth);
                &&& whole is Object
                &&& key != "$ref"@ ==> (obj_get(m, key) matches Some(own) ==> whole.get(key)
                    == Some(substituted(own, defs, depth)))
                &&& key != "$ref"@ && obj_get(m, key) is None ==> whole.get(key) == obj_get(
                    inner,
                    key,
                )
                &&& whole.get("$ref"@) == obj_get(inner, "$ref"@)
            },
            other => substituted(JsonView::Object(m), defs, depth) == other,
        },
{
    reference_names(name);
    let own = substituted_members(m, defs, depth);
    substituted_member(m, defs, depth, key);
    if let JsonView::Object(inner) = substituted(def, defs, (depth - 1) as nat) {
        overlaid_keeps_ref(inner, own);
        if key != "$ref"@ {
            own_members_win(inner, own, key);
        }
    }
}

/// An object that refers to no definition keeps its keys, each with what
/// stands there, its references replaced.
pub proof fn other_objects_keep_their_keys(
    m: Seq<(Seq<char>, JsonView)>,
    defs: Seq<(Seq<char>, JsonView)>,
    depth: nat,
    key: Seq<char>,
)
    requires
        depth > 0,
        forall|name: Seq<char>|
            obj_get(m, "$ref"@) == Some(JsonView::String("#/$defs/"@ + name)) ==> (
            #[trigger] obj_get(defs, name)) is None,
    ensures
        substituted(JsonView::Object(m), defs, depth) is Object,
        substituted(JsonView::Object(m), defs, depth).get(key) == match obj_get(m, key) {
            Some(x) => Some(substituted(x, defs, depth)),
            None => None,
        },
{
    if let Some(JsonView::String(r)) = obj_get(m, "$ref"@) {
        if let Some(name) = stripped(r, "#/$defs/"@) {
            name_of_reference(r, name);
            assert(obj_get(defs, name) is None);
        }
    }
    substituted_member(m, defs, depth, key);
}

/// Replacing references keeps the values of an array, each with its references
/// replaced, and leaves every other value that is no object as it is. At depth
/// zero nothing is replaced.
pub proof fn arrays_are_replaced_value_by_value(
    v: JsonView,
    defs: Seq<(Seq<char>, JsonView)>,
    depth: nat,
)
    ensures
        depth == 0 ==> substituted(v, defs, depth) == v,
        !(v is Array) && !(v is Object) ==> substituted(v, defs, depth) == v,
        depth > 0 ==> (v matches JsonView::Array(a) ==> {
            &&& substituted(v, defs, depth) matches JsonView::Array(r)
            &&& r.len() == a.len()
            &&& forall|i: int|
                0 <= i < a.len() ==> #[trigger] r[i] == substituted(a[i], defs, depth)
        }),
{
}

/// An inlined schema has every key of the schema but `$defs`, and under it what
/// stood there with its references replaced by the definitions under `$defs`,
/// eight levels deep; where the schema as a whole is no such reference.
pub proof fn inlined_schemas_keep_their_keys(
    m: Seq<(Seq<char>, JsonView)>,
    defs: Seq<(Seq<char>, JsonView)>,
    key: Seq<char>,
)
    requires
        obj_get(m, "$defs"@) == Some(JsonView::Object(defs)),
        forall|name: Seq<char>|
            obj_get(m, "$ref"@) == Some(JsonView::String("#/$defs/"@ + name)) ==> (
            #[trigger] obj_get(defs, name)) is None,
    ensures
        inlined(JsonView::Object(m)) is Object,
        inlined(JsonView::Object(m)).get("$defs"@) is None,
        key != "$defs"@ ==> inlined(JsonView::Object(m)).get(key) == match obj_get(m, key) {
            Some(x) => Some(substituted(x, defs, 8)),
            None => None,
        },
{
    let rest = obj_remove(m, "$defs"@);
    ref_and_defs_differ();
    crate::json::obj_remove_get(m, "$defs"@, "$ref"@);
    crate::json::obj_remove_get(m, "$defs"@, key);
    other_objects_keep_their_keys(rest, defs, 8, "$defs"@);
    other_objects_keep_their_keys(rest, defs, 8, key);
}

proof fn ref_and_defs_differ()
    ensures
        "$ref"@ != "$defs"@,
{
    reveal_strlit("$ref");
    reveal_strlit("$defs");
    assert("$ref"@.len() == 4 && "$defs"@.len() == 5);
}

/// A schema that as a whole refers to one of its definitions becomes that
/// definition, seven levels deep, with the members that stand beside the
/// reference in place of the definition's.
pub proof fn schemas_that_refer_become_definitions(
    m: Seq<(Seq<char>, JsonView)>,
    defs: Seq<(Seq<char>, JsonView)>,
    name: Seq<char>,
    def: JsonView,
    key: Seq<char>,
)
    requires
        obj_get(m, "$defs"@) == Some(JsonView::Object(defs)),
        obj_get(m, "$ref"@) == Some(JsonView::String("#/$defs/"@ + name)),
        obj_get(defs, name) == Some(def),
    ensures
        match substituted(def, defs, 7) {
            JsonView::Object(inner) => {
                &&& inlined(JsonView::Object(m)) is Object
                &&& inlined(JsonView::Object(m)).get(key) == if key == "$ref"@ || key == "$defs"@
                    || obj_get(m, key) is None {
                    obj_get(inner, key)
                } else {
                    Some(substituted(obj_get(m, key)->Some_0, defs, 8))
                }
            },
            other => inlined(JsonView::Object(m)) == other,
        },
{
    let rest = obj_remove(m, "$defs"@);
    ref_and_defs_differ();
    crate::json::obj_remove_get(m, "$defs"@, "$ref"@);
    crate::json::obj_remove_get(m, "$defs"@, key);
    references_become_definitions(rest, defs, 8, name, def, key);
}

/// Without definitions a schema stays as it is, but for what stands under
/// `$defs`.
pub proof fn schemas_without_definitions_stay(schema: JsonView)
    requires
        !(schema.get("$defs"@) matches Some(JsonView::Object(_))),
    ensures
        schema matches JsonView::Object(m) ==> inlined(schema) == JsonView::Object(
            obj_remove(m, "$defs"@),
        ),
        schema.get("$defs"@) is None ==> inlined(schema) == schema,
{
    if let JsonView::Object(m) = schema {
        if obj_get(m, "$defs"@) is None {
            crate::json::obj_remove_none(m, "$defs"@);
        }
    }
    refers_to_nothing(without_definitions(schema));
    self_contained_is_kept(without_definitions(schema), Seq::empty(), REF_DEPTH as nat);
}

/// Where there are no definitions, nothing refers to one.
proof fn refers_to_nothing(v: JsonView)
    ensures
        self_contained(v, Seq::empty()),
    decreases v,
{
    let none = Seq::<(Seq<char>, JsonView)>::empty();
    match v {
        JsonView::Object(m) => {
            assert forall|i: int| 0 <= i < m.len() implies self_contained(
                (#[trigger] m[i]).1,
                none,
            ) by {
                assert(decreases_to!(v => m[i].1));
                refers_to_nothing(m[i].1);
            }
        },
        JsonView::Array(a) => {
            assert forall|i: int| 0 <= i < a.len() implies self_contained(
                #[trigger] a[i],
                none,
            ) by {
                assert(decreases_to!(v => a[i]));
                refers_to_nothing(a[i]);
            }
        },
        _ => {},
    }
}

// ── What the strict form gives, member by member ─────────────────────

/// Folding touches nothing but `oneOf`, `type` and `anyOf`.
proof fn folding_keeps(m: Seq<(Seq<char>, JsonView)>, key: Seq<char>)
    ensures
        key != "oneOf"@ && key != "type"@ && key != "anyOf"@ ==> obj_get(
            types_folded(one_of_folded(m)),
            key,
        ) == obj_get(m, key),
        obj_get(types_folded(one_of_folded(m)), "type"@) == match obj_get(m, "type"@) {
            Some(JsonView::Array(_)) => None,
            t => t,
        },
        obj_get(one_of_folded(m), "type"@) == obj_get(m, "type"@),
{
    keywords_differ();
    let f = one_of_folded(m);
    let rest = obj_remove(m, "oneOf"@);
    crate::json::obj_remove_get(m, "oneOf"@, key);
    crate::json::obj_remove_get(m, "oneOf"@, "type"@);
    if let Some(one_of) = obj_get(m, "oneOf"@) {
        let value = match (obj_get(rest, "anyOf"@), one_of) {
            (Some(JsonView::Array(existing)), JsonView::Array(add)) => JsonView::Array(
                existing + add,
            ),
            _ => one_of,
        };
        crate::json::obj_insert_get(rest, "anyOf"@, value, key);
        crate::json::obj_insert_get(rest, "anyOf"@, value, "type"@);
    }
    if let Some(JsonView::Array(types)) = obj_get(f, "type"@) {
        let left = obj_remove(f, "type"@);
        let variants = types.map_values(|t: JsonView| type_variant(t));
        let list = match obj_get(left, "anyOf"@) {
            Some(JsonView::Array(existing)) => existing + variants,
            _ => variants,
        };
        crate::json::obj_remove_get(f, "type"@, key);
        crate::json::obj_insert_get(left, "anyOf"@, JsonView::Array(list), key);
        crate::json::obj_insert_get(left, "anyOf"@, JsonView::Array(list), "type"@);
    }
}

/// What stands under `anyOf` once `oneOf` is folded in.
proof fn one_of_goes_to_any_of(m: Seq<(Seq<char>, JsonView)>)
    ensures
        obj_get(one_of_folded(m), "anyOf"@) == match (obj_get(m, "anyOf"@), obj_get(m, "oneOf"@)) {
            (any_of, None) => any_of,
            (Some(JsonView::Array(any)), Some(JsonView::Array(one))) => Some(
                JsonView::Array(any + one),
            ),
            (Some(JsonView::Array(any)), Some(_)) => Some(JsonView::Array(any)),
            (_, Some(one_of)) => Some(one_of),
        },
{
    keywords_differ();
    let rest = obj_remove(m, "oneOf"@);
    crate::json::obj_remove_get(m, "oneOf"@, "anyOf"@);
    if let Some(one_of) = obj_get(m, "oneOf"@) {
        let value = match (obj_get(rest, "anyOf"@), one_of) {
            (Some(JsonView::Array(existing)), JsonView::Array(add)) => JsonView::Array(
                existing + add,
            ),
            _ => one_of,
        };
        crate::json::obj_insert_get(rest, "anyOf"@, value, "anyOf"@);
    }
}

/// What stands under `anyOf` once a union of types is folded in.
proof fn types_go_to_any_of(f: Seq<(Seq<char>, JsonView)>)
    ensures
        obj_get(types_folded(f), "anyOf"@) == match (obj_get(f, "anyOf"@), obj_get(f, "type"@)) {
            (Some(JsonView::Array(any)), Some(JsonView::Array(types))) => Some(
                JsonView::Array(any + types.map_values(|t: JsonView| type_variant(t))),
            ),
            (_, Some(JsonView::Array(types))) => Some(
                JsonView::Array(types.map_values(|t: JsonView| type_variant(t))),
            ),
            (any_of, _) => any_of,
        },
{
    keywords_differ();
    if let Some(JsonView::Array(types)) = obj_get(f, "type"@) {
        let rest = obj_remove(f, "type"@);
        let variants = types.map_values(|t: JsonView| type_variant(t));
        let list = match obj_get(rest, "anyOf"@) {
            Some(JsonView::Array(existing)) => existing + variants,
            _ => variants,
        };
        crate::json::obj_remove_get(f, "type"@, "anyOf"@);
        crate::json::obj_insert_get(rest, "anyOf"@, JsonView::Array(list), "anyOf"@);
    }
}

/// What stands under a key of the strict form of an object, by what stands
/// there once its unions are folded.
proof fn strict_member_of(m: Seq<(Seq<char>, JsonView)>, key: Seq<char>)
    ensures
        strict(JsonView::Object(m)) is Object,
        key != "items"@ ==> strict(JsonView::Object(m)).get(key) == match obj_get(
            types_folded(one_of_folded(m)),
            key,
        ) {
            Some(x) => Some(strict(x)),
            None => None,
        },
{
    let folded = types_folded(one_of_folded(m));
    folded_nesting(m);
    let v = JsonView::Object(m);
    let inner = rewritten(v)->Object_0;
    assert(inner.len() == folded.len());
    assert forall|i: int| 0 <= i < folded.len() implies (#[trigger] inner[i]) == (
        folded[i].0,
        strict(folded[i].1),
    ) by {}
    strict_member(folded, inner, key);
    strict_member(folded, inner, "type"@);
    strict_member(folded, inner, "items"@);
    crate::json::obj_insert_get(inner, "items"@, JsonView::Object(Seq::empty()), key);
}

/// The strict form of an object keeps what the object holds: every key other
/// than `oneOf`, `type`, `anyOf` and `items` is in it exactly if the object has
/// it, with the strict form of what stands there.
pub proof fn strict_form_keeps_members(m: Seq<(Seq<char>, JsonView)>, key: Seq<char>)
    requires
        key != "oneOf"@,
        key != "type"@,
        key != "anyOf"@,
        key != "items"@,
    ensures
        strict(JsonView::Object(m)) is Object,
        strict(JsonView::Object(m)).get(key) == match obj_get(m, key) {
            Some(x) => Some(strict(x)),
            None => None,
        },
{
    folding_keeps(m, key);
    strict_member_of(m, key);
}

/// The strict form of an object has no `oneOf`; it keeps a type that is no
/// union; and it keeps the items, or has `{}` for them where there are none and
/// the type is `array`.
pub proof fn strict_form_keeps_types(m: Seq<(Seq<char>, JsonView)>)
    ensures
        strict(JsonView::Object(m)).get("oneOf"@) is None,
        strict(JsonView::Object(m)).get("type"@) == match obj_get(m, "type"@) {
            Some(JsonView::Array(_)) => None,
            Some(t) => Some(strict(t)),
            None => None,
        },
        strict(JsonView::Object(m)).get("items"@) == match obj_get(m, "items"@) {
            Some(x) => Some(strict(x)),
            None => if obj_get(m, "type"@) == Some(JsonView::String("array"@)) {
                Some(JsonView::Object(Seq::empty()))
            } else {
                None
            },
        },
{
    keywords_differ();
    reveal_strlit("items");
    reveal_strlit("anyOf");
    assert("items"@[0] != "anyOf"@[0]);
    folded_keywords(m);
    folding_keeps(m, "items"@);
    strict_member_of(m, "oneOf"@);
    strict_member_of(m, "type"@);
    let folded = types_folded(one_of_folded(m));
    folded_nesting(m);
    let inner = rewritten(JsonView::Object(m))->Object_0;
    assert(inner.len() == folded.len());
    assert forall|i: int| 0 <= i < folded.len() implies (#[trigger] inner[i]) == (
        folded[i].0,
        strict(folded[i].1),
    ) by {}
    strict_member(folded, inner, "type"@);
    strict_member(folded, inner, "items"@);
    crate::json::obj_insert_get(inner, "items"@, JsonView::Object(Seq::empty()), "items"@);
    if let Some(t) = obj_get(folded, "type"@) {
        texts_are_strict(t);
    }
}

/// The strict form turns nothing into a text, and leaves texts as they are.
proof fn texts_are_strict(v: JsonView)
    ensures
        v is String ==> strict(v) == v,
        !(v is String) ==> !(strict(v) is String),
{
}

/// The choices of a strict form are those of the object: under `anyOf` stand
/// the strict forms of what stood there, then of what stood under `oneOf`, then
/// one `{"type": t}` for each type of a union.
pub proof fn strict_form_lists_every_choice(
    m: Seq<(Seq<char>, JsonView)>,
    any: Seq<JsonView>,
    one: Seq<JsonView>,
    types: Seq<JsonView>,
)
    requires
        obj_get(m, "anyOf"@) == Some(JsonView::Array(any)) || (obj_get(m, "anyOf"@) is None
            && any.len() == 0),
        obj_get(m, "oneOf"@) == Some(JsonView::Array(one)) || (obj_get(m, "oneOf"@) is None
            && one.len() == 0),
        obj_get(m, "type"@) == Some(JsonView::Array(types)) || (!(obj_get(m, "type"@) matches Some(
            JsonView::Array(_),
        )) && types.len() == 0),
    ensures
        match strict(JsonView::Object(m)).get("anyOf"@) {
            Some(JsonView::Array(r)) => {
                &&& r.len() == any.len() + one.len() + types.len()
                &&& forall|i: int| 0 <= i < any.len() ==> #[trigger] strict(any[i]) == r[i]
                &&& forall|i: int|
                    0 <= i < one.len() ==> #[trigger] strict(one[i]) == r[any.len() + i]
                &&& forall|i: int|
                    0 <= i < types.len() ==> strict(
                        JsonView::Object(seq![("type"@, #[trigger] types[i])]),
                    ) == r[any.len() + one.len() + i]
            },
            Some(_) => false,
            None => obj_get(m, "anyOf"@) is None && obj_get(m, "oneOf"@) is None && !(obj_get(
                m,
                "type"@,
            ) matches Some(JsonView::Array(_))),
        },
        obj_get(m, "anyOf"@) is None && obj_get(m, "oneOf"@) is None && !(obj_get(
            m,
            "type"@,
        ) matches Some(JsonView::Array(_))) ==> strict(JsonView::Object(m)).get("anyOf"@) is None,
{
    keywords_differ();
    reveal_strlit("items");
    reveal_strlit("anyOf");
    assert("items"@[0] != "anyOf"@[0]);
    folding_keeps(m, "anyOf"@);
    one_of_goes_to_any_of(m);
    types_go_to_any_of(one_of_folded(m));
    strict_member_of(m, "anyOf"@);
    if let Some(x) = obj_get(types_folded(one_of_folded(m)), "anyOf"@) {
        let list = any + one + types.map_values(|t: JsonView| type_variant(t));
        assert(x == JsonView::Array(list)) by {
            assert(x->Array_0 =~= list);
        }
        strict_form_goes_value_by_value(x);
        let r = strict(x)->Array_0;
        assert(r.len() == list.len());
        assert forall|i: int| 0 <= i < any.len() implies #[trigger] strict(any[i]) == r[i] by {
            assert(list[i] == any[i]);
        }
        assert forall|i: int| 0 <= i < one.len() implies #[trigger] strict(one[i]) == r[any.len()
            + i] by {
            assert(list[any.len() + i] == one[i]);
        }
        assert forall|i: int| 0 <= i < types.len() implies strict(
            JsonView::Object(seq![("type"@, #[trigger] types[i])]),
        ) == r[any.len() + one.len() + i] by {
            assert(list[any.len() + one.len() + i] == type_variant(types[i]));
        }
    }
}

/// Choices that are no lists: what stands under `anyOf` and is no list stays
/// where there is nothing to add to it, and makes way otherwise; what stands
/// under `oneOf` and is no list stands in for `anyOf`, unless that is a list.
pub proof fn strict_form_of_odd_choices(m: Seq<(Seq<char>, JsonView)>)
    requires
        !(obj_get(m, "type"@) matches Some(JsonView::Array(_))),
    ensures
        obj_get(m, "oneOf"@) is None ==> strict(JsonView::Object(m)).get("anyOf"@) == match obj_get(
            m,
            "anyOf"@,
        ) {
            Some(x) => Some(strict(x)),
            None => None,
        },
        obj_get(m, "oneOf"@) matches Some(one) ==> match obj_get(m, "anyOf"@) {
            Some(JsonView::Array(any)) => !(one is Array) ==> strict(JsonView::Object(m)).get(
                "anyOf"@,
            ) == Some(strict(JsonView::Array(any))),
            _ => strict(JsonView::Object(m)).get("anyOf"@) == Some(strict(one)),
        },
{
    keywords_differ();
    reveal_strlit("items");
    reveal_strlit("anyOf");
    assert("items"@[0] != "anyOf"@[0]);
    folding_keeps(m, "anyOf"@);
    one_of_goes_to_any_of(m);
    types_go_to_any_of(one_of_folded(m));
    strict_member_of(m, "anyOf"@);
}

/// The strict form of an array has the strict forms of its values, in their
/// order; every other value that is no object is its own strict form.
pub proof fn strict_form_goes_value_by_value(v: JsonView)
    ensures
        !(v is Array) && !(v is Object) ==> strict(v) == v,
        v matches JsonView::Array(a) ==> {
            &&& strict(v) matches JsonView::Array(r)
            &&& r.len() == a.len()
            &&& forall|i: int| 0 <= i < a.len() ==> #[trigger] r[i] == strict(a[i])
        },
{
    if let JsonView::Array(a) = v {
        all_nesting(a);
    }
}

/// A union of types beside choices that are no lists: they make way for the
/// types, which stand behind the one list that there is.
pub proof fn strict_form_of_odd_unions(
    m: Seq<(Seq<char>, JsonView)>,
    list: Seq<JsonView>,
    types: Seq<JsonView>,
)
    requires
        obj_get(m, "type"@) == Some(JsonView::Array(types)),
        match (obj_get(m, "anyOf"@), obj_get(m, "oneOf"@)) {
            (Some(JsonView::Array(any)), Some(JsonView::Array(_))) => false,
            (Some(JsonView::Array(any)), _) => list == any,
            (_, Some(JsonView::Array(one))) => list == one,
            _ => list.len() == 0,
        },
    ensures
        strict(JsonView::Object(m)).get("anyOf"@) matches Some(JsonView::Array(r)) && r.len()
            == list.len() + types.len() && (forall|i: int|
            0 <= i < list.len() ==> #[trigger] strict(list[i]) == r[i]) && (forall|i: int|
            0 <= i < types.len() ==> strict(
                JsonView::Object(seq![("type"@, #[trigger] types[i])]),
            ) == r[list.len() + i]),
{
    keywords_differ();
    reveal_strlit("items");
    reveal_strlit("anyOf");
    assert("items"@[0] != "anyOf"@[0]);
    folding_keeps(m, "anyOf"@);
    one_of_goes_to_any_of(m);
    types_go_to_any_of(one_of_folded(m));
    strict_member_of(m, "anyOf"@);
    let x = obj_get(types_folded(one_of_folded(m)), "anyOf"@)->Some_0;
    let whole = list + types.map_values(|t: JsonView| type_variant(t));
    assert(x == JsonView::Array(whole)) by {
        assert(x->Array_0 =~= whole);
    }
    strict_form_goes_value_by_value(x);
    let r = strict(x)->Array_0;
    assert forall|i: int| 0 <= i < list.len() implies #[trigger] strict(list[i]) == r[i] by {
        assert(whole[i] == list[i]);
    }
    assert forall|i: int| 0 <= i < types.len() implies strict(
        JsonView::Object(seq![("type"@, #[trigger] types[i])]),
    ) == r[list.len() + i] by {
        assert(whole[list.len() + i] == type_variant(types[i]));
    }
}

}
