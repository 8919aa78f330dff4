//! An owned JSON tree, its mathematical model, and read accessors.

use vstd::prelude::*;

use crate::scan::{check_parser_limits, within_parser_limits};
use rustc_serialize::json::Json;

verus! {

/// `rustc_serialize::json::Json`, the parser's result, which only the
/// conversion into [`JsonValue`] looks inside.
#[verifier::external_type_specification]
#[verifier::external_body]
pub struct ExJson(Json);

broadcast use vstd::std_specs::vec::group_vec_axioms;

/// A decoded JSON value.
///
/// Objects keep their members in order; a lookup finds the first member
/// with a given key. A floating-point number is kept as its IEEE-754 bit
/// pattern, since nothing in this library reads it.
pub enum JsonValue {
    Null,
    Bool(bool),
    Int(i64),
    UInt(u64),
    Float(u64),
    Str(String),
    Array(Vec<JsonValue>),
    Object(Vec<(String, JsonValue)>),
}

/// The mathematical model of a [`JsonValue`].
pub enum JsonModel {
    Null,
    Bool(bool),
    Int(i64),
    UInt(u64),
    Float(u64),
    Str(Seq<char>),
    Array(Seq<JsonModel>),
    Object(Seq<(Seq<char>, JsonModel)>),
}

impl View for JsonValue {
    type V = JsonModel;

    open spec fn view(&self) -> JsonModel
        decreases self,
    {
        match self {
            JsonValue::Null => JsonModel::Null,
            JsonValue::Bool(b) => JsonModel::Bool(*b),
            JsonValue::Int(n) => JsonModel::Int(*n),
            JsonValue::UInt(n) => JsonModel::UInt(*n),
            JsonValue::Float(bits) => JsonModel::Float(*bits),
            JsonValue::Str(s) => JsonModel::Str(s@),
            JsonValue::Array(items) => JsonModel::Array(
                Seq::new(
                    items.len() as nat,
                    |i: int|
                        if 0 <= i < items.len() {
                            items[i].view()
                        } else {
                            JsonModel::Null
                        },
                ),
            ),
            JsonValue::Object(fields) => JsonModel::Object(
                Seq::new(
                    fields.len() as nat,
                    |i: int|
                        if 0 <= i < fields.len() {
                            (fields[i].0@, fields[i].1.view())
                        } else {
                            (Seq::empty(), JsonModel::Null)
                        },
                ),
            ),
        }
    }
}


/// Index of the first member at or after `start` whose key is `key`.
pub open spec fn field_index_from(
    fields: Seq<(Seq<char>, JsonModel)>,
    key: Seq<char>,
    start: int,
) -> Option<int>
    decreases fields.len() - start,
{
    if start < 0 || start >= fields.len() {
        None
    } else if fields[start].0 == key {
        Some(start)
    } else {
        field_index_from(fields, key, start + 1)
    }
}

/// Index of the first member whose key is `key`.
pub open spec fn field_index(fields: Seq<(Seq<char>, JsonModel)>, key: Seq<char>) -> Option<int> {
    field_index_from(fields, key, 0)
}

/// The member `key` of an object; `None` for a missing key or a non-object.
pub open spec fn model_get(m: JsonModel, key: Seq<char>) -> Option<JsonModel> {
    match m {
        JsonModel::Object(fields) => match field_index(fields, key) {
            Some(i) => Some(fields[i].1),
            None => None,
        },
        _ => None,
    }
}

/// The value reached from `m` by following the keys `path[start..]` in turn.
pub open spec fn model_find_path_from(m: JsonModel, path: Seq<Seq<char>>, start: int) -> Option<
    JsonModel,
>
    decreases path.len() - start,
{
    if start < 0 || start >= path.len() {
        Some(m)
    } else {
        match model_get(m, path[start]) {
            Some(child) => model_find_path_from(child, path, start + 1),
            None => None,
        }
    }
}

/// The value reached from `m` by following every key of `path` in turn.
pub open spec fn model_find_path(m: JsonModel, path: Seq<Seq<char>>) -> Option<JsonModel> {
    model_find_path_from(m, path, 0)
}

/// The integer a value denotes, as an `i64`: signed integers as they are,
/// unsigned ones up to `i64::MAX`, nothing else.
pub open spec fn model_as_i64(m: JsonModel) -> Option<i64> {
    match m {
        JsonModel::Int(n) => Some(n),
        JsonModel::UInt(n) => if n <= i64::MAX as u64 {
            Some(n as i64)
        } else {
            None
        },
        _ => None,
    }
}

pub open spec fn model_as_bool(m: JsonModel) -> Option<bool> {
    match m {
        JsonModel::Bool(b) => Some(b),
        _ => None,
    }
}

pub open spec fn model_as_str(m: JsonModel) -> Option<Seq<char>> {
    match m {
        JsonModel::Str(s) => Some(s),
        _ => None,
    }
}

/// The model of an optional borrowed value.
pub open spec fn opt_view(r: Option<&JsonValue>) -> Option<JsonModel> {
    match r {
        Some(v) => Some(v@),
        None => None,
    }
}

/// The models of a list of strings.
pub open spec fn strings_view(v: Seq<String>) -> Seq<Seq<char>> {
    v.map_values(|x: String| x@)
}

/// The models of a list of keys.
pub open spec fn keys_view(path: Seq<&str>) -> Seq<Seq<char>> {
    path.map_values(|k: &str| k@)
}

/// The `i64` that an optional value denotes, if any.
pub open spec fn and_then_i64(o: Option<JsonModel>) -> Option<i64> {
    match o {
        Some(m) => model_as_i64(m),
        None => None,
    }
}

/// The boolean that an optional value holds, if any.
pub open spec fn and_then_bool(o: Option<JsonModel>) -> Option<bool> {
    match o {
        Some(m) => model_as_bool(m),
        None => None,
    }
}

/// The string that an optional value holds, if any.
pub open spec fn and_then_str(o: Option<JsonModel>) -> Option<Seq<char>> {
    match o {
        Some(m) => model_as_str(m),
        None => None,
    }
}

/// The models of an object's members.
pub open spec fn fields_view(fields: Seq<(String, JsonValue)>) -> Seq<(Seq<char>, JsonModel)> {
    Seq::new(fields.len(), |i: int| (fields[i].0@, fields[i].1@))
}

/// The model of an object is the sequence of its members' models.
pub broadcast proof fn lemma_object_view(v: JsonValue)
    requires
        v is Object,
    ensures
        #[trigger] v@ == JsonModel::Object(fields_view(v->Object_0@)),
{
    reveal_with_fuel(<JsonValue as View>::view, 2);
    assert(v@->Object_0 =~= fields_view(v->Object_0@));
}

/// The model of an array is the sequence of its items' models.
pub broadcast proof fn lemma_array_view(v: JsonValue)
    requires
        v is Array,
    ensures
        #[trigger] v@ == JsonModel::Array(v->Array_0@.map_values(|x: JsonValue| x@)),
{
    reveal_with_fuel(<JsonValue as View>::view, 2);
    assert(v@->Array_0 =~= v->Array_0@.map_values(|x: JsonValue| x@));
}

/// `fields` with the member `key` set to `value`: the first member named
/// `key` is overwritten in place, or, where there is none, one is appended.
pub open spec fn model_set_field(
    fields: Seq<(Seq<char>, JsonModel)>,
    key: Seq<char>,
    value: JsonModel,
) -> Seq<(Seq<char>, JsonModel)> {
    match field_index(fields, key) {
        Some(i) => fields.update(i, (key, value)),
        None => fields.push((key, value)),
    }
}

/// What [`field_index_from`] finds: the first member from `start` on with
/// the key, or no such member at all.
proof fn lemma_field_index_found(fields: Seq<(Seq<char>, JsonModel)>, key: Seq<char>, start: int)
    requires
        0 <= start,
    ensures
        match field_index_from(fields, key, start) {
            Some(i) => start <= i < fields.len() && fields[i].0 == key && forall|j: int|
                start <= j < i ==> fields[j].0 != key,
            None => forall|j: int| start <= j < fields.len() ==> fields[j].0 != key,
        },
    decreases fields.len() - start,
{
    if start < fields.len() && fields[start].0 != key {
        lemma_field_index_found(fields, key, start + 1);
    }
}

/// Lookups depend on the keys alone.
proof fn lemma_field_index_same_keys(
    a: Seq<(Seq<char>, JsonModel)>,
    b: Seq<(Seq<char>, JsonModel)>,
    key: Seq<char>,
    start: int,
)
    requires
        a.len() == b.len(),
        forall|j: int| 0 <= j < a.len() ==> a[j].0 == b[j].0,
    ensures
        field_index_from(a, key, start) == field_index_from(b, key, start),
    decreases a.len() - start,
{
    if 0 <= start < a.len() && a[start].0 != key {
        lemma_field_index_same_keys(a, b, key, start + 1);
    }
}

/// A key missing from `fields` is found at the member appended for it.
proof fn lemma_field_index_push(
    fields: Seq<(Seq<char>, JsonModel)>,
    key: Seq<char>,
    value: JsonModel,
    start: int,
)
    requires
        0 <= start <= fields.len(),
        forall|j: int| start <= j < fields.len() ==> fields[j].0 != key,
    ensures
        field_index_from(fields.push((key, value)), key, start) == Some(fields.len() as int),
    decreases fields.len() - start,
{
    if start < fields.len() {
        lemma_field_index_push(fields, key, value, start + 1);
    }
}

/// Setting the same member to the same value twice leaves the members as
/// setting it once does.
pub proof fn lemma_set_field_idempotent(
    fields: Seq<(Seq<char>, JsonModel)>,
    key: Seq<char>,
    value: JsonModel,
)
    ensures
        model_set_field(model_set_field(fields, key, value), key, value) == model_set_field(
            fields,
            key,
            value,
        ),
{
    let once = model_set_field(fields, key, value);
    lemma_field_index_found(fields, key, 0);
    match field_index(fields, key) {
        Some(i) => {
            lemma_field_index_same_keys(fields, once, key, 0);
            assert(once.update(i, (key, value)) =~= once);
        },
        None => {
            lemma_field_index_push(fields, key, value, 0);
            assert(once.update(fields.len() as int, (key, value)) =~= once);
        },
    }
}

/// `fields` after setting, in order, the first `n` members of `patch`.
pub open spec fn model_apply_patch(
    fields: Seq<(Seq<char>, JsonModel)>,
    patch: Seq<(Seq<char>, JsonModel)>,
    n: int,
) -> Seq<(Seq<char>, JsonModel)>
    decreases n,
{
    if n <= 0 || n > patch.len() {
        fields
    } else {
        let before = model_apply_patch(fields, patch, n - 1);
        model_set_field(before, patch[n - 1].0, patch[n - 1].1)
    }
}

/// The value of the last of the first `n` members of `patch` named `key`.
pub open spec fn last_patch_value(patch: Seq<(Seq<char>, JsonModel)>, n: int, key: Seq<char>) -> Option<
    JsonModel,
>
    decreases n,
{
    if n <= 0 || n > patch.len() {
        None
    } else if patch[n - 1].0 == key {
        Some(patch[n - 1].1)
    } else {
        last_patch_value(patch, n - 1, key)
    }
}

/// A key found in `fields` is found at the same member after a push.
proof fn lemma_field_index_push_kept(
    fields: Seq<(Seq<char>, JsonModel)>,
    key: Seq<char>,
    extra: (Seq<char>, JsonModel),
    start: int,
)
    requires
        0 <= start,
        field_index_from(fields, key, start) is Some,
    ensures
        field_index_from(fields.push(extra), key, start) == field_index_from(fields, key, start),
    decreases fields.len() - start,
{
    if start < fields.len() && fields[start].0 != key {
        lemma_field_index_push_kept(fields, key, extra, start + 1);
    }
}

/// Every key of the first `n` members of `patch` has a last value.
proof fn lemma_last_patch_value_some(patch: Seq<(Seq<char>, JsonModel)>, n: int, j: int)
    requires
        0 <= j < n <= patch.len(),
    ensures
        last_patch_value(patch, n, patch[j].0) is Some,
    decreases n,
{
    if patch[n - 1].0 != patch[j].0 {
        lemma_last_patch_value_some(patch, n - 1, j);
    }
}

/// Applying a patch keeps the keys of the members there were, and leaves
/// each key of the patch on a member holding its last value.
proof fn lemma_apply_patch_sets(
    fields: Seq<(Seq<char>, JsonModel)>,
    patch: Seq<(Seq<char>, JsonModel)>,
    n: int,
)
    requires
        0 <= n <= patch.len(),
    ensures
        model_apply_patch(fields, patch, n).len() >= fields.len(),
        forall|j: int| 0 <= j < fields.len() ==> #[trigger] model_apply_patch(fields, patch, n)[j].0 == fields[j].0,
        forall|key: Seq<char>| #[trigger] last_patch_value(patch, n, key) is Some ==> {
            let g = model_apply_patch(fields, patch, n);
            &&& field_index(g, key) is Some
            &&& g[field_index(g, key)->0].1 == last_patch_value(patch, n, key)->0
        },
    decreases n,
{
    if n > 0 {
        lemma_apply_patch_sets(fields, patch, n - 1);
        let before = model_apply_patch(fields, patch, n - 1);
        let (k, v) = patch[n - 1];
        let g = model_apply_patch(fields, patch, n);
        lemma_field_index_found(before, k, 0);
        match field_index(before, k) {
            Some(i) => {
                lemma_field_index_same_keys(before, g, k, 0);
                assert forall|key: Seq<char>| #[trigger] last_patch_value(patch, n, key) is Some implies {
                    &&& field_index(g, key) is Some
                    &&& g[field_index(g, key)->0].1 == last_patch_value(patch, n, key)->0
                } by {
                    lemma_field_index_same_keys(before, g, key, 0);
                    if key != k {
                        assert(last_patch_value(patch, n - 1, key) == last_patch_value(patch, n, key));
                        lemma_field_index_found(before, key, 0);
                    }
                }
            },
            None => {
                lemma_field_index_push(before, k, v, 0);
                assert forall|key: Seq<char>| #[trigger] last_patch_value(patch, n, key) is Some implies {
                    &&& field_index(g, key) is Some
                    &&& g[field_index(g, key)->0].1 == last_patch_value(patch, n, key)->0
                } by {
                    if key != k {
                        assert(last_patch_value(patch, n - 1, key) == last_patch_value(patch, n, key));
                        lemma_field_index_push_kept(before, key, (k, v), 0);
                        lemma_field_index_found(before, key, 0);
                    }
                }
            },
        }
    }
}

/// Applying a patch whose keys `fields` all has already changes no key,
/// and gives each first member of a patched key that key's last value.
proof fn lemma_apply_patch_in_place(
    fields: Seq<(Seq<char>, JsonModel)>,
    patch: Seq<(Seq<char>, JsonModel)>,
    n: int,
)
    requires
        0 <= n <= patch.len(),
        forall|j: int| 0 <= j < n ==> #[trigger] field_index(fields, patch[j].0) is Some,
    ensures
        model_apply_patch(fields, patch, n).len() == fields.len(),
        forall|j: int|
            0 <= j < fields.len() ==> #[trigger] model_apply_patch(fields, patch, n)[j] == (
                fields[j].0,
                if field_index(fields, fields[j].0) == Some(j) && last_patch_value(
                    patch,
                    n,
                    fields[j].0,
                ) is Some {
                    last_patch_value(patch, n, fields[j].0)->0
                } else {
                    fields[j].1
                },
            ),
    decreases n,
{
    if n > 0 {
        lemma_apply_patch_in_place(fields, patch, n - 1);
        let before = model_apply_patch(fields, patch, n - 1);
        let (k, v) = patch[n - 1];
        assert(field_index(fields, patch[n - 1].0) is Some);
        lemma_field_index_same_keys(fields, before, k, 0);
        lemma_field_index_found(fields, k, 0);
        let i = field_index(fields, k)->0;
        let g = model_apply_patch(fields, patch, n);
        assert(g == before.update(i, (k, v)));
        assert forall|j: int| 0 <= j < fields.len() implies #[trigger] g[j] == (
            fields[j].0,
            if field_index(fields, fields[j].0) == Some(j) && last_patch_value(
                patch,
                n,
                fields[j].0,
            ) is Some {
                last_patch_value(patch, n, fields[j].0)->0
            } else {
                fields[j].1
            },
        ) by {
            assert(before[j] == (
                fields[j].0,
                if field_index(fields, fields[j].0) == Some(j) && last_patch_value(
                    patch,
                    n - 1,
                    fields[j].0,
                ) is Some {
                    last_patch_value(patch, n - 1, fields[j].0)->0
                } else {
                    fields[j].1
                },
            ));
        }
    }
}

/// Applying the same patch twice leaves the members as applying it once.
pub proof fn lemma_apply_patch_idempotent(
    fields: Seq<(Seq<char>, JsonModel)>,
    patch: Seq<(Seq<char>, JsonModel)>,
)
    ensures
        model_apply_patch(
            model_apply_patch(fields, patch, patch.len() as int),
            patch,
            patch.len() as int,
        ) == model_apply_patch(fields, patch, patch.len() as int),
{
    let n = patch.len() as int;
    let g = model_apply_patch(fields, patch, n);
    lemma_apply_patch_sets(fields, patch, n);
    assert forall|j: int| 0 <= j < n implies #[trigger] field_index(g, patch[j].0) is Some by {
        lemma_last_patch_value_some(patch, n, j);
    }
    lemma_apply_patch_in_place(g, patch, n);
    let g2 = model_apply_patch(g, patch, n);
    assert forall|j: int| 0 <= j < g.len() implies #[trigger] g2[j] == g[j] by {
        let key = g[j].0;
        if field_index(g, key) == Some(j) && last_patch_value(patch, n, key) is Some {
            assert(g[field_index(g, key)->0].1 == last_patch_value(patch, n, key)->0);
        }
    }
    assert(g2 =~= g);
}

/// Walking the same path and applying the same patch twice leaves a value
/// as doing it once.
pub proof fn lemma_update_at_idempotent(
    m: JsonModel,
    path: Seq<Seq<char>>,
    start: int,
    patch: Seq<(Seq<char>, JsonModel)>,
)
    ensures
        model_update_at(model_update_at(m, path, start, patch), path, start, patch)
            == model_update_at(m, path, start, patch),
    decreases path.len() - start,
{
    match m {
        JsonModel::Object(fields) => {
            if start < 0 || start >= path.len() {
                lemma_apply_patch_idempotent(fields, patch);
            } else {
                match field_index(fields, path[start]) {
                    Some(i) => {
                        lemma_field_index_found(fields, path[start], 0);
                        let child = model_update_at(fields[i].1, path, start + 1, patch);
                        let once = fields.update(i, (fields[i].0, child));
                        lemma_field_index_same_keys(fields, once, path[start], 0);
                        lemma_update_at_idempotent(fields[i].1, path, start + 1, patch);
                        assert(once.update(i, (once[i].0, model_update_at(once[i].1, path, start + 1, patch))) =~= once);
                    },
                    None => {},
                }
            }
        },
        _ => {},
    }
}

/// A key missing from `fields` stays missing after a push of another key.
proof fn lemma_field_index_push_missing(
    fields: Seq<(Seq<char>, JsonModel)>,
    key: Seq<char>,
    extra: (Seq<char>, JsonModel),
    start: int,
)
    requires
        0 <= start,
        field_index_from(fields, key, start) is None,
        extra.0 != key,
    ensures
        field_index_from(fields.push(extra), key, start) is None,
    decreases fields.len() + 1 - start,
{
    if start <= fields.len() {
        lemma_field_index_push_missing(fields, key, extra, start + 1);
    }
}

/// Applying a patch that does not name `key` leaves the member `key` as it
/// was, or missing.
proof fn lemma_apply_patch_frame(
    fields: Seq<(Seq<char>, JsonModel)>,
    patch: Seq<(Seq<char>, JsonModel)>,
    n: int,
    key: Seq<char>,
)
    requires
        0 <= n <= patch.len(),
        last_patch_value(patch, n, key) is None,
    ensures
        model_get(JsonModel::Object(model_apply_patch(fields, patch, n)), key) == model_get(
            JsonModel::Object(fields),
            key,
        ),
    decreases n,
{
    if n > 0 {
        lemma_apply_patch_frame(fields, patch, n - 1, key);
        let before = model_apply_patch(fields, patch, n - 1);
        let (k, v) = patch[n - 1];
        let g = model_apply_patch(fields, patch, n);
        lemma_field_index_found(before, k, 0);
        lemma_field_index_found(before, key, 0);
        match field_index(before, k) {
            Some(i) => {
                lemma_field_index_same_keys(before, g, key, 0);
            },
            None => {
                if field_index(before, key) is Some {
                    lemma_field_index_push_kept(before, key, (k, v), 0);
                } else {
                    lemma_field_index_push_missing(before, key, (k, v), 0);
                }
            },
        }
    }
}

/// Where the walk along `path[start..]` reaches an object, the member `key`
/// of that object reads, after the update, as the last value that `patch`
/// gives it.
pub proof fn lemma_update_at_sets_field(
    m: JsonModel,
    path: Seq<Seq<char>>,
    start: int,
    patch: Seq<(Seq<char>, JsonModel)>,
    key: Seq<char>,
)
    requires
        0 <= start <= path.len(),
        model_find_path_from(m, path, start) matches Some(JsonModel::Object(_)),
        last_patch_value(patch, patch.len() as int, key) is Some,
    ensures
        model_find_path_from(model_update_at(m, path, start, patch), path.push(key), start)
            == last_patch_value(patch, patch.len() as int, key),
    decreases path.len() - start,
{
    let longer = path.push(key);
    assert(longer[start] == if start < path.len() { path[start] } else { key });
    match m {
        JsonModel::Object(fields) => {
            if start == path.len() {
                lemma_apply_patch_sets(fields, patch, patch.len() as int);
                let g = model_apply_patch(fields, patch, patch.len() as int);
                assert(model_update_at(m, path, start, patch) == JsonModel::Object(g));
                let v = g[field_index(g, key)->0].1;
                assert(model_get(JsonModel::Object(g), key) == Some(v));
                assert(model_find_path_from(v, longer, start + 1) == Some(v));
            } else {
                lemma_field_index_found(fields, path[start], 0);
                let i = field_index(fields, path[start])->0;
                let child = model_update_at(fields[i].1, path, start + 1, patch);
                let once = fields.update(i, (fields[i].0, child));
                lemma_field_index_same_keys(fields, once, path[start], 0);
                lemma_update_at_sets_field(fields[i].1, path, start + 1, patch, key);
            }
        },
        _ => {},
    }
}

/// The member `key` of the object the walk reaches is left as it was when
/// `patch` does not name it (and where the walk fails nothing changes).
pub proof fn lemma_update_at_frame(
    m: JsonModel,
    path: Seq<Seq<char>>,
    start: int,
    patch: Seq<(Seq<char>, JsonModel)>,
    key: Seq<char>,
)
    requires
        0 <= start <= path.len(),
        last_patch_value(patch, patch.len() as int, key) is None,
    ensures
        model_find_path_from(model_update_at(m, path, start, patch), path.push(key), start)
            == model_find_path_from(m, path.push(key), start),
    decreases path.len() - start,
{
    let longer = path.push(key);
    assert(longer[start] == if start < path.len() { path[start] } else { key });
    match m {
        JsonModel::Object(fields) => {
            if start == path.len() {
                lemma_apply_patch_frame(fields, patch, patch.len() as int, key);
            } else {
                lemma_field_index_found(fields, path[start], 0);
                match field_index(fields, path[start]) {
                    Some(i) => {
                        let child = model_update_at(fields[i].1, path, start + 1, patch);
                        let once = fields.update(i, (fields[i].0, child));
                        lemma_field_index_same_keys(fields, once, path[start], 0);
                        lemma_update_at_frame(fields[i].1, path, start + 1, patch, key);
                    },
                    None => {},
                }
            }
        },
        _ => {},
    }
}

/// `m` after walking `path[start..]` through nested objects and applying
/// `patch` to the object reached; `m` unchanged where the walk fails or
/// ends on a value that is not an object.
pub open spec fn model_update_at(
    m: JsonModel,
    path: Seq<Seq<char>>,
    start: int,
    patch: Seq<(Seq<char>, JsonModel)>,
) -> JsonModel
    decreases path.len() - start,
{
    match m {
        JsonModel::Object(fields) => if start < 0 || start >= path.len() {
            JsonModel::Object(model_apply_patch(fields, patch, patch.len() as int))
        } else {
            match field_index(fields, path[start]) {
                Some(i) => JsonModel::Object(
                    fields.update(
                        i,
                        (fields[i].0, model_update_at(fields[i].1, path, start + 1, patch)),
                    ),
                ),
                None => m,
            }
        },
        _ => m,
    }
}

/// Whether no two members of `fields` share a key.
pub open spec fn distinct_keys(fields: Seq<(Seq<char>, JsonModel)>) -> bool {
    forall|i: int, j: int| 0 <= i < j < fields.len() ==> #[trigger] fields[i].0 != #[trigger] fields[j].0
}

/// Whether every object reached from `m` through object members has
/// distinct keys.
pub open spec fn keys_unique(m: JsonModel) -> bool {
    forall|path: Seq<Seq<char>>|
        match #[trigger] model_find_path(m, path) {
            Some(JsonModel::Object(fields)) => distinct_keys(fields),
            _ => true,
        }
}

/// What the JSON parser of `rustc_serialize` makes of `text`, as a model;
/// `None` where `text` is not one well-formed JSON document.
pub uninterp spec fn parsed_json(text: Seq<char>) -> Option<JsonModel>;

/// What parsing `text` gives: nothing for a text past the parser's limits
/// (see [`within_parser_limits`]), else what the parser makes of it.
pub open spec fn parse_result(text: Seq<char>) -> Option<JsonModel> {
    if within_parser_limits(text) {
        parsed_json(text)
    } else {
        None
    }
}

/// Relies on `rustc_serialize::json::Json::from_str`: it parses `text` as
/// one JSON document, and what it returns depends on the text alone; it
/// holds each object's members in a `BTreeMap`, so no key repeats. Past the
/// limits that [`within_parser_limits`] states (a chain of nested keys over
/// 65,535 bytes, an exponent of more than 9 digits, nesting deeper than 128)
/// it can panic.
#[verifier::external_body]
fn parse_json_text(text: &str) -> (r: Option<JsonValue>)
    requires
        within_parser_limits(text@),
    ensures
        match r {
            Some(v) => parsed_json(text@) == Some(v@) && keys_unique(v@),
            None => parsed_json(text@) is None,
        },
{
    Json::from_str(text).ok().map(tree_of)
}

/// Relies on the variants of `rustc_serialize::json::Json`: moves each
/// value into the variant of [`JsonValue`] that holds the same data
/// (objects keep the key order of their `BTreeMap`).
#[verifier::external_body]
fn tree_of(j: Json) -> JsonValue {
    match j {
        Json::Null => JsonValue::Null,
        Json::Boolean(b) => JsonValue::Bool(b),
        Json::I64(n) => JsonValue::Int(n),
        Json::U64(n) => JsonValue::UInt(n),
        Json::F64(x) => JsonValue::Float(x.to_bits()),
        Json::String(s) => JsonValue::Str(s),
        Json::Array(a) => JsonValue::Array(a.into_iter().map(tree_of).collect()),
        Json::Object(o) => JsonValue::Object(o.into_iter().map(|(k, v)| (k, tree_of(v))).collect()),
    }
}

/// Index of the first member of `fields` named `key`.
fn find_index(fields: &Vec<(String, JsonValue)>, key: &String) -> (r: Option<usize>)
    ensures
        match r {
            Some(i) => i < fields@.len() && field_index(fields_view(fields@), key@) == Some(i as int),
            None => field_index(fields_view(fields@), key@) is None,
        },
{
    let ghost mfields = fields_view(fields@);
    let mut i: usize = 0;
    while i < fields.len()
        invariant
            0 <= i <= fields.len(),
            mfields == fields_view(fields@),
            field_index(mfields, key@) == field_index_from(mfields, key@, i as int),
        decreases fields.len() - i,
    {
        if fields[i].0.eq(key) {
            return Some(i);
        }
        i = i + 1;
    }
    None
}

/// Sets the member `key` of `fields` to `value`, as [`model_set_field`] says.
fn set_field(fields: &mut Vec<(String, JsonValue)>, key: String, value: JsonValue)
    ensures
        fields_view(final(fields)@) == model_set_field(fields_view(old(fields)@), key@, value@),
{
    let ghost old_view = fields_view(fields@);
    let ghost kv = key@;
    let ghost vv = value@;
    match find_index(fields, &key) {
        Some(i) => {
            fields.set(i, (key, value));
            assert(fields_view(fields@) =~= old_view.update(i as int, (kv, vv)));
        },
        None => {
            fields.push((key, value));
            assert(fields_view(fields@) =~= old_view.push((kv, vv)));
        },
    }
}

impl JsonValue {
    /// Parses one JSON document, as [`parse_result`] says: a text past the
    /// parser's limits is refused before it reaches the parser.
    pub fn parse(text: &str) -> (r: Option<JsonValue>)
        ensures
            match r {
                Some(v) => parse_result(text@) == Some(v@) && keys_unique(v@),
                None => parse_result(text@) is None,
            },
    {
        if check_parser_limits(text) {
            parse_json_text(text)
        } else {
            None
        }
    }

    /// The member `key` of this object, if it is an object holding one.
    pub fn get(&self, key: &str) -> (r: Option<&JsonValue>)
        ensures
            opt_view(r) == model_get(self@, key@),
    {
        broadcast use lemma_object_view;

        let wanted: String = key.to_owned();
        match self {
            JsonValue::Object(fields) => match find_index(fields, &wanted) {
                Some(i) => Some(&fields[i].1),
                None => None,
            },
            _ => None,
        }
    }

    /// A copy of this value with the same model.
    pub fn copy(&self) -> (r: JsonValue)
        ensures
            r@ == self@,
        decreases self,
    {
        broadcast use lemma_object_view, lemma_array_view;

        match self {
            JsonValue::Null => JsonValue::Null,
            JsonValue::Bool(b) => JsonValue::Bool(*b),
            JsonValue::Int(n) => JsonValue::Int(*n),
            JsonValue::UInt(n) => JsonValue::UInt(*n),
            JsonValue::Float(bits) => JsonValue::Float(*bits),
            JsonValue::Str(s) => JsonValue::Str(s.clone()),
            JsonValue::Array(items) => {
                let mut out: Vec<JsonValue> = Vec::new();
                let mut i: usize = 0;
                while i < items.len()
                    invariant
                        0 <= i <= items.len(),
                        out@.len() == i,
                        *self == JsonValue::Array(*items),
                        forall|j: int| 0 <= j < i ==> #[trigger] out@[j]@ == items@[j]@,
                    decreases items.len() - i,
                {
                    proof {
                        assert(decreases_to!(*self => self->Array_0));
                        assert(decreases_to!(self->Array_0 => self->Array_0[i as int]));
                    }
                    let item = items[i].copy();
                    out.push(item);
                    i = i + 1;
                }
                let r = JsonValue::Array(out);
                assert(out@.map_values(|x: JsonValue| x@) =~= items@.map_values(|x: JsonValue| x@));
                r
            },
            JsonValue::Object(fields) => {
                let mut out: Vec<(String, JsonValue)> = Vec::new();
                let mut i: usize = 0;
                while i < fields.len()
                    invariant
                        0 <= i <= fields.len(),
                        out@.len() == i,
                        *self == JsonValue::Object(*fields),
                        forall|j: int|
                            0 <= j < i ==> #[trigger] out@[j].0@ == fields@[j].0@ && out@[j].1@
                                == fields@[j].1@,
                    decreases fields.len() - i,
                {
                    proof {
                        assert(decreases_to!(*self => self->Object_0));
                        assert(decreases_to!(self->Object_0 => self->Object_0[i as int]));
                        assert(decreases_to!(self->Object_0[i as int] => self->Object_0[i as int].1));
                    }
                    let value = fields[i].1.copy();
                    out.push((fields[i].0.clone(), value));
                    i = i + 1;
                }
                let r = JsonValue::Object(out);
                assert(fields_view(out@) =~= fields_view(fields@));
                r
            },
        }
    }

    /// Walks `path[start..]` through nested objects and applies `patch` to
    /// the object reached, as [`model_update_at`] says.
    pub(crate) fn update_at(&mut self, path: &Vec<String>, start: usize, patch: &Vec<(String, JsonValue)>)
        requires
            start <= path.len(),
        ensures
            final(self)@ == model_update_at(
                old(self)@,
                strings_view(path@),
                start as int,
                fields_view(patch@),
            ),
        decreases path.len() - start,
    {
        broadcast use lemma_object_view;

        let ghost keys = strings_view(path@);
        let ghost mpatch = fields_view(patch@);
        match self {
            JsonValue::Object(fields) => {
                if start == path.len() {
                    let ghost orig = fields_view(fields@);
                    let mut j: usize = 0;
                    while j < patch.len()
                        invariant
                            0 <= j <= patch.len(),
                            mpatch == fields_view(patch@),
                            fields_view(fields@) == model_apply_patch(orig, mpatch, j as int),
                        decreases patch.len() - j,
                    {
                        let key = patch[j].0.clone();
                        let value = patch[j].1.copy();
                        set_field(fields, key, value);
                        j = j + 1;
                    }
                } else {
                    match find_index(fields, &path[start]) {
                        Some(i) => {
                            let ghost before = fields_view(fields@);
                            let child: &mut (String, JsonValue) = &mut fields[i];
                            child.1.update_at(path, start + 1, patch);
                            assert(fields_view(fields@) =~= before.update(
                                i as int,
                                (
                                    before[i as int].0,
                                    model_update_at(before[i as int].1, keys, start + 1, mpatch),
                                ),
                            ));
                        },
                        None => {},
                    }
                }
            },
            _ => {},
        }
    }

    /// The value reached by following every key of `path` in turn.
    pub fn find_path(&self, path: &[&str]) -> (r: Option<&JsonValue>)
        ensures
            opt_view(r) == model_find_path(self@, keys_view(path@)),
    {
        let ghost keys = keys_view(path@);
        let mut cur: &JsonValue = self;
        let mut i: usize = 0;
        while i < path.len()
            invariant
                0 <= i <= path.len(),
                keys == keys_view(path@),
                keys.len() == path@.len(),
                model_find_path(self@, keys) == model_find_path_from(cur@, keys, i as int),
            decreases path.len() - i,
        {
            match cur.get(path[i]) {
                Some(child) => {
                    cur = child;
                },
                None => {
                    return None;
                },
            }
            i = i + 1;
        }
        Some(cur)
    }

    /// The value reached by following every key of `path` in turn.
    pub fn find_keys(&self, path: &Vec<String>) -> (r: Option<&JsonValue>)
        ensures
            opt_view(r) == model_find_path(self@, strings_view(path@)),
    {
        let ghost keys = strings_view(path@);
        let mut cur: &JsonValue = self;
        let mut i: usize = 0;
        while i < path.len()
            invariant
                0 <= i <= path.len(),
                keys == strings_view(path@),
                keys.len() == path@.len(),
                model_find_path(self@, keys) == model_find_path_from(cur@, keys, i as int),
            decreases path.len() - i,
        {
            match cur.get(path[i].as_str()) {
                Some(child) => {
                    cur = child;
                },
                None => {
                    return None;
                },
            }
            i = i + 1;
        }
        Some(cur)
    }

    /// This value as an `i64`, as [`model_as_i64`] says.
    pub fn as_i64(&self) -> (r: Option<i64>)
        ensures
            r == model_as_i64(self@),
    {
        match self {
            JsonValue::Int(n) => Some(*n),
            JsonValue::UInt(n) => if *n <= i64::MAX as u64 {
                Some(*n as i64)
            } else {
                None
            },
            _ => None,
        }
    }

    pub fn as_bool(&self) -> (r: Option<bool>)
        ensures
            r == model_as_bool(self@),
    {
        match self {
            JsonValue::Bool(b) => Some(*b),
            _ => None,
        }
    }

    pub fn as_str(&self) -> (r: Option<&str>)
        ensures
            match r {
                Some(s) => model_as_str(self@) == Some(s@),
                None => model_as_str(self@) is None,
            },
    {
        match self {
            JsonValue::Str(s) => Some(s.as_str()),
            _ => None,
        }
    }
}

} // verus!
