//! Z-Wave devices decoded from the gateway's tree, and their updates.

use crate::command_class::{class_after, class_instance_of, CommandClass};
use crate::command_classes::{class_byte, class_of_str, lemma_plain_key_names_class, CommandClasses};
use crate::path::{decimal, decimal_string};
use crate::device_update::{updates_view, DeviceUpdate, UpdateModel};
use crate::error::RazberryError;
use crate::json::{
    and_then_i64, and_then_str, distinct_keys, fields_view, keys_view, lemma_object_view,
    model_find_path, model_get, JsonModel, JsonValue,
};
use crate::response::Timestamp;
use crate::sensors::int_at;
use vstd::prelude::*;

verus! {

/// A Z-Wave device.
pub struct Device {
    /// The device's id in the gateway.
    pub id: String,
    /// The name its user gave it (`data.givenName.value`).
    pub name: String,
    /// When the gateway last heard from it (`data.lastReceived.updateTime`).
    pub last_contacted: Timestamp,
    /// Its decoded command classes, each class at most once (see
    /// [`classes_unique`]). A list of pairs, for a `HashMap` here would say nothing: vstd
    /// models a map's lookups only for keys of primitive types, and for a
    /// `String` or an enum key it takes an `assume`, which this crate does
    /// not make.
    pub command_classes: Vec<(CommandClasses, CommandClass)>,
}

/// The model of a [`Device`].
pub struct DeviceModel {
    pub id: Seq<char>,
    pub name: Seq<char>,
    pub last_contacted: i64,
    pub command_classes: Seq<(CommandClasses, CommandClass)>,
}

impl View for Device {
    type V = DeviceModel;

    open spec fn view(&self) -> DeviceModel {
        DeviceModel {
            id: self.id@,
            name: self.name@,
            last_contacted: self.last_contacted,
            command_classes: self.command_classes@,
        }
    }
}

/// Index of the first entry at or after `start` for class `c`.
pub open spec fn class_index_from(
    classes: Seq<(CommandClasses, CommandClass)>,
    c: CommandClasses,
    start: int,
) -> Option<int>
    decreases classes.len() - start,
{
    if start < 0 || start >= classes.len() {
        None
    } else if classes[start].0 == c {
        Some(start)
    } else {
        class_index_from(classes, c, start + 1)
    }
}

pub open spec fn class_index(classes: Seq<(CommandClasses, CommandClass)>, c: CommandClasses) -> Option<int> {
    class_index_from(classes, c, 0)
}

/// Whether each class appears at most once.
pub open spec fn classes_unique(classes: Seq<(CommandClasses, CommandClass)>) -> bool {
    forall|i: int, j: int|
        0 <= i < j < classes.len() ==> #[trigger] classes[i].0 != #[trigger] classes[j].0
}

/// What [`class_index_from`] finds is an entry of that class, and where it
/// finds none there is none.
proof fn lemma_class_index_found(
    classes: Seq<(CommandClasses, CommandClass)>,
    c: CommandClasses,
    start: int,
)
    requires
        0 <= start,
    ensures
        match class_index_from(classes, c, start) {
            Some(i) => start <= i < classes.len() && classes[i].0 == c && forall|j: int|
                start <= j < i ==> classes[j].0 != c,
            None => forall|j: int| start <= j < classes.len() ==> classes[j].0 != c,
        },
    decreases classes.len() - start,
{
    if start < classes.len() && classes[start].0 != c {
        lemma_class_index_found(classes, c, start + 1);
    }
}

/// The first entry of a class is what [`class_index_from`] finds.
proof fn lemma_class_index_at(
    classes: Seq<(CommandClasses, CommandClass)>,
    c: CommandClasses,
    i: int,
    start: int,
)
    requires
        0 <= start <= i < classes.len(),
        classes[i].0 == c,
        forall|j: int| start <= j < i ==> classes[j].0 != c,
    ensures
        class_index_from(classes, c, start) == Some(i),
    decreases i - start,
{
    if start < i {
        lemma_class_index_at(classes, c, i, start + 1);
    }
}

/// After setting class `c`, the entry of `c` holds the new instance and the
/// entry of any other class is as it was.
proof fn lemma_set_class_entries(
    classes: Seq<(CommandClasses, CommandClass)>,
    c: CommandClasses,
    inst: CommandClass,
    d: CommandClasses,
)
    ensures
        ({
            let r = set_class(classes, c, inst);
            if d == c {
                class_index(r, c) matches Some(i) && r[i] == (c, inst)
            } else {
                match class_index(classes, d) {
                    Some(i) => class_index(r, d) == Some(i) && r[i] == classes[i],
                    None => class_index(r, d) is None,
                }
            }
        }),
{
    let r = set_class(classes, c, inst);
    lemma_class_index_found(classes, c, 0);
    lemma_class_index_found(classes, d, 0);
    match class_index(classes, c) {
        Some(i0) => {
            if d == c {
                lemma_class_index_at(r, c, i0, 0);
            } else {
                match class_index(classes, d) {
                    Some(i) => lemma_class_index_at(r, d, i, 0),
                    None => {
                        lemma_class_index_found(r, d, 0);
                    },
                }
            }
        },
        None => {
            if d == c {
                lemma_class_index_at(r, c, classes.len() as int, 0);
            } else {
                match class_index(classes, d) {
                    Some(i) => lemma_class_index_at(r, d, i, 0),
                    None => {
                        lemma_class_index_found(r, d, 0);
                    },
                }
            }
        },
    }
}

/// Setting a class keeps each class at most once.
proof fn lemma_set_class_unique(
    classes: Seq<(CommandClasses, CommandClass)>,
    c: CommandClasses,
    inst: CommandClass,
)
    requires
        classes_unique(classes),
    ensures
        classes_unique(set_class(classes, c, inst)),
{
    lemma_class_index_found(classes, c, 0);
    let r = set_class(classes, c, inst);
    assert forall|i: int, j: int| 0 <= i < j < r.len() implies #[trigger] r[i].0 != #[trigger] r[j].0 by {
        if j == classes.len() {
            assert(r[i].0 == classes[i].0);
        }
    }
}

/// `classes` with class `c` set to `inst`: overwritten where present,
/// appended otherwise.
pub open spec fn set_class(
    classes: Seq<(CommandClasses, CommandClass)>,
    c: CommandClasses,
    inst: CommandClass,
) -> Seq<(CommandClasses, CommandClass)> {
    match class_index(classes, c) {
        Some(i) => classes.update(i, (c, inst)),
        None => classes.push((c, inst)),
    }
}

/// The plain decimal numeral of class `c`'s id: the key under which the
/// gateway lists the class.
pub open spec fn plain_key(c: CommandClasses) -> Seq<char> {
    decimal(class_byte(c) as nat)
}

/// Whether one of the first `n` members has key `key`.
pub open spec fn key_among(entries: Seq<(Seq<char>, JsonModel)>, n: int, key: Seq<char>) -> bool
    decreases n,
{
    if n <= 0 || n > entries.len() {
        false
    } else {
        entries[n - 1].0 == key || key_among(entries, n - 1, key)
    }
}

/// The classes decoded from the first `n` members of a `commandClasses`
/// object: a member whose key is no known class id is skipped, as is one
/// whose class has no decoder; the first decoding error is the result.
/// Where two members name one class (`48`, `048`, `+48`), the one under the
/// class's plain key ([`plain_key`]) is kept, and otherwise the later one.
pub open spec fn decode_classes(entries: Seq<(Seq<char>, JsonModel)>, n: int) -> Result<
    Seq<(CommandClasses, CommandClass)>,
    RazberryError,
>
    decreases n,
{
    if n <= 0 || n > entries.len() {
        Ok(Seq::empty())
    } else {
        match decode_classes(entries, n - 1) {
            Err(e) => Err(e),
            Ok(before) => match class_of_str(entries[n - 1].0) {
                None => Ok(before),
                Some(c) => match class_instance_of(c, entries[n - 1].1) {
                    Err(e) => Err(e),
                    Ok(inst) => if inst == CommandClass::Unsupported {
                        Ok(before)
                    } else if entries[n - 1].0 != plain_key(c) && key_among(
                        entries,
                        n - 1,
                        plain_key(c),
                    ) {
                        Ok(before)
                    } else {
                        Ok(set_class(before, c, inst))
                    },
                },
            },
        }
    }
}

/// The device decoded from its node in a full snapshot.
pub open spec fn device_of(id: Seq<char>, m: JsonModel) -> Result<DeviceModel, RazberryError> {
    match and_then_str(model_find_path(m, keys_view(seq!["data", "givenName", "value"]))) {
        None => Err(RazberryError::BadResponse),
        Some(name) => match int_at(m, seq!["data", "lastReceived", "updateTime"]) {
            None => Err(RazberryError::BadResponse),
            Some(t) => match model_find_path(
                m,
                keys_view(seq!["instances", "0", "commandClasses"]),
            ) {
                Some(JsonModel::Object(entries)) => match decode_classes(
                    entries,
                    entries.len() as int,
                ) {
                    Ok(cs) => Ok(
                        DeviceModel { id, name, last_contacted: t, command_classes: cs },
                    ),
                    Err(e) => Err(e),
                },
                _ => Err(RazberryError::BadResponse),
            },
        },
    }
}

/// The device after an update to one of its command classes: the class id
/// at path index 3 is required; an unknown class, or one the device was not
/// loaded with, is ignored.
pub open spec fn device_after_class_update(d: DeviceModel, u: UpdateModel) -> Result<
    DeviceModel,
    RazberryError,
> {
    if u.path.len() <= 3 {
        Err(RazberryError::BadResponse)
    } else {
        match class_of_str(u.path[3]) {
            None => Ok(d),
            Some(c) => match class_index(d.command_classes, c) {
                None => Ok(d),
                Some(i) => match class_after(d.command_classes[i].1, u) {
                    Ok(inst) => Ok(
                        DeviceModel {
                            id: d.id,
                            name: d.name,
                            last_contacted: d.last_contacted,
                            command_classes: d.command_classes.update(i, (c, inst)),
                        },
                    ),
                    Err(e) => Err(e),
                },
            },
        }
    }
}

/// The device after one update: `data.lastReceived` refreshes the last
/// contact time from the value's `updateTime` (required);
/// `instances.*.commandClasses` goes to the command class; anything else is
/// ignored.
pub open spec fn device_after_update(d: DeviceModel, u: UpdateModel) -> Result<
    DeviceModel,
    RazberryError,
> {
    if u.path.len() > 0 && u.path[0] == "data"@ {
        if u.path.len() > 1 && u.path[1] == "lastReceived"@ {
            match and_then_i64(model_get(u.data, "updateTime"@)) {
                Some(t) => Ok(
                    DeviceModel {
                        id: d.id,
                        name: d.name,
                        last_contacted: t,
                        command_classes: d.command_classes,
                    },
                ),
                None => Err(RazberryError::BadResponse),
            }
        } else {
            Ok(d)
        }
    } else if u.path.len() > 0 && u.path[0] == "instances"@ {
        if u.path.len() > 2 && u.path[2] == "commandClasses"@ {
            device_after_class_update(d, u)
        } else {
            Ok(d)
        }
    } else {
        Ok(d)
    }
}

/// The result of the first `n` updates and the device afterwards: they
/// are applied in order, and the first error stops the rest, keeping what
/// was applied before it.
pub open spec fn device_after_updates(d: DeviceModel, ups: Seq<UpdateModel>, n: int) -> (
    Result<(), RazberryError>,
    DeviceModel,
)
    decreases n,
{
    if n <= 0 || n > ups.len() {
        (Ok(()), d)
    } else {
        let (r, before) = device_after_updates(d, ups, n - 1);
        if r is Err {
            (r, before)
        } else {
            match device_after_update(before, ups[n - 1]) {
                Ok(after) => (Ok(()), after),
                Err(e) => (Err(e), before),
            }
        }
    }
}

/// A member of `commandClasses` whose key is no known class id, wherever
/// it stands, neither fails the decoding nor changes the classes decoded:
/// decoding with it gives what decoding without it gives.
pub proof fn lemma_unknown_class_skipped(
    before: Seq<(Seq<char>, JsonModel)>,
    key: Seq<char>,
    value: JsonModel,
    after: Seq<(Seq<char>, JsonModel)>,
)
    requires
        class_of_str(key) is None,
    ensures
        decode_classes(before + seq![(key, value)] + after, (before.len() + after.len() + 1) as int)
            == decode_classes(before + after, (before.len() + after.len()) as int),
{
    let with = before + seq![(key, value)] + after;
    let without = before + after;
    lemma_decode_classes_prefix(with, without, before.len() as int);
    lemma_decode_skipping(before, key, value, after, with.len() as int);
}

/// Past the skipped member, decoding with it is one member behind decoding
/// without it.
proof fn lemma_decode_skipping(
    before: Seq<(Seq<char>, JsonModel)>,
    key: Seq<char>,
    value: JsonModel,
    after: Seq<(Seq<char>, JsonModel)>,
    m: int,
)
    requires
        class_of_str(key) is None,
        before.len() < m <= before.len() + after.len() + 1,
        decode_classes(before + seq![(key, value)] + after, before.len() as int) == decode_classes(
            before + after,
            before.len() as int,
        ),
    ensures
        decode_classes(before + seq![(key, value)] + after, m) == decode_classes(
            before + after,
            m - 1,
        ),
    decreases m,
{
    let with = before + seq![(key, value)] + after;
    let without = before + after;
    if m > before.len() + 1 {
        lemma_decode_skipping(before, key, value, after, m - 1);
        assert(with[m - 1] == without[m - 2]);
        match class_of_str(with[m - 1].0) {
            Some(c) => {
                lemma_plain_key_names_class(c);
                lemma_key_among_skipping(before, key, value, after, m - 1, plain_key(c));
            },
            None => {},
        }
    } else {
        assert(with[m - 1] == (key, value));
    }
}

/// The decoded classes hold each class at most once.
pub proof fn lemma_decoded_classes_unique(entries: Seq<(Seq<char>, JsonModel)>, n: int)
    ensures
        match decode_classes(entries, n) {
            Ok(cs) => classes_unique(cs),
            Err(_) => true,
        },
    decreases n,
{
    if n > 0 && n <= entries.len() {
        lemma_decoded_classes_unique(entries, n - 1);
        match decode_classes(entries, n - 1) {
            Ok(before) => match class_of_str(entries[n - 1].0) {
                Some(c) => match class_instance_of(c, entries[n - 1].1) {
                    Ok(inst) => lemma_set_class_unique(before, c, inst),
                    Err(_) => {},
                },
                None => {},
            },
            Err(_) => {},
        }
    }
}

/// Updates keep each class of a device at most once.
pub proof fn lemma_updates_keep_classes_unique(d: DeviceModel, ups: Seq<UpdateModel>, n: int)
    requires
        classes_unique(d.command_classes),
    ensures
        classes_unique(device_after_updates(d, ups, n).1.command_classes),
    decreases n,
{
    if n > 0 && n <= ups.len() {
        lemma_updates_keep_classes_unique(d, ups, n - 1);
        let before = device_after_updates(d, ups, n - 1).1;
        let u = ups[n - 1];
        if u.path.len() > 3 {
            match class_of_str(u.path[3]) {
                Some(c) => {
                    lemma_class_index_found(before.command_classes, c, 0);
                },
                None => {},
            }
        }
        match device_after_update(before, u) {
            Ok(after) => {
                assert(forall|i: int|
                    0 <= i < after.command_classes.len() ==> #[trigger] after.command_classes[i].0
                        == before.command_classes[i].0);
            },
            Err(_) => {},
        }
    }
}

/// Where the members' keys are distinct and one of them stands under class
/// `c`'s plain key and decodes, the decoded entry of `c` is that member's
/// decoding, whatever other members name `c` (`048`, `+48`) and wherever
/// they stand.
pub proof fn lemma_plain_key_wins(entries: Seq<(Seq<char>, JsonModel)>, j: int, c: CommandClasses)
    requires
        distinct_keys(entries),
        0 <= j < entries.len(),
        entries[j].0 == plain_key(c),
        class_instance_of(c, entries[j].1) is Ok,
        class_instance_of(c, entries[j].1)->Ok_0 != CommandClass::Unsupported,
    ensures
        match decode_classes(entries, entries.len() as int) {
            Ok(cs) => class_index(cs, c) matches Some(i) && cs[i].1 == class_instance_of(
                c,
                entries[j].1,
            )->Ok_0,
            Err(_) => true,
        },
{
    lemma_plain_key_wins_from(entries, j, c, entries.len() as int);
}

proof fn lemma_plain_key_wins_from(
    entries: Seq<(Seq<char>, JsonModel)>,
    j: int,
    c: CommandClasses,
    n: int,
)
    requires
        distinct_keys(entries),
        0 <= j < n <= entries.len(),
        entries[j].0 == plain_key(c),
        class_instance_of(c, entries[j].1) is Ok,
        class_instance_of(c, entries[j].1)->Ok_0 != CommandClass::Unsupported,
    ensures
        match decode_classes(entries, n) {
            Ok(cs) => class_index(cs, c) matches Some(i) && cs[i].1 == class_instance_of(
                c,
                entries[j].1,
            )->Ok_0,
            Err(_) => true,
        },
    decreases n,
{
    let inst = class_instance_of(c, entries[j].1)->Ok_0;
    lemma_plain_key_names_class(c);
    if n == j + 1 {
        match decode_classes(entries, n - 1) {
            Ok(before) => {
                lemma_set_class_entries(before, c, inst, c);
            },
            Err(_) => {},
        }
    } else {
        lemma_plain_key_wins_from(entries, j, c, n - 1);
        match decode_classes(entries, n - 1) {
            Ok(before) => {
                match class_of_str(entries[n - 1].0) {
                    Some(d) => match class_instance_of(d, entries[n - 1].1) {
                        Ok(x) => {
                            lemma_set_class_entries(before, d, x, c);
                            if d == c {
                                assert(entries[n - 1].0 != entries[j].0);
                                lemma_key_among_has(entries, j, n - 1);
                            }
                        },
                        Err(_) => {},
                    },
                    None => {},
                }
            },
            Err(_) => {},
        }
    }
}

/// Decoding looks only at the members it has reached.
proof fn lemma_decode_classes_prefix(
    a: Seq<(Seq<char>, JsonModel)>,
    b: Seq<(Seq<char>, JsonModel)>,
    n: int,
)
    requires
        0 <= n <= a.len(),
        n <= b.len(),
        forall|i: int| 0 <= i < n ==> a[i] == b[i],
    ensures
        decode_classes(a, n) == decode_classes(b, n),
    decreases n,
{
    if n > 0 {
        lemma_decode_classes_prefix(a, b, n - 1);
        match class_of_str(a[n - 1].0) {
            Some(c) => lemma_key_among_prefix(a, b, n - 1, plain_key(c)),
            None => {},
        }
    }
}

/// Whether a key is among the first `n` members looks at those alone.
proof fn lemma_key_among_prefix(
    a: Seq<(Seq<char>, JsonModel)>,
    b: Seq<(Seq<char>, JsonModel)>,
    n: int,
    key: Seq<char>,
)
    requires
        0 <= n <= a.len(),
        n <= b.len(),
        forall|i: int| 0 <= i < n ==> a[i] == b[i],
    ensures
        key_among(a, n, key) == key_among(b, n, key),
    decreases n,
{
    if n > 0 {
        lemma_key_among_prefix(a, b, n - 1, key);
    }
}

/// Past a member whose key is not `k`, whether `k` is among the members
/// is as without that member.
proof fn lemma_key_among_skipping(
    before: Seq<(Seq<char>, JsonModel)>,
    key: Seq<char>,
    value: JsonModel,
    after: Seq<(Seq<char>, JsonModel)>,
    m: int,
    k: Seq<char>,
)
    requires
        key != k,
        before.len() < m <= before.len() + after.len() + 1,
    ensures
        key_among(before + seq![(key, value)] + after, m, k) == key_among(before + after, m - 1, k),
    decreases m,
{
    let with = before + seq![(key, value)] + after;
    let without = before + after;
    if m > before.len() + 1 {
        lemma_key_among_skipping(before, key, value, after, m - 1, k);
        assert(with[m - 1] == without[m - 2]);
    } else {
        assert(with[m - 1] == (key, value));
        lemma_key_among_prefix(with, without, before.len() as int, k);
    }
}

/// Once decoding has failed, it fails with the same error to the end.
proof fn lemma_decode_error_persists(entries: Seq<(Seq<char>, JsonModel)>, k: int, n: int)
    requires
        0 < k <= n <= entries.len(),
        decode_classes(entries, k) is Err,
    ensures
        decode_classes(entries, n) == decode_classes(entries, k),
    decreases n - k,
{
    if n > k {
        lemma_decode_error_persists(entries, k, n - 1);
    }
}

/// Once an update has failed, the result and the device stay as they are.
proof fn lemma_update_error_persists(d: DeviceModel, ups: Seq<UpdateModel>, k: int, n: int)
    requires
        0 < k <= n <= ups.len(),
        device_after_updates(d, ups, k).0 is Err,
    ensures
        device_after_updates(d, ups, n) == device_after_updates(d, ups, k),
    decreases n - k,
{
    if n > k {
        lemma_update_error_persists(d, ups, k, n - 1);
    }
}

/// Index of the first entry of `classes` for class `c`.
fn find_class(classes: &Vec<(CommandClasses, CommandClass)>, c: CommandClasses) -> (r: Option<
    usize,
>)
    ensures
        match r {
            Some(i) => i < classes@.len() && class_index(classes@, c) == Some(i as int),
            None => class_index(classes@, c) is None,
        },
{
    let mut i: usize = 0;
    while i < classes.len()
        invariant
            0 <= i <= classes.len(),
            class_index(classes@, c) == class_index_from(classes@, c, i as int),
        decreases classes.len() - i,
    {
        if classes[i].0 == c {
            return Some(i);
        }
        i = i + 1;
    }
    None
}

/// A key of one of the first `n` members is among them.
proof fn lemma_key_among_has(entries: Seq<(Seq<char>, JsonModel)>, i: int, n: int)
    requires
        0 <= i < n <= entries.len(),
    ensures
        key_among(entries, n, entries[i].0),
    decreases n,
{
    if n - 1 > i {
        lemma_key_among_has(entries, i, n - 1);
    }
}

/// Whether one of the first `n` members of `entries` has key `key`.
fn has_key_before(entries: &Vec<(String, JsonValue)>, n: usize, key: &String) -> (r: bool)
    requires
        n <= entries@.len(),
    ensures
        r == key_among(fields_view(entries@), n as int, key@),
{
    let ghost m = fields_view(entries@);
    let mut i: usize = 0;
    while i < n
        invariant
            0 <= i <= n <= entries@.len(),
            m == fields_view(entries@),
            !key_among(m, i as int, key@),
        decreases n - i,
    {
        if entries[i].0.eq(key) {
            assert(m[i as int].0 == key@);
            proof {
                lemma_key_among_has(m, i as int, n as int);
            }
            return true;
        }
        i = i + 1;
    }
    false
}

/// Decodes the members of a `commandClasses` object, as
/// [`decode_classes`] says.
fn decode_command_classes(entries: &Vec<(String, JsonValue)>) -> (r: Result<
    Vec<(CommandClasses, CommandClass)>,
    RazberryError,
>)
    ensures
        match r {
            Ok(cs) => decode_classes(fields_view(entries@), entries@.len() as int) == Ok::<
                Seq<(CommandClasses, CommandClass)>,
                RazberryError,
            >(cs@),
            Err(e) => decode_classes(fields_view(entries@), entries@.len() as int) == Err::<
                Seq<(CommandClasses, CommandClass)>,
                RazberryError,
            >(e),
        },
{
    let ghost mentries = fields_view(entries@);
    let mut classes: Vec<(CommandClasses, CommandClass)> = Vec::new();
    let mut k: usize = 0;
    while k < entries.len()
        invariant
            0 <= k <= entries.len(),
            mentries == fields_view(entries@),
            decode_classes(mentries, k as int) == Ok::<
                Seq<(CommandClasses, CommandClass)>,
                RazberryError,
            >(classes@),
        decreases entries.len() - k,
    {
        match CommandClasses::from_str(entries[k].0.as_str()) {
            None => {},
            Some(c) => {
                let inst = match CommandClass::initialize_from_json(c, &entries[k].1) {
                    Ok(inst) => inst,
                    Err(e) => {
                        proof {
                            lemma_decode_error_persists(
                                mentries,
                                k as int + 1,
                                entries@.len() as int,
                            );
                        }
                        return Err(e);
                    },
                };
                let plain = decimal_string(c.id());
                let overridden = !entries[k].0.eq(&plain) && has_key_before(entries, k, &plain);
                if inst != CommandClass::Unsupported && !overridden {
                    match find_class(&classes, c) {
                        Some(i) => {
                            classes.set(i, (c, inst));
                        },
                        None => {
                            classes.push((c, inst));
                        },
                    }
                }
            },
        }
        k = k + 1;
    }
    Ok(classes)
}

/// The string at `path` under `json`.
fn string_under(json: &JsonValue, path: Vec<&str>) -> (r: Option<String>)
    ensures
        match r {
            Some(s) => and_then_str(model_find_path(json@, keys_view(path@))) == Some(s@),
            None => and_then_str(model_find_path(json@, keys_view(path@))) is None,
        },
{
    match json.find_path(path.as_slice()) {
        Some(v) => match v.as_str() {
            Some(s) => Some(s.to_owned()),
            None => None,
        },
        None => None,
    }
}

impl Device {
    /// Decodes device `device_id` from its node in a full snapshot, as
    /// [`device_of`] says.
    pub fn initialize_from_json(device_id: &str, json: &JsonValue) -> (r: Result<
        Device,
        RazberryError,
    >)
        ensures
            match r {
                Ok(d) => device_of(device_id@, json@) == Ok::<DeviceModel, RazberryError>(d@)
                    && classes_unique(d.command_classes@),
                Err(e) => device_of(device_id@, json@) == Err::<DeviceModel, RazberryError>(e),
            },
    {
        broadcast use lemma_object_view;

        let name = Device::get_string_property(json)?;
        let last_contacted = Device::get_last_contacted(json)?;
        let path = vec!["instances", "0", "commandClasses"];
        let entries = match json.find_path(path.as_slice()) {
            Some(JsonValue::Object(entries)) => entries,
            _ => {
                return Err(RazberryError::BadResponse);
            },
        };
        let command_classes = decode_command_classes(entries)?;
        proof {
            lemma_decoded_classes_unique(fields_view(entries@), entries@.len() as int);
        }
        Ok(Device { id: device_id.to_owned(), name, last_contacted, command_classes })
    }

    /// The device's given name.
    fn get_string_property(json: &JsonValue) -> (r: Result<String, RazberryError>)
        ensures
            match r {
                Ok(s) => and_then_str(
                    model_find_path(json@, keys_view(seq!["data", "givenName", "value"])),
                ) == Some(s@),
                Err(e) => e == RazberryError::BadResponse && and_then_str(
                    model_find_path(json@, keys_view(seq!["data", "givenName", "value"])),
                ) is None,
            },
    {
        match string_under(json, vec!["data", "givenName", "value"]) {
            Some(s) => Ok(s),
            None => Err(RazberryError::BadResponse),
        }
    }

    /// When the gateway last heard from the device.
    fn get_last_contacted(json: &JsonValue) -> (r: Result<Timestamp, RazberryError>)
        ensures
            match r {
                Ok(t) => int_at(json@, seq!["data", "lastReceived", "updateTime"]) == Some(t),
                Err(e) => e == RazberryError::BadResponse && int_at(
                    json@,
                    seq!["data", "lastReceived", "updateTime"],
                ) is None,
            },
    {
        let path = vec!["data", "lastReceived", "updateTime"];
        match json.find_path(path.as_slice()) {
            Some(v) => match v.as_i64() {
                Some(t) => Ok(t),
                None => Err(RazberryError::BadResponse),
            },
            None => Err(RazberryError::BadResponse),
        }
    }

    /// The decoded instance of class `c`, if the device has one.
    pub fn get_command_class(&self, c: CommandClasses) -> (r: Option<&CommandClass>)
        ensures
            match r {
                Some(inst) => match class_index(self.command_classes@, c) {
                    Some(i) => *inst == self.command_classes@[i].1,
                    None => false,
                },
                None => class_index(self.command_classes@, c) is None,
            },
    {
        match find_class(&self.command_classes, c) {
            Some(i) => Some(&self.command_classes[i].1),
            None => None,
        }
    }

    /// Applies the updates of a delta to this device, as
    /// [`device_after_updates`] says.
    pub fn process_updates(&mut self, updates: Vec<DeviceUpdate>) -> (r: Result<(), RazberryError>)
        ensures
            (r, final(self)@) == device_after_updates(
                old(self)@,
                updates_view(updates@),
                updates@.len() as int,
            ),
            classes_unique(old(self).command_classes@) ==> classes_unique(
                final(self).command_classes@,
            ),
    {
        proof {
            if classes_unique(self.command_classes@) {
                lemma_updates_keep_classes_unique(
                    self@,
                    updates_view(updates@),
                    updates@.len() as int,
                );
            }
        }
        let ghost ups = updates_view(updates@);
        let ghost start = self@;
        let mut k: usize = 0;
        while k < updates.len()
            invariant
                0 <= k <= updates.len(),
                ups == updates_view(updates@),
                start == old(self)@,
                classes_unique(start.command_classes) ==> classes_unique(
                    device_after_updates(start, ups, updates@.len() as int).1.command_classes,
                ),
                device_after_updates(start, ups, k as int) == (Ok::<(), RazberryError>(()), self@),
            decreases updates.len() - k,
        {
            assert(ups[k as int] == updates@[k as int]@);
            match self.process_update(&updates[k]) {
                Ok(()) => {},
                Err(e) => {
                    assert(device_after_updates(start, ups, k as int + 1) == (
                        Err::<(), RazberryError>(e),
                        self@,
                    ));
                    proof {
                        lemma_update_error_persists(start, ups, k as int + 1, updates@.len() as int);
                    }
                    return Err(e);
                },
            }
            k = k + 1;
        }
        Ok(())
    }

    /// Applies one update, as [`device_after_update`] says; on an error the
    /// device is left as it was.
    fn process_update(&mut self, update: &DeviceUpdate) -> (r: Result<(), RazberryError>)
        ensures
            match device_after_update(old(self)@, update@) {
                Ok(d) => r == Ok::<(), RazberryError>(()) && final(self)@ == d,
                Err(e) => r == Err::<(), RazberryError>(e) && final(self)@ == old(self)@,
            },
    {
        let data = "data".to_owned();
        let instances = "instances".to_owned();
        if update.path.len() > 0 && update.path[0].eq(&data) {
            let last_received = "lastReceived".to_owned();
            if update.path.len() > 1 && update.path[1].eq(&last_received) {
                let timestamp = match update.data.get("updateTime") {
                    Some(t) => t.as_i64(),
                    None => None,
                };
                match timestamp {
                    Some(t) => {
                        self.last_contacted = t;
                    },
                    None => {
                        return Err(RazberryError::BadResponse);
                    },
                }
            }
            Ok(())
        } else if update.path.len() > 0 && update.path[0].eq(&instances) {
            let command_classes = "commandClasses".to_owned();
            if update.path.len() > 2 && update.path[2].eq(&command_classes) {
                self.process_command_class_update(update)
            } else {
                Ok(())
            }
        } else {
            Ok(())
        }
    }

    /// Hands an update to the command class it addresses, as
    /// [`device_after_class_update`] says.
    fn process_command_class_update(&mut self, update: &DeviceUpdate) -> (r: Result<
        (),
        RazberryError,
    >)
        ensures
            match device_after_class_update(old(self)@, update@) {
                Ok(d) => r == Ok::<(), RazberryError>(()) && final(self)@ == d,
                Err(e) => r == Err::<(), RazberryError>(e) && final(self)@ == old(self)@,
            },
    {
        if update.path.len() <= 3 {
            return Err(RazberryError::BadResponse);
        }
        let c = match CommandClasses::from_str(update.path[3].as_str()) {
            None => {
                return Ok(());
            },
            Some(c) => c,
        };
        match find_class(&self.command_classes, c) {
            None => Ok(()),
            Some(i) => {
                let mut inst = self.command_classes[i].1;
                match inst.process_update(update) {
                    Ok(()) => {
                        self.command_classes.set(i, (c, inst));
                        Ok(())
                    },
                    Err(e) => Err(e),
                }
            },
        }
    }
}

} // verus!
