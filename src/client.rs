//! What a gateway client computes from the gateway's answers: the session
//! cookie, the devices of a full snapshot, and the effect of a delta on
//! them. Making the requests is left to the caller.

use crate::device::{device_after_updates, device_of, Device, DeviceModel};
use crate::device_update::{groups_view, grouped_updates, updates_view, DeviceUpdate, UpdateModel};
use crate::error::RazberryError;
use crate::json::{
    distinct_keys, fields_view, lemma_object_view, model_find_path, model_get, parse_result,
    strings_view,
    JsonModel, JsonValue,
};
use crate::path::{split_at_char, split_on};
use crate::response::{model_timestamp, Timestamp};
use vstd::prelude::*;

verus! {

/// The name of the gateway's session cookie.
pub const SESSION_COOKIE_NAME: &'static str = "ZWAYSession";

/// The index of the first `"; "` in `s` at or after `i`, or the length of
/// `s` where there is none.
pub open spec fn attr_sep_from(s: Seq<char>, i: int) -> int
    decreases s.len() - i,
{
    if i < 0 || i + 1 >= s.len() {
        s.len() as int
    } else if s[i] == ';' && s[i + 1] == ' ' {
        i
    } else {
        attr_sep_from(s, i + 1)
    }
}

/// The name and value of a `Set-Cookie` header: its text up to the first
/// `"; "`, split at `=`; the first two pieces, where there are two.
pub open spec fn cookie_pair(s: Seq<char>) -> Option<(Seq<char>, Seq<char>)> {
    let pieces = split_on(s.subrange(0, attr_sep_from(s, 0)), '=');
    if pieces.len() >= 2 {
        Some((pieces[0], pieces[1]))
    } else {
        None
    }
}

/// [`attr_sep_from`] is a position within `s`.
proof fn lemma_attr_sep_bounds(s: Seq<char>, i: int)
    requires
        0 <= i,
    ensures
        i <= attr_sep_from(s, i) <= s.len() || attr_sep_from(s, i) == s.len(),
        0 <= attr_sep_from(s, i) <= s.len(),
    decreases s.len() - i,
{
    if i + 1 < s.len() && !(s[i] == ';' && s[i + 1] == ' ') {
        lemma_attr_sep_bounds(s, i + 1);
    }
}

/// The index of the first `"; "` in `s`, or its length.
fn attr_sep(s: &str) -> (r: usize)
    ensures
        r as int == attr_sep_from(s@, 0),
{
    let n = s.unicode_len();
    let mut i: usize = 0;
    while i < n
        invariant
            n == s@.len(),
            0 <= i <= n,
            attr_sep_from(s@, 0) == attr_sep_from(s@, i as int),
        decreases n - i,
    {
        if i + 1 < n && s.get_char(i) == ';' && s.get_char(i + 1) == ' ' {
            return i;
        }
        i = i + 1;
    }
    n
}

/// Reads the name and value of a `Set-Cookie` header, as [`cookie_pair`]
/// says.
pub fn parse_cookie_value(cookie: &str) -> (r: Option<(String, String)>)
    ensures
        match r {
            Some((name, value)) => cookie_pair(cookie@) == Some((name@, value@)),
            None => cookie_pair(cookie@) is None,
        },
{
    let end = attr_sep(cookie);
    proof {
        lemma_attr_sep_bounds(cookie@, 0);
    }
    let first = cookie.substring_char(0, end);
    let pieces = split_at_char(first, '=');
    if pieces.len() >= 2 {
        assert(strings_view(pieces@)[0] == pieces@[0]@);
        assert(strings_view(pieces@)[1] == pieces@[1]@);
        Some((pieces[0].clone(), pieces[1].clone()))
    } else {
        None
    }
}

/// Reads the top-level `updateTime` of a document.
pub fn parse_update_time(json: &JsonValue) -> (r: Result<Timestamp, RazberryError>)
    ensures
        match model_timestamp(json@) {
            Some(t) => r == Ok::<Timestamp, RazberryError>(t),
            None => r == Err::<Timestamp, RazberryError>(RazberryError::BadResponse),
        },
{
    match json.get("updateTime") {
        Some(t) => match t.as_i64() {
            Some(t) => Ok(t),
            None => Err(RazberryError::BadResponse),
        },
        None => Err(RazberryError::BadResponse),
    }
}

/// The devices decoded from the first `n` members of `devices`, in order;
/// the first decoding error is the result.
pub open spec fn devices_of(entries: Seq<(Seq<char>, JsonModel)>, n: int) -> Result<
    Seq<DeviceModel>,
    RazberryError,
>
    decreases n,
{
    if n <= 0 || n > entries.len() {
        Ok(Seq::empty())
    } else {
        match devices_of(entries, n - 1) {
            Err(e) => Err(e),
            Ok(before) => match device_of(entries[n - 1].0, entries[n - 1].1) {
                Ok(d) => Ok(before.push(d)),
                Err(e) => Err(e),
            },
        }
    }
}

/// What loading the devices of a full snapshot's text gives: the devices
/// and the snapshot's time.
pub open spec fn loaded_devices(text: Seq<char>) -> Result<(Seq<DeviceModel>, i64), RazberryError> {
    match parse_result(text) {
        None => Err(RazberryError::ParseError),
        Some(m) => match model_get(m, "devices"@) {
            Some(JsonModel::Object(entries)) => match devices_of(entries, entries.len() as int) {
                Err(e) => Err(e),
                Ok(ds) => match model_timestamp(m) {
                    Some(t) => Ok((ds, t)),
                    None => Err(RazberryError::BadResponse),
                },
            },
            _ => Err(RazberryError::BadResponse),
        },
    }
}

/// The models of a list of devices.
pub open spec fn devices_view(v: Seq<Device>) -> Seq<DeviceModel> {
    v.map_values(|d: Device| d@)
}

/// Once decoding a device has failed, loading fails with that error.
proof fn lemma_devices_error_persists(entries: Seq<(Seq<char>, JsonModel)>, k: int, n: int)
    requires
        0 < k <= n <= entries.len(),
        devices_of(entries, k) is Err,
    ensures
        devices_of(entries, n) == devices_of(entries, k),
    decreases n - k,
{
    if n > k {
        lemma_devices_error_persists(entries, k, n - 1);
    }
}

/// Each decoded device has the id of its member, in order.
proof fn lemma_device_ids(entries: Seq<(Seq<char>, JsonModel)>, n: int)
    requires
        0 <= n <= entries.len(),
    ensures
        match devices_of(entries, n) {
            Ok(ds) => ds.len() == n && forall|i: int| 0 <= i < n ==> #[trigger] ds[i].id == entries[i].0,
            Err(_) => true,
        },
    decreases n,
{
    if n > 0 {
        lemma_device_ids(entries, n - 1);
    }
}

/// Whether no two devices share an id.
pub open spec fn device_ids_unique(ds: Seq<DeviceModel>) -> bool {
    forall|i: int, j: int| 0 <= i < j < ds.len() ==> #[trigger] ds[i].id != #[trigger] ds[j].id
}

/// Decodes every device of a full snapshot's text, as [`loaded_devices`]
/// says; no two of them share an id. The devices come as a list, in the
/// order of their ids in the snapshot, rather than as a `HashMap` keyed by
/// id: vstd models a map's lookups only for keys of primitive types, and
/// for a `String` key it takes an `assume`, which this crate does not make.
pub fn load_devices(body: &str) -> (r: Result<(Vec<Device>, Timestamp), RazberryError>)
    ensures
        match r {
            Ok((ds, t)) => loaded_devices(body@) == Ok::<
                (Seq<DeviceModel>, i64),
                RazberryError,
            >((devices_view(ds@), t)) && device_ids_unique(devices_view(ds@)),
            Err(e) => loaded_devices(body@) == Err::<(Seq<DeviceModel>, i64), RazberryError>(e),
        },
{
    broadcast use lemma_object_view;

    let json = match JsonValue::parse(body) {
        Some(j) => j,
        None => {
            return Err(RazberryError::ParseError);
        },
    };
    let entries = match json.get("devices") {
        Some(JsonValue::Object(entries)) => entries,
        _ => {
            return Err(RazberryError::BadResponse);
        },
    };
    let ghost mentries = fields_view(entries@);
    let mut devices: Vec<Device> = Vec::new();
    let mut k: usize = 0;
    assert(devices_view(devices@) =~= Seq::<DeviceModel>::empty());
    while k < entries.len()
        invariant
            0 <= k <= entries.len(),
            mentries == fields_view(entries@),
            parse_result(body@) == Some(json@),
            model_get(json@, "devices"@) == Some(JsonModel::Object(mentries)),
            devices_of(mentries, k as int) == Ok::<Seq<DeviceModel>, RazberryError>(
                devices_view(devices@),
            ),
        decreases entries.len() - k,
    {
        assert(mentries[k as int] == (entries@[k as int].0@, entries@[k as int].1@));
        match Device::initialize_from_json(entries[k].0.as_str(), &entries[k].1) {
            Ok(d) => {
                let ghost before = devices@;
                devices.push(d);
                assert(devices_view(devices@) =~= devices_view(before).push(d@));
            },
            Err(e) => {
                proof {
                    lemma_devices_error_persists(mentries, k as int + 1, entries@.len() as int);
                }
                return Err(e);
            },
        }
        k = k + 1;
    }
    let update_time = parse_update_time(&json)?;
    proof {
        lemma_device_ids(mentries, mentries.len() as int);
        let path = seq!["devices"@];
        assert(path[0] == "devices"@ && path.len() == 1);
        reveal_with_fuel(crate::json::model_find_path_from, 2);
        assert(model_find_path(json@, path) == Some(JsonModel::Object(mentries)));
        assert(distinct_keys(mentries));
        assert(forall|i: int, j: int|
            0 <= i < j < mentries.len() ==> #[trigger] mentries[i].0 != #[trigger] mentries[j].0);
    }
    Ok((devices, update_time))
}

/// Index of the first device with id `id`.
pub open spec fn device_index_from(devs: Seq<DeviceModel>, id: Seq<char>, start: int) -> Option<int>
    decreases devs.len() - start,
{
    if start < 0 || start >= devs.len() {
        None
    } else if devs[start].id == id {
        Some(start)
    } else {
        device_index_from(devs, id, start + 1)
    }
}

/// The devices after the first `n` groups of a delta: each group goes to
/// the first device with its id (a group for an unknown device is
/// skipped); the first error stops the rest, keeping what was applied.
pub open spec fn devices_after_groups(
    devs: Seq<DeviceModel>,
    groups: Seq<(Seq<char>, Seq<UpdateModel>)>,
    n: int,
) -> (Result<(), RazberryError>, Seq<DeviceModel>)
    decreases n,
{
    if n <= 0 || n > groups.len() {
        (Ok(()), devs)
    } else {
        let (r, before) = devices_after_groups(devs, groups, n - 1);
        if r is Err {
            (r, before)
        } else {
            match device_index_from(before, groups[n - 1].0, 0) {
                None => (Ok(()), before),
                Some(i) => {
                    let (res, d) = device_after_updates(
                        before[i],
                        groups[n - 1].1,
                        groups[n - 1].1.len() as int,
                    );
                    (res, before.update(i, d))
                },
            }
        }
    }
}

/// What polling gives for the text of a delta: the delta's time, or the
/// error; and the devices afterwards.
pub open spec fn poll_outcome(devs: Seq<DeviceModel>, text: Seq<char>) -> (
    Result<i64, RazberryError>,
    Seq<DeviceModel>,
) {
    match parse_result(text) {
        None => (Err(RazberryError::ParseError), devs),
        Some(m) => match grouped_updates(m) {
            Err(e) => (Err(e), devs),
            Ok(groups) => {
                let (r, after) = devices_after_groups(devs, groups, groups.len() as int);
                match r {
                    Err(e) => (Err(e), after),
                    Ok(()) => match model_timestamp(m) {
                        Some(t) => (Ok(t), after),
                        None => (Err(RazberryError::BadResponse), after),
                    },
                }
            },
        },
    }
}

/// Once a group has failed, the result and the devices stay as they are.
proof fn lemma_groups_error_persists(
    devs: Seq<DeviceModel>,
    groups: Seq<(Seq<char>, Seq<UpdateModel>)>,
    k: int,
    n: int,
)
    requires
        0 < k <= n <= groups.len(),
        devices_after_groups(devs, groups, k).0 is Err,
    ensures
        devices_after_groups(devs, groups, n) == devices_after_groups(devs, groups, k),
    decreases n - k,
{
    if n > k {
        lemma_groups_error_persists(devs, groups, k, n - 1);
    }
}

/// Index of the first device of `devices` with id `id`.
fn find_device(devices: &Vec<Device>, id: &String) -> (r: Option<usize>)
    ensures
        match r {
            Some(i) => i < devices@.len() && device_index_from(devices_view(devices@), id@, 0)
                == Some(i as int),
            None => device_index_from(devices_view(devices@), id@, 0) is None,
        },
{
    let ghost dv = devices_view(devices@);
    let mut i: usize = 0;
    while i < devices.len()
        invariant
            0 <= i <= devices.len(),
            dv == devices_view(devices@),
            device_index_from(dv, id@, 0) == device_index_from(dv, id@, i as int),
        decreases devices.len() - i,
    {
        if devices[i].id.eq(id) {
            return Some(i);
        }
        i = i + 1;
    }
    None
}

/// Applies the text of a delta to `devices`, as [`poll_outcome`] says, and
/// returns the delta's time.
pub fn poll_devices(devices: &mut Vec<Device>, body: &str) -> (r: Result<Timestamp, RazberryError>)
    ensures
        (r, devices_view(final(devices)@)) == poll_outcome(devices_view(old(devices)@), body@),
{
    let json = match JsonValue::parse(body) {
        Some(j) => j,
        None => {
            return Err(RazberryError::ParseError);
        },
    };
    let updates = DeviceUpdate::parse_updates(&json)?;
    let ghost all = updates@;
    let ghost start = devices_view(devices@);
    let mut groups = updates.groups;
    let total: usize = groups.len();
    assert(all.len() == total);
    let mut k: usize = 0;
    while groups.len() > 0
        invariant
            0 <= k <= all.len(),
            all.len() <= usize::MAX,
            parse_result(body@) == Some(json@),
            grouped_updates(json@) == Ok::<Seq<(Seq<char>, Seq<UpdateModel>)>, RazberryError>(all),
            groups_view(groups@) == all.subrange(k as int, all.len() as int),
            start == devices_view(old(devices)@),
            devices_after_groups(start, all, k as int) == (
                Ok::<(), RazberryError>(()),
                devices_view(devices@),
            ),
        decreases groups.len(),
    {
        let ghost remaining = groups@;
        assert(groups_view(remaining).len() == remaining.len());
        assert(k < all.len());
        let (id, ups) = groups.remove(0);
        assert(groups_view(groups@) =~= groups_view(remaining).subrange(1, remaining.len() as int));
        assert(groups_view(remaining)[0] == (id@, updates_view(ups@)));
        assert(all[k as int] == (id@, updates_view(ups@)));
        let ghost before = devices_view(devices@);
        match find_device(devices, &id) {
            None => {},
            Some(i) => {
                let ghost d_before = devices@[i as int]@;
                let ghost n_ups = ups@.len();
                let device: &mut Device = &mut devices[i];
                let res = device.process_updates(ups);
                assert(devices_view(devices@) =~= before.update(
                    i as int,
                    device_after_updates(d_before, all[k as int].1, n_ups as int).1,
                ));
                match res {
                    Ok(()) => {},
                    Err(e) => {
                        assert(devices_after_groups(start, all, k as int + 1) == (
                            Err::<(), RazberryError>(e),
                            devices_view(devices@),
                        ));
                        proof {
                            lemma_groups_error_persists(start, all, k as int + 1, all.len() as int);
                        }
                        return Err(e);
                    },
                }
            },
        }
        k = k + 1;
    }
    assert(k == all.len());
    parse_update_time(&json)
}

} // verus!
