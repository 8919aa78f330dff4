//! Delta entries grouped by the device they address.
//!
//! A key such as `devices.14.instances.0.commandClasses.32.data.srcNodeId`
//! is read as the device id `14` and the path
//! `instances, 0, commandClasses, 32, data, srcNodeId`.

use crate::error::RazberryError;
use crate::json::{fields_view, lemma_object_view, strings_view, JsonModel, JsonValue};
use crate::path::{split_dots, split_key};
use vstd::prelude::*;

verus! {

/// One delta entry addressed to a device: the path below the device, and
/// the value stored under the entry's key.
pub struct DeviceUpdate {
    pub path: Vec<String>,
    pub data: JsonValue,
}

/// The model of a [`DeviceUpdate`].
pub struct UpdateModel {
    pub path: Seq<Seq<char>>,
    pub data: JsonModel,
}

impl View for DeviceUpdate {
    type V = UpdateModel;

    open spec fn view(&self) -> UpdateModel {
        UpdateModel { path: strings_view(self.path@), data: self.data@ }
    }
}

/// The models of a list of updates.
pub open spec fn updates_view(v: Seq<DeviceUpdate>) -> Seq<UpdateModel> {
    v.map_values(|u: DeviceUpdate| u@)
}

/// The updates of a delta, grouped by device id: the groups in the order
/// their devices first appear, each group's updates in the order of their
/// entries. Each device has at most one group (see [`groups_unique`]). A
/// list of pairs, for a `HashMap` here would say nothing: vstd models a
/// map's lookups only for keys of primitive types, and for a `String` key
/// it takes an `assume`, which this crate does not make; its order would
/// also be unspecified.
pub struct UpdateGroups {
    pub groups: Vec<(String, Vec<DeviceUpdate>)>,
}

pub open spec fn groups_view(g: Seq<(String, Vec<DeviceUpdate>)>) -> Seq<
    (Seq<char>, Seq<UpdateModel>),
> {
    Seq::new(g.len(), |i: int| (g[i].0@, updates_view(g[i].1@)))
}

impl View for UpdateGroups {
    type V = Seq<(Seq<char>, Seq<UpdateModel>)>;

    open spec fn view(&self) -> Seq<(Seq<char>, Seq<UpdateModel>)> {
        groups_view(self.groups@)
    }
}

/// Index of the first group at or after `start` for device `id`.
pub open spec fn group_index_from(
    groups: Seq<(Seq<char>, Seq<UpdateModel>)>,
    id: Seq<char>,
    start: int,
) -> Option<int>
    decreases groups.len() - start,
{
    if start < 0 || start >= groups.len() {
        None
    } else if groups[start].0 == id {
        Some(start)
    } else {
        group_index_from(groups, id, start + 1)
    }
}

pub open spec fn group_index(groups: Seq<(Seq<char>, Seq<UpdateModel>)>, id: Seq<char>) -> Option<
    int,
> {
    group_index_from(groups, id, 0)
}

/// The group that [`group_index_from`] finds is one of device `id`.
proof fn lemma_group_index_found(
    groups: Seq<(Seq<char>, Seq<UpdateModel>)>,
    id: Seq<char>,
    start: int,
)
    requires
        0 <= start,
    ensures
        match group_index_from(groups, id, start) {
            Some(i) => 0 <= i < groups.len() && groups[i].0 == id,
            None => forall|j: int| start <= j < groups.len() ==> groups[j].0 != id,
        },
    decreases groups.len() - start,
{
    if 0 <= start < groups.len() && groups[start].0 != id {
        lemma_group_index_found(groups, id, start + 1);
    }
}

/// Whether each device has at most one group.
pub open spec fn groups_unique(groups: Seq<(Seq<char>, Seq<UpdateModel>)>) -> bool {
    forall|i: int, j: int| 0 <= i < j < groups.len() ==> #[trigger] groups[i].0 != #[trigger] groups[j].0
}

/// Grouping gives each device at most one group.
pub proof fn lemma_groups_unique(entries: Seq<(Seq<char>, JsonModel)>, n: int)
    ensures
        groups_unique(group_entries(entries, n)),
    decreases n,
{
    if n > 0 && n <= entries.len() {
        lemma_groups_unique(entries, n - 1);
        let before = group_entries(entries, n - 1);
        let parts = split_dots(entries[n - 1].0);
        if is_device_key(parts) {
            lemma_group_index_found(before, parts[1], 0);
            let r = group_entries(entries, n);
            assert forall|i: int, j: int| 0 <= i < j < r.len() implies #[trigger] r[i].0
                != #[trigger] r[j].0 by {
                if j == before.len() {
                    assert(r[i].0 == before[i].0);
                }
            }
        }
    }
}

/// `groups` with `u` appended to the group of device `id`, which is
/// started at the end where there is none yet.
pub open spec fn add_to_group(
    groups: Seq<(Seq<char>, Seq<UpdateModel>)>,
    id: Seq<char>,
    u: UpdateModel,
) -> Seq<(Seq<char>, Seq<UpdateModel>)> {
    match group_index(groups, id) {
        Some(i) => groups.update(i, (id, groups[i].1.push(u))),
        None => groups.push((id, seq![u])),
    }
}

/// Whether the pieces of a key address a device: the first is `devices`
/// and a device id follows.
pub open spec fn is_device_key(parts: Seq<Seq<char>>) -> bool {
    parts.len() >= 2 && parts[0] == "devices"@
}

/// The groups made from the first `n` entries of a delta.
pub open spec fn group_entries(entries: Seq<(Seq<char>, JsonModel)>, n: int) -> Seq<
    (Seq<char>, Seq<UpdateModel>),
>
    decreases n,
{
    if n <= 0 || n > entries.len() {
        Seq::empty()
    } else {
        let before = group_entries(entries, n - 1);
        let parts = split_dots(entries[n - 1].0);
        if is_device_key(parts) {
            add_to_group(
                before,
                parts[1],
                UpdateModel { path: parts.subrange(2, parts.len() as int), data: entries[n - 1].1 },
            )
        } else {
            before
        }
    }
}

/// The device updates of a delta document: every entry whose key
/// addresses a device, grouped by device; an error where the document is
/// not an object.
pub open spec fn grouped_updates(m: JsonModel) -> Result<
    Seq<(Seq<char>, Seq<UpdateModel>)>,
    RazberryError,
> {
    match m {
        JsonModel::Object(entries) => Ok(group_entries(entries, entries.len() as int)),
        _ => Err(RazberryError::BadResponse),
    }
}

/// Index of the first group of `groups` for device `id`.
fn find_group(groups: &Vec<(String, Vec<DeviceUpdate>)>, id: &String) -> (r: Option<usize>)
    ensures
        match r {
            Some(i) => i < groups@.len() && group_index(groups_view(groups@), id@) == Some(
                i as int,
            ),
            None => group_index(groups_view(groups@), id@) is None,
        },
{
    let ghost g = groups_view(groups@);
    let mut i: usize = 0;
    while i < groups.len()
        invariant
            0 <= i <= groups.len(),
            g == groups_view(groups@),
            group_index(g, id@) == group_index_from(g, id@, i as int),
        decreases groups.len() - i,
    {
        if groups[i].0.eq(id) {
            return Some(i);
        }
        i = i + 1;
    }
    None
}

impl DeviceUpdate {
    /// Reads the device updates of a delta document, as [`grouped_updates`]
    /// says.
    pub fn parse_updates(json: &JsonValue) -> (r: Result<UpdateGroups, RazberryError>)
        ensures
            match r {
                Ok(g) => grouped_updates(json@) == Ok::<
                    Seq<(Seq<char>, Seq<UpdateModel>)>,
                    RazberryError,
                >(g@) && groups_unique(g@),
                Err(e) => grouped_updates(json@) == Err::<
                    Seq<(Seq<char>, Seq<UpdateModel>)>,
                    RazberryError,
                >(e),
            },
    {
        broadcast use lemma_object_view;

        let entries = match json {
            JsonValue::Object(entries) => entries,
            _ => {
                return Err(RazberryError::BadResponse);
            },
        };
        let ghost mentries = fields_view(entries@);
        let devices = "devices".to_owned();
        let mut groups: Vec<(String, Vec<DeviceUpdate>)> = Vec::new();
        let mut k: usize = 0;
        assert(groups_view(groups@) =~= group_entries(mentries, 0));
        while k < entries.len()
            invariant
                0 <= k <= entries.len(),
                devices@ == "devices"@,
                mentries == fields_view(entries@),
                groups_view(groups@) == group_entries(mentries, k as int),
            decreases entries.len() - k,
        {
            let parts = split_key(entries[k].0.as_str());
            if parts.len() >= 2 && parts[0].eq(&devices) {
                let mut path: Vec<String> = Vec::new();
                let mut j: usize = 2;
                while j < parts.len()
                    invariant
                        2 <= j <= parts.len(),
                        strings_view(path@) == strings_view(parts@).subrange(2, j as int),
                    decreases parts.len() - j,
                {
                    let ghost old_path = path@;
                    let piece = parts[j].clone();
                    path.push(piece);
                    assert(path@ == old_path.push(piece));
                    assert(strings_view(path@) =~= strings_view(old_path).push(piece@));
                    assert(strings_view(path@) =~= strings_view(parts@).subrange(2, j as int + 1));
                    j = j + 1;
                }
                let update = DeviceUpdate { path, data: entries[k].1.copy() };
                let id = parts[1].clone();
                let ghost before = groups_view(groups@);
                let ghost u = update@;
                match find_group(&groups, &id) {
                    Some(i) => {
                        proof {
                            lemma_group_index_found(before, id@, 0);
                        }
                        let group: &mut (String, Vec<DeviceUpdate>) = &mut groups[i];
                        group.1.push(update);
                        assert(updates_view(groups@[i as int].1@) =~= before[i as int].1.push(u));
                        assert(groups_view(groups@) =~= before.update(
                            i as int,
                            (id@, before[i as int].1.push(u)),
                        ));
                    },
                    None => {
                        let mut one: Vec<DeviceUpdate> = Vec::new();
                        one.push(update);
                        assert(updates_view(one@) =~= seq![u]);
                        groups.push((id, one));
                        assert(groups_view(groups@) =~= before.push((id@, seq![u])));
                    },
                }
            }
            k = k + 1;
        }
        proof {
            lemma_groups_unique(mentries, entries@.len() as int);
        }
        Ok(UpdateGroups { groups })
    }

}

impl UpdateGroups {
    /// The updates of device `id`, if the delta has any.
    pub fn get(&self, id: &str) -> (r: Option<&Vec<DeviceUpdate>>)
        ensures
            match r {
                Some(v) => match group_index(self@, id@) {
                    Some(i) => updates_view(v@) == self@[i].1,
                    None => false,
                },
                None => group_index(self@, id@) is None,
            },
    {
        let wanted = id.to_owned();
        match find_group(&self.groups, &wanted) {
            Some(i) => Some(&self.groups[i].1),
            None => None,
        }
    }

    /// Whether the delta has updates for device `id`.
    pub fn contains_key(&self, id: &str) -> (r: bool)
        ensures
            r == (group_index(self@, id@) is Some),
    {
        let wanted = id.to_owned();
        find_group(&self.groups, &wanted).is_some()
    }

    /// The number of devices the delta has updates for.
    pub fn len(&self) -> (r: usize)
        ensures
            r == self@.len(),
    {
        self.groups.len()
    }
}

} // verus!
