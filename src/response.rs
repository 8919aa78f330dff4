//! Full snapshots and timestamped deltas of the gateway's state, and the
//! merge of a delta into a snapshot.

use crate::json::{
    last_patch_value, lemma_update_at_frame, lemma_update_at_sets_field, lemma_update_at_idempotent, and_then_i64, fields_view, lemma_object_view, model_find_path, model_get, model_update_at,
    parse_result, JsonModel, JsonValue,
};
use crate::json::strings_view;
use crate::path::{decimal, decimal_string, split_dots, split_key};
use crate::sensors::{BurglarAlarmData, GeneralPurposeBinaryData};
use vstd::prelude::*;

verus! {

/// Seconds since the epoch, as the gateway reports them.
pub type Timestamp = i64;

/// What can go wrong with a response of the gateway.
#[derive(Debug, Clone, Copy, PartialEq, Eq, Structural)]
pub enum ResponseError {
    /// The text is not well-formed JSON, or it goes past what the parser
    /// can take (see `crate::scan::within_parser_limits`).
    ParseError,
    /// The JSON does not have the shape expected.
    MalformedResponse,
    /// There is no integer `updateTime` at the top level.
    MissingTimestamp,
    /// The delta starts after the snapshot ends: events in between may
    /// have been missed.
    PossibleMissingEvents,
}

/// The model of a [`GatewayState`].
pub struct SnapshotModel {
    pub tree: JsonModel,
    pub end_timestamp: i64,
}

/// The model of a [`PartialGatewayState`].
pub struct DeltaModel {
    pub tree: JsonModel,
    pub start_timestamp: i64,
    pub end_timestamp: i64,
}

/// The state of the whole gateway, as of `end_timestamp`.
pub struct GatewayState {
    json: JsonValue,
    end_timestamp: Timestamp,
}

/// The changes to the gateway's state between `start_timestamp` (the time
/// asked about) and `end_timestamp` (when the gateway answered).
pub struct PartialGatewayState {
    json: JsonValue,
    start_timestamp: Timestamp,
    end_timestamp: Timestamp,
}

impl View for GatewayState {
    type V = SnapshotModel;

    closed spec fn view(&self) -> SnapshotModel {
        SnapshotModel { tree: self.json@, end_timestamp: self.end_timestamp }
    }
}

impl View for PartialGatewayState {
    type V = DeltaModel;

    closed spec fn view(&self) -> DeltaModel {
        DeltaModel {
            tree: self.json@,
            start_timestamp: self.start_timestamp,
            end_timestamp: self.end_timestamp,
        }
    }
}

/// The top-level `updateTime` of a document.
pub open spec fn model_timestamp(m: JsonModel) -> Option<i64> {
    and_then_i64(model_get(m, "updateTime"@))
}

/// What a document builder returns for `text`: the tree and its timestamp,
/// or the error.
pub open spec fn document_of(text: Seq<char>) -> Result<(JsonModel, i64), ResponseError> {
    match parse_result(text) {
        None => Err(ResponseError::ParseError),
        Some(m) => match model_timestamp(m) {
            None => Err(ResponseError::MissingTimestamp),
            Some(t) => Ok((m, t)),
        },
    }
}

/// `tree` after one delta entry: the object reached by walking the dotted
/// `key` gets the members of `leaf`, where `leaf` is an object.
pub open spec fn apply_delta_entry(tree: JsonModel, key: Seq<char>, leaf: JsonModel) -> JsonModel {
    match leaf {
        JsonModel::Object(patch) => model_update_at(tree, split_dots(key), 0, patch),
        _ => tree,
    }
}

/// `tree` after the first `n` entries of a delta, skipping `updateTime`.
pub open spec fn merge_entries(tree: JsonModel, entries: Seq<(Seq<char>, JsonModel)>, n: int) -> JsonModel
    decreases n,
{
    if n <= 0 || n > entries.len() {
        tree
    } else {
        let before = merge_entries(tree, entries, n - 1);
        if entries[n - 1].0 == "updateTime"@ {
            before
        } else {
            apply_delta_entry(before, entries[n - 1].0, entries[n - 1].1)
        }
    }
}

/// The result of merging `d` into `s`, and the snapshot afterwards.
pub open spec fn merge_outcome(s: SnapshotModel, d: DeltaModel) -> (
    Result<(), ResponseError>,
    SnapshotModel,
) {
    if d.start_timestamp > s.end_timestamp {
        (Err(ResponseError::PossibleMissingEvents), s)
    } else if d.end_timestamp <= s.end_timestamp {
        (Ok(()), s)
    } else {
        match d.tree {
            JsonModel::Object(entries) => (
                Ok(()),
                SnapshotModel {
                    tree: merge_entries(s.tree, entries, entries.len() as int),
                    end_timestamp: d.end_timestamp,
                },
            ),
            _ => (Err(ResponseError::MalformedResponse), s),
        }
    }
}

/// A delta that starts no later than the snapshot ends, and ends after it,
/// is merged, and the snapshot then ends where the delta ends.
pub proof fn lemma_merge_advances(s: SnapshotModel, d: DeltaModel)
    requires
        model_timestamp(d.tree) is Some,
        d.start_timestamp <= s.end_timestamp < d.end_timestamp,
    ensures
        merge_outcome(s, d).0 is Ok,
        merge_outcome(s, d).1.end_timestamp == d.end_timestamp,
{
}

/// A delta that ends no later than the snapshot (and does not start after
/// it) is merged as a no-op: the snapshot is left exactly as it was.
pub proof fn lemma_merge_stale_is_noop(s: SnapshotModel, d: DeltaModel)
    requires
        d.start_timestamp <= s.end_timestamp,
        d.end_timestamp <= s.end_timestamp,
    ensures
        merge_outcome(s, d) == (Ok::<(), ResponseError>(()), s),
{
}

/// A delta that starts after the snapshot ends is refused with
/// `PossibleMissingEvents`, and the snapshot is left exactly as it was.
pub proof fn lemma_merge_gap_refused(s: SnapshotModel, d: DeltaModel)
    requires
        d.start_timestamp > s.end_timestamp,
    ensures
        merge_outcome(s, d) == (Err::<(), ResponseError>(ResponseError::PossibleMissingEvents), s),
{
}

/// Merging the same delta twice in a row leaves the snapshot as merging it
/// once does.
pub proof fn lemma_merge_idempotent(s: SnapshotModel, d: DeltaModel)
    ensures
        merge_outcome(merge_outcome(s, d).1, d).1 == merge_outcome(s, d).1,
{
}

/// Applying the same delta entry twice leaves the tree as applying it
/// once: each field it writes is overwritten with the same value.
pub proof fn lemma_delta_entry_idempotent(tree: JsonModel, key: Seq<char>, leaf: JsonModel)
    ensures
        apply_delta_entry(apply_delta_entry(tree, key, leaf), key, leaf) == apply_delta_entry(
            tree,
            key,
            leaf,
        ),
{
    match leaf {
        JsonModel::Object(patch) => lemma_update_at_idempotent(tree, split_dots(key), 0, patch),
        _ => {},
    }
}

/// Where the walk along a delta entry's dotted key reaches an object, each
/// member that the entry's leaf names reads afterwards as the last value
/// the leaf gives it (its value, where the leaf names it once).
pub proof fn lemma_delta_entry_sets_fields(
    tree: JsonModel,
    key: Seq<char>,
    patch: Seq<(Seq<char>, JsonModel)>,
    field: Seq<char>,
)
    requires
        model_find_path(tree, split_dots(key)) matches Some(JsonModel::Object(_)),
        last_patch_value(patch, patch.len() as int, field) is Some,
    ensures
        model_find_path(
            apply_delta_entry(tree, key, JsonModel::Object(patch)),
            split_dots(key).push(field),
        ) == last_patch_value(patch, patch.len() as int, field),
{
    lemma_update_at_sets_field(tree, split_dots(key), 0, patch, field);
}

/// A member that a delta entry's leaf does not name keeps its value (or
/// stays missing) in the object the entry's key leads to: only the fields
/// of the leaf are overwritten.
pub proof fn lemma_delta_entry_frame(tree: JsonModel, key: Seq<char>, leaf: JsonModel, field: Seq<char>)
    requires
        match leaf {
            JsonModel::Object(patch) => last_patch_value(patch, patch.len() as int, field) is None,
            _ => true,
        },
    ensures
        model_find_path(apply_delta_entry(tree, key, leaf), split_dots(key).push(field))
            == model_find_path(tree, split_dots(key).push(field)),
{
    match leaf {
        JsonModel::Object(patch) => lemma_update_at_frame(tree, split_dots(key), 0, patch, field),
        _ => {},
    }
}

/// Merging never moves a snapshot's end back: it stays, or advances to the
/// delta's end.
pub proof fn lemma_merge_end_monotone(s: SnapshotModel, d: DeltaModel)
    ensures
        merge_outcome(s, d).1.end_timestamp >= s.end_timestamp,
        merge_outcome(s, d).1.end_timestamp == s.end_timestamp || merge_outcome(s, d).1.end_timestamp
            == d.end_timestamp,
{
}

/// The dotted key of a sensor's node: the device, the instance, then `tail`.
pub open spec fn sensor_key(device: u8, instance: u8, tail: Seq<char>) -> Seq<char> {
    "devices."@ + decimal(device as nat) + ".instances."@ + decimal(instance as nat) + tail
}

/// The model of an optional alarm view.
pub open spec fn alarm_view(r: Option<BurglarAlarmData>) -> Option<JsonModel> {
    match r {
        Some(a) => Some(a@),
        None => None,
    }
}

/// The model of an optional binary sensor view.
pub open spec fn binary_view(r: Option<GeneralPurposeBinaryData>) -> Option<JsonModel> {
    match r {
        Some(b) => Some(b@),
        None => None,
    }
}

/// Builds the dotted key of a sensor's node.
fn build_sensor_key(device: u8, instance: u8, tail: &str) -> (r: String)
    ensures
        r@ == sensor_key(device, instance, tail@),
{
    let s = "devices.".to_owned();
    let d = decimal_string(device);
    let s = s.concat(d.as_str());
    let s = s.concat(".instances.");
    let i = decimal_string(instance);
    let s = s.concat(i.as_str());
    s.concat(tail)
}

/// Parses `raw` and reads its top-level timestamp.
fn parse_document(raw: &str) -> (r: Result<(JsonValue, Timestamp), ResponseError>)
    ensures
        match r {
            Ok((v, t)) => document_of(raw@) == Ok::<(JsonModel, i64), ResponseError>((v@, t)),
            Err(e) => document_of(raw@) == Err::<(JsonModel, i64), ResponseError>(e),
        },
{
    let json = match JsonValue::parse(raw) {
        Some(j) => j,
        None => {
            return Err(ResponseError::ParseError);
        },
    };
    let timestamp = match json.get("updateTime") {
        Some(t) => t.as_i64(),
        None => None,
    };
    match timestamp {
        Some(t) => Ok((json, t)),
        None => Err(ResponseError::MissingTimestamp),
    }
}

impl GatewayState {
    /// Builds a snapshot from the text of a full response.
    pub fn build(raw_json: &str) -> (r: Result<GatewayState, ResponseError>)
        ensures
            match r {
                Ok(s) => document_of(raw_json@) == Ok::<(JsonModel, i64), ResponseError>(
                    (s@.tree, s@.end_timestamp),
                ),
                Err(e) => document_of(raw_json@) == Err::<(JsonModel, i64), ResponseError>(e),
            },
    {
        match parse_document(raw_json) {
            Ok((json, t)) => Ok(GatewayState { json, end_timestamp: t }),
            Err(e) => Err(e),
        }
    }

    pub fn get_json(&self) -> (r: &JsonValue)
        ensures
            r@ == self@.tree,
    {
        &self.json
    }

    pub fn get_end_timestamp(&self) -> (r: Timestamp)
        ensures
            r == self@.end_timestamp,
    {
        self.end_timestamp
    }

    /// Merges a delta into this snapshot, as [`merge_outcome`] says: a
    /// delta that starts after this snapshot ends is refused; one that ends
    /// no later is ignored; otherwise each entry but `updateTime` patches
    /// the object its dotted key leads to (entries whose walk fails are
    /// dropped), and the snapshot then ends where the delta does.
    pub fn merge(&mut self, partial_state: &PartialGatewayState) -> (r: Result<(), ResponseError>)
        ensures
            (r, final(self)@) == merge_outcome(old(self)@, partial_state@),
    {
        broadcast use lemma_object_view;

        if partial_state.start_timestamp > self.end_timestamp {
            return Err(ResponseError::PossibleMissingEvents);
        } else if partial_state.end_timestamp <= self.end_timestamp {
            return Ok(());
        }
        match &partial_state.json {
            JsonValue::Object(entries) => {
                let ghost orig = self.json@;
                let ghost mentries = fields_view(entries@);
                let skip = "updateTime".to_owned();
                let mut i: usize = 0;
                while i < entries.len()
                    invariant
                        0 <= i <= entries.len(),
                        skip@ == "updateTime"@,
                        mentries == fields_view(entries@),
                        self.end_timestamp == old(self).end_timestamp,
                        self.json@ == merge_entries(orig, mentries, i as int),
                    decreases entries.len() - i,
                {
                    if !entries[i].0.eq(&skip) {
                        self.merge_updated_values(entries[i].0.as_str(), &entries[i].1);
                    }
                    i = i + 1;
                }
                self.end_timestamp = partial_state.end_timestamp;
                Ok(())
            },
            _ => Err(ResponseError::MalformedResponse),
        }
    }

    /// Applies one delta entry, as [`apply_delta_entry`] says.
    fn merge_updated_values(&mut self, device_key: &str, updated_json: &JsonValue)
        ensures
            final(self).json@ == apply_delta_entry(old(self).json@, device_key@, updated_json@),
            final(self).end_timestamp == old(self).end_timestamp,
    {
        broadcast use lemma_object_view;

        match updated_json {
            JsonValue::Object(patch) => {
                let path = split_key(device_key);
                self.json.update_at(&path, 0, patch);
            },
            _ => {},
        }
    }

    /// The burglar alarm data of a device's instance, if the snapshot has it.
    pub fn get_burglar_alarm(&self, device: u8, instance: u8) -> (r: Option<BurglarAlarmData>)
        ensures
            alarm_view(r) == model_find_path(
                self@.tree,
                split_dots(sensor_key(device, instance, ".commandClasses.113.data.7"@)),
            ),
    {
        let name = build_sensor_key(device, instance, ".commandClasses.113.data.7");
        let path = split_key(name.as_str());
        match self.json.find_keys(&path) {
            Some(data) => Some(BurglarAlarmData::new(data)),
            None => None,
        }
    }

    /// The general purpose binary sensor data of a device's instance, if the
    /// snapshot has it.
    pub fn get_general_purpose_binary(&self, device: u8, instance: u8) -> (r: Option<
        GeneralPurposeBinaryData,
    >)
        ensures
            binary_view(r) == model_find_path(
                self@.tree,
                split_dots(sensor_key(device, instance, ".commandClasses.48.data.1"@)),
            ),
    {
        let name = build_sensor_key(device, instance, ".commandClasses.48.data.1");
        let path = split_key(name.as_str());
        match self.json.find_keys(&path) {
            Some(data) => Some(GeneralPurposeBinaryData::new(data)),
            None => None,
        }
    }
}

impl PartialGatewayState {
    /// Builds a delta from the text of a response to a request for the
    /// changes since `request_time`.
    pub fn build(raw_json: &str, request_time: Timestamp) -> (r: Result<
        PartialGatewayState,
        ResponseError,
    >)
        ensures
            match r {
                Ok(p) => document_of(raw_json@) == Ok::<(JsonModel, i64), ResponseError>(
                    (p@.tree, p@.end_timestamp),
                ) && p@.start_timestamp == request_time,
                Err(e) => document_of(raw_json@) == Err::<(JsonModel, i64), ResponseError>(e),
            },
    {
        match parse_document(raw_json) {
            Ok((json, t)) => Ok(
                PartialGatewayState { json, start_timestamp: request_time, end_timestamp: t },
            ),
            Err(e) => Err(e),
        }
    }

    pub fn get_json(&self) -> (r: &JsonValue)
        ensures
            r@ == self@.tree,
    {
        &self.json
    }

    pub fn get_start_timestamp(&self) -> (r: Timestamp)
        ensures
            r == self@.start_timestamp,
    {
        self.start_timestamp
    }

    pub fn get_end_timestamp(&self) -> (r: Timestamp)
        ensures
            r == self@.end_timestamp,
    {
        self.end_timestamp
    }
}

/// The node of a sensor's dotted `key` in a response: walked piece by piece
/// in a full response (one with `devices`), looked up as one key in a
/// partial one.
pub open spec fn sensor_node(m: JsonModel, key: Seq<char>) -> Option<JsonModel> {
    if model_get(m, "devices"@) is Some {
        model_find_path(m, split_dots(key))
    } else {
        model_get(m, key)
    }
}

/// A response of the gateway's data endpoint, full or partial.
pub struct DataResponse {
    json: JsonValue,
}

impl View for DataResponse {
    type V = JsonModel;

    closed spec fn view(&self) -> JsonModel {
        self.json@
    }
}

impl DataResponse {
    pub fn new(json: JsonValue) -> (r: DataResponse)
        ensures
            r@ == json@,
    {
        DataResponse { json }
    }

    /// Parses the text of a response.
    pub fn from_str(raw_response: &str) -> (r: Result<DataResponse, ResponseError>)
        ensures
            match r {
                Ok(d) => parse_result(raw_response@) == Some(d@),
                Err(e) => e == ResponseError::ParseError && parse_result(raw_response@) is None,
            },
    {
        match JsonValue::parse(raw_response) {
            Some(json) => Ok(DataResponse::new(json)),
            None => Err(ResponseError::ParseError),
        }
    }

    /// When the gateway produced the response.
    pub fn get_timestamp(&self) -> (r: Option<Timestamp>)
        ensures
            r == model_timestamp(self@),
    {
        match self.json.get("updateTime") {
            Some(t) => t.as_i64(),
            None => None,
        }
    }

    /// Whether the response holds the whole state: it has `devices`.
    pub fn is_full_response(&self) -> (r: bool)
        ensures
            r == (model_get(self@, "devices"@) is Some),
    {
        self.json.get("devices").is_some()
    }

    /// The node of the sensor with dotted key `name`.
    fn sensor_data(&self, name: &String) -> (r: Option<&JsonValue>)
        ensures
            crate::json::opt_view(r) == sensor_node(self@, name@),
    {
        if self.is_full_response() {
            let path = DataResponse::path_query_parts(name.as_str());
            self.json.find_keys(&path)
        } else {
            self.json.get(name.as_str())
        }
    }

    /// The burglar alarm data of a device's instance, if present.
    pub fn get_burglar_alarm(&self, device: u8, instance: u8) -> (r: Option<BurglarAlarmData>)
        ensures
            alarm_view(r) == sensor_node(
                self@,
                sensor_key(device, instance, ".commandClasses.113.data.7"@),
            ),
    {
        let name = build_sensor_key(device, instance, ".commandClasses.113.data.7");
        match self.sensor_data(&name) {
            Some(data) => Some(BurglarAlarmData::new(data)),
            None => None,
        }
    }

    /// The general purpose binary sensor data of a device's instance, if
    /// present.
    pub fn get_general_purpose_binary(&self, device: u8, instance: u8) -> (r: Option<
        GeneralPurposeBinaryData,
    >)
        ensures
            binary_view(r) == sensor_node(
                self@,
                sensor_key(device, instance, ".commandClasses.48.data.1"@),
            ),
    {
        let name = build_sensor_key(device, instance, ".commandClasses.48.data.1");
        match self.sensor_data(&name) {
            Some(data) => Some(GeneralPurposeBinaryData::new(data)),
            None => None,
        }
    }

    pub fn get_json(&self) -> (r: &JsonValue)
        ensures
            r@ == self@,
    {
        &self.json
    }

    /// The pieces of a dotted query such as `devices.1.instances`.
    pub fn path_query_parts(query: &str) -> (r: Vec<String>)
        ensures
            strings_view(r@) == split_dots(query@),
    {
        split_key(query)
    }
}

} // verus!

