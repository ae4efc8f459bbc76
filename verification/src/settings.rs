//! What the library reads from the settings document of the application.

use crate::api::steam::text_member;
use crate::backup::RestoreSettingsPreview;
use crate::json::{
    clone_object, clone_value, distinct_names, json_content, json_document, json_from_str, member_value,
    members_map, new_object, object_get, object_insert, object_items, object_members,
    object_value, pretty_json, value_get, value_to_pretty_string, values_equal, JsonModel,
};
use crate::text::{opt_str, opt_text, text_equals};
use serde_json::Value;
use vstd::prelude::*;
use vstd::string::*;

verus! {

/// What decides which service describes the achievements of a game.
#[derive(Debug, PartialEq, Eq)]
pub struct ApiSettings {
    pub selected_api: String,
    pub steam_api_key: String,
    pub steam_id: String,
    pub language: Option<String>,
}

/// What an `ApiSettings` holds.
pub struct ApiSettingsModel {
    pub selected_api: Seq<char>,
    pub steam_api_key: Seq<char>,
    pub steam_id: Seq<char>,
    pub language: Option<Seq<char>>,
}

impl View for ApiSettings {
    type V = ApiSettingsModel;

    open spec fn view(&self) -> ApiSettingsModel {
        ApiSettingsModel {
            selected_api: self.selected_api@,
            steam_api_key: self.steam_api_key@,
            steam_id: self.steam_id@,
            language: opt_text(self.language),
        }
    }
}

/// The document that a settings text holds, if there is a text and it is
/// JSON.
pub open spec fn settings_document(settings: Option<Seq<char>>) -> Option<JsonModel> {
    match settings {
        Some(text) => json_document(text),
        None => None,
    }
}

/// The text of the member `key` of the settings, if it is a string.
pub open spec fn setting(settings: Option<Seq<char>>, key: Seq<char>) -> Option<Seq<char>> {
    match settings_document(settings) {
        Some(doc) => text_member(doc, key),
        None => None,
    }
}

/// A text, or a fallback.
pub open spec fn or_text(value: Option<Seq<char>>, fallback: Seq<char>) -> Seq<char> {
    match value {
        Some(v) => v,
        None => fallback,
    }
}

/// The settings that decide the service: the Hydra service, no key and no
/// id where the document says nothing else.
pub open spec fn api_settings_of(settings: Option<Seq<char>>) -> ApiSettingsModel {
    ApiSettingsModel {
        selected_api: or_text(setting(settings, "selectedApi"@), "hydra"@),
        steam_api_key: or_text(setting(settings, "steamApiKey"@), Seq::empty()),
        steam_id: or_text(setting(settings, "steamId"@), Seq::empty()),
        language: setting(settings, "language"@),
    }
}

/// The language to use: the requested one, else that of the settings, else
/// `en-US`.
pub open spec fn chosen_language(requested: Option<Seq<char>>, saved: Option<Seq<char>>) -> Seq<
    char,
> {
    match requested {
        Some(l) => l,
        None => or_text(saved, "en-US"@),
    }
}

fn parsed(settings: Option<&str>) -> (r: Option<Value>)
    ensures
        match r {
            Some(v) => settings_document(opt_str(settings)) == Some(json_content(v)),
            None => settings_document(opt_str(settings)) is None,
        },
{
    match settings {
        Some(text) => match json_from_str(text) {
            Ok(v) => Some(v),
            Err(_) => None,
        },
        None => None,
    }
}

fn text_in(document: &Option<Value>, key: &str) -> (r: Option<String>)
    ensures
        opt_text(r) == match document {
            Some(v) => text_member(json_content(*v), key@),
            None => None,
        },
{
    match document {
        Some(v) => match value_get(v, key) {
            Some(member) => match member.as_str() {
                Some(s) => Some(s.to_owned()),
                None => None,
            },
            None => None,
        },
        None => None,
    }
}

/// Reads the settings that decide the service. `settings` is the text of
/// the settings document, if it exists and could be read.
pub fn read_api_settings(settings: Option<&str>) -> (r: ApiSettings)
    ensures
        r@ == api_settings_of(opt_str(settings)),
{
    let document = parsed(settings);
    ApiSettings {
        selected_api: match text_in(&document, "selectedApi") {
            Some(s) => s,
            None => "hydra".to_owned(),
        },
        steam_api_key: match text_in(&document, "steamApiKey") {
            Some(s) => s,
            None => String::new(),
        },
        steam_id: match text_in(&document, "steamId") {
            Some(s) => s,
            None => String::new(),
        },
        language: text_in(&document, "language"),
    }
}

/// The language of the user interface that the settings name; `en-US`
/// where they name none.
pub fn read_language_from_settings(settings: Option<&str>) -> (r: String)
    ensures
        r@ == or_text(setting(opt_str(settings), "language"@), "en-US"@),
{
    let document = parsed(settings);
    match text_in(&document, "language") {
        Some(s) => s,
        None => "en-US".to_owned(),
    }
}

/// The language to use for a request.
pub fn choose_language(requested: Option<String>, saved: Option<String>) -> (r: String)
    ensures
        r@ == chosen_language(opt_text(requested), opt_text(saved)),
{
    match requested {
        Some(l) => l,
        None => match saved {
            Some(l) => l,
            None => "en-US".to_owned(),
        },
    }
}

/// Whether the Steam service is asked: it is selected, and there is a key.
pub fn uses_steam_api(settings: &ApiSettings) -> (r: bool)
    ensures
        r == (settings.selected_api@ == "steam"@ && settings.steam_api_key@.len() > 0),
{
    text_equals(settings.selected_api.as_str(), "steam")
        && settings.steam_api_key.as_str().unicode_len() > 0
}

/// The paths that the user gave by hand for the list of libraries and for
/// the runtime library of the Steam client.
pub fn get_saved_steam_manual_paths(settings: Option<&str>) -> (r: (Option<String>, Option<String>))
    ensures
        opt_text(r.0) == setting(opt_str(settings), "steamManualVdfPath"@),
        opt_text(r.1) == setting(opt_str(settings), "steamManualDllPath"@),
{
    let document = parsed(settings);
    (text_in(&document, "steamManualVdfPath"), text_in(&document, "steamManualDllPath"))
}

/// How long an export blocks the next one, in milliseconds.
pub const EXPORT_COOLDOWN: u64 = 2000;

/// Whether an export may start at `now`, in milliseconds, after the last
/// one started at `last`. The difference is taken as the clock counts it,
/// round its end.
pub open spec fn may_export(last: Option<u64>, now: u64) -> bool {
    match last {
        Some(t) => {
            let passed = if now >= t {
                now - t
            } else {
                now + (u64::MAX - t) + 1
            };
            passed >= EXPORT_COOLDOWN
        },
        None => true,
    }
}

/// Whether an export may start at `now` after the last one at `last`.
pub fn export_allowed(last: Option<u64>, now: u64) -> (r: bool)
    ensures
        r == may_export(last, now),
{
    match last {
        Some(t) => {
            let passed: u64 = if now >= t {
                now - t
            } else {
                now + (u64::MAX - t) + 1
            };
            passed >= EXPORT_COOLDOWN
        },
        None => true,
    }
}

/// Why settings could not be put together.
#[derive(Debug, Clone, Copy, PartialEq, Eq, Structural)]
pub enum SettingsError {
    /// A settings text is not JSON.
    InvalidJson,
    /// The settings of a backup are not a JSON object.
    NotAnObject,
    /// The current settings are not a JSON object.
    CurrentNotAnObject,
    /// The settings could not be written as JSON.
    Serialize,
}

/// The members of the stored settings as they go into a merge: none when
/// nothing is stored or the stored text is not JSON.
pub open spec fn stored_document(existing: Option<Seq<char>>) -> JsonModel {
    match settings_document(existing) {
        Some(doc) => doc,
        None => JsonModel::Object(Seq::empty()),
    }
}

/// What a map holds under a key, if anything.
pub open spec fn held(map: Map<Seq<char>, JsonModel>, key: Seq<char>) -> Option<JsonModel> {
    if map.contains_key(key) {
        Some(map[key])
    } else {
        None
    }
}

/// That `after` is `before` with every member of `incoming` written over
/// it.
pub open spec fn overwritten(
    before: Map<Seq<char>, JsonModel>,
    incoming: Seq<(Seq<char>, JsonModel)>,
    after: Map<Seq<char>, JsonModel>,
) -> bool {
    forall|key: Seq<char>|
        #[trigger] held(after, key) == match member_value(incoming, key) {
            Some(v) => Some(v),
            None => held(before, key),
        }
}

/// That `after` is `before` with the members of `incoming` that `before`
/// lacks.
pub open spec fn filled_in(
    before: Map<Seq<char>, JsonModel>,
    incoming: Seq<(Seq<char>, JsonModel)>,
    after: Map<Seq<char>, JsonModel>,
) -> bool {
    forall|key: Seq<char>|
        #[trigger] held(after, key) == match held(before, key) {
            Some(v) => Some(v),
            None => member_value(incoming, key),
        }
}

proof fn lemma_member_value_none(members: Seq<(Seq<char>, JsonModel)>, key: Seq<char>)
    requires
        forall|i: int| 0 <= i < members.len() ==> (#[trigger] members[i]).0 != key,
    ensures
        member_value(members, key) is None,
    decreases members.len(),
{
    if members.len() > 0 {
        let rest = members.skip(1);
        assert(members[0].0 != key);
        assert forall|i: int| 0 <= i < rest.len() implies (#[trigger] rest[i]).0 != key by {
            assert(rest[i] == members[i + 1]);
        }
        lemma_member_value_none(rest, key);
    }
}

proof fn lemma_member_value_prefix(members: Seq<(Seq<char>, JsonModel)>, n: int, key: Seq<char>)
    requires
        0 <= n < members.len(),
    ensures
        member_value(members.take(n + 1), key) == match member_value(members.take(n), key) {
            Some(v) => Some(v),
            None => if members[n].0 == key {
                Some(members[n].1)
            } else {
                None
            },
        },
    decreases n,
{
    let longer = members.take(n + 1);
    let shorter = members.take(n);
    assert(longer[0] == members[0]);
    if n == 0 {
        assert(shorter.len() == 0);
        assert(longer.skip(1).len() == 0);
        assert(member_value(longer.skip(1), key) is None);
        assert(member_value(shorter, key) is None);
    } else {
        assert(shorter[0] == members[0]);
        if members[0].0 != key {
            let rest = members.skip(1);
            lemma_member_value_prefix(rest, n - 1, key);
            assert(longer.skip(1) == rest.take(n));
            assert(shorter.skip(1) == rest.take(n - 1));
            assert(rest[n - 1] == members[n]);
        }
    }
}

/// Merges new settings into the stored ones and gives the text to store.
/// Where both are JSON objects, the members of the new settings are written
/// over the stored ones. Otherwise the new settings take the place of the
/// stored ones. Stored settings that are not JSON count as an empty object.
pub fn merge_settings(existing: Option<&str>, incoming: &str) -> (r: Result<String, SettingsError>)
    ensures
        match r {
            Ok(text) => json_document(incoming@) matches Some(new_doc) && match (
                stored_document(opt_str(existing)),
                new_doc,
            ) {
                (JsonModel::Object(old), JsonModel::Object(new)) => exists|
                    members: Seq<(Seq<char>, JsonModel)>,
                |
                    text@ == #[trigger] pretty_json(JsonModel::Object(members)) && overwritten(
                        members_map(old),
                        new,
                        members_map(members),
                    ),
                _ => text@ == pretty_json(new_doc),
            },
            Err(e) => (e == SettingsError::InvalidJson && json_document(incoming@) is None) || (e
                == SettingsError::Serialize && json_document(incoming@) is Some),
        },
{
    let new_value = match json_from_str(incoming) {
        Ok(v) => v,
        Err(_) => {
            return Err(SettingsError::InvalidJson);
        },
    };
    let stored = parsed(existing);
    let base = match &stored {
        Some(v) => match v.as_object() {
            Some(map) => Some(clone_object(map)),
            None => None,
        },
        None => Some(new_object()),
    };
    let incoming_map = new_value.as_object();
    match (base, incoming_map) {
        (Some(mut merged), Some(new_map)) => {
            let ghost old = object_members(merged);
            let ghost new = object_members(*new_map);
            let items = object_items(new_map);
            let mut i: usize = 0;
            proof {
                assert forall|a: int, b: int| 0 <= a < b < new.len() implies (#[trigger] new[a]).0
                    != (#[trigger] new[b]).0 by {
                    assert(items[a].0@ == new[a].0 && items[b].0@ == new[b].0);
                }
                assert forall|key: Seq<char>|
                    #[trigger] held(members_map(object_members(merged)), key) == match member_value(
                        new.take(0),
                        key,
                    ) {
                        Some(v) => Some(v),
                        None => held(members_map(old), key),
                    } by {}
            }
            while i < items.len()
                invariant
                    i <= items.len() == new.len(),
                    distinct_names(new),
                    forall|k: int|
                        0 <= k < items.len() ==> (#[trigger] items[k]).0@ == new[k].0
                            && json_content(*items[k].1) == new[k].1,
                    overwritten(
                        members_map(old),
                        new.take(i as int),
                        members_map(object_members(merged)),
                    ),
                decreases items.len() - i,
            {
                let (key, value) = items[i];
                let ghost prev = members_map(object_members(merged));
                object_insert(&mut merged, key.clone(), clone_value(value));
                proof {
                    let now = members_map(object_members(merged));
                    assert forall|name: Seq<char>|
                        #[trigger] held(now, name) == match member_value(
                            new.take(i + 1),
                            name,
                        ) {
                            Some(v) => Some(v),
                            None => held(members_map(old), name),
                        } by {
                        lemma_member_value_prefix(new, i as int, name);
                        assert(held(prev, name) == match member_value(new.take(i as int), name) {
                            Some(v) => Some(v),
                            None => held(members_map(old), name),
                        });
                        if name == new[i as int].0 {
                            assert forall|k: int| 0 <= k < i implies (#[trigger] new.take(
                                i as int,
                            )[k]).0 != name by {
                                assert(new.take(i as int)[k] == new[k]);
                            }
                            lemma_member_value_none(new.take(i as int), name);
                        }
                    }
                }
                i += 1;
            }
            assert(new.take(i as int) == new);
            let ghost members = object_members(merged);
            let document = object_value(merged);
            match value_to_pretty_string(&document) {
                Ok(text) => {
                    assert(overwritten(members_map(old), new, members_map(members)));
                    Ok(text)
                },
                Err(_) => Err(SettingsError::Serialize),
            }
        },
        _ => match value_to_pretty_string(&new_value) {
            Ok(text) => Ok(text),
            Err(_) => Err(SettingsError::Serialize),
        },
    }
}

/// How one member of the settings of a backup compares with the current
/// settings.
#[derive(Debug, Clone, Copy, PartialEq, Eq, Structural)]
pub enum KeyStatus {
    /// The current settings have no member of that name.
    Missing,
    /// They have one, with an equal value.
    Same,
    /// They have one, with another value.
    Different,
}

/// How many of the statuses are the given one.
pub open spec fn count_status(statuses: Seq<KeyStatus>, wanted: KeyStatus) -> nat
    decreases statuses.len(),
{
    if statuses.len() == 0 {
        0
    } else {
        count_status(statuses.drop_last(), wanted) + if statuses.last() == wanted {
            1nat
        } else {
            0nat
        }
    }
}

/// The preview of a restore of settings from the statuses of their members.
pub fn settings_preview(statuses: &[KeyStatus]) -> (p: RestoreSettingsPreview)
    ensures
        p.included,
        p.total_keys == statuses.len(),
        p.conflicting_keys == count_status(statuses@, KeyStatus::Different),
        p.missing_keys == count_status(statuses@, KeyStatus::Missing),
{
    let mut conflicting: usize = 0;
    let mut missing: usize = 0;
    let mut i: usize = 0;
    while i < statuses.len()
        invariant
            i <= statuses.len(),
            conflicting == count_status(statuses@.take(i as int), KeyStatus::Different),
            missing == count_status(statuses@.take(i as int), KeyStatus::Missing),
            conflicting <= i,
            missing <= i,
        decreases statuses.len() - i,
    {
        proof {
            assert(statuses@.take(i + 1).drop_last() == statuses@.take(i as int));
            assert(statuses@.take(i + 1).last() == statuses[i as int]);
        }
        match statuses[i] {
            KeyStatus::Different => {
                conflicting += 1;
            },
            KeyStatus::Missing => {
                missing += 1;
            },
            KeyStatus::Same => {},
        }
        i += 1;
    }
    assert(statuses@.take(i as int) == statuses@);
    RestoreSettingsPreview {
        included: true,
        total_keys: statuses.len(),
        conflicting_keys: conflicting,
        missing_keys: missing,
    }
}

/// The preview of a restore from a backup that holds no settings.
pub fn no_settings_preview() -> (p: RestoreSettingsPreview)
    ensures
        !p.included,
        p.total_keys == 0,
        p.conflicting_keys == 0,
        p.missing_keys == 0,
{
    RestoreSettingsPreview { included: false, total_keys: 0, conflicting_keys: 0, missing_keys: 0 }
}

/// The members of the current settings as a restore sees them: none when
/// there are no current settings, or when they are not a JSON object.
pub open spec fn current_members(current: Option<Seq<char>>) -> Seq<(Seq<char>, JsonModel)> {
    match settings_document(current) {
        Some(JsonModel::Object(members)) => members,
        _ => Seq::empty(),
    }
}

/// Compares the settings of a backup with the current ones, member by
/// member. Current settings that are missing, or no JSON object, count as
/// empty. Whether two values are equal is for `serde_json` to say: stated
/// is which members are missing, and that a member that counts as
/// different holds something else than the backup does.
pub fn settings_key_statuses(backup: &str, current: Option<&str>) -> (r: Result<
    Vec<KeyStatus>,
    SettingsError,
>)
    ensures
        match r {
            Ok(statuses) => json_document(backup@) matches Some(JsonModel::Object(members))
                && statuses.len() == members.len() && forall|i: int|
                0 <= i < statuses.len() ==> match #[trigger] statuses[i] {
                    KeyStatus::Missing => member_value(
                        current_members(opt_str(current)),
                        members[i].0,
                    ) is None,
                    KeyStatus::Different => member_value(
                        current_members(opt_str(current)),
                        members[i].0,
                    ) matches Some(v) && v != members[i].1,
                    KeyStatus::Same => member_value(
                        current_members(opt_str(current)),
                        members[i].0,
                    ) is Some,
                },
            Err(SettingsError::InvalidJson) => json_document(backup@) is None || (opt_str(current)
                matches Some(c) && json_document(c) is None),
            Err(SettingsError::NotAnObject) => json_document(backup@) matches Some(doc) && !(doc
                is Object),
            Err(_) => false,
        },
{
    let backup_value = match json_from_str(backup) {
        Ok(v) => v,
        Err(_) => {
            return Err(SettingsError::InvalidJson);
        },
    };
    let backup_map = match backup_value.as_object() {
        Some(map) => map,
        None => {
            return Err(SettingsError::NotAnObject);
        },
    };
    let current_value = match current {
        Some(text) => match json_from_str(text) {
            Ok(v) => Some(v),
            Err(_) => {
                return Err(SettingsError::InvalidJson);
            },
        },
        None => None,
    };
    let current_map = match &current_value {
        Some(v) => v.as_object(),
        None => None,
    };
    let ghost members = object_members(*backup_map);
    let ghost mine = current_members(opt_str(current));
    let items = object_items(backup_map);
    let mut statuses: Vec<KeyStatus> = Vec::new();
    let mut i: usize = 0;
    while i < items.len()
        invariant
            i <= items.len() == members.len(),
            statuses.len() == i,
            match current_map {
                Some(map) => mine == object_members(*map),
                None => mine.len() == 0,
            },
            forall|k: int|
                0 <= k < items.len() ==> (#[trigger] items[k]).0@ == members[k].0 && json_content(
                    *items[k].1,
                ) == members[k].1,
            forall|k: int|
                0 <= k < i ==> match #[trigger] statuses[k] {
                    KeyStatus::Missing => member_value(mine, members[k].0) is None,
                    KeyStatus::Different => member_value(mine, members[k].0) matches Some(v) && v
                        != members[k].1,
                    KeyStatus::Same => member_value(mine, members[k].0) is Some,
                },
        decreases items.len() - i,
    {
        let (key, value) = items[i];
        let found = match current_map {
            Some(map) => object_get(map, key.as_str()),
            None => None,
        };
        let status = match found {
            Some(held_now) => if values_equal(held_now, value) {
                KeyStatus::Same
            } else {
                KeyStatus::Different
            },
            None => KeyStatus::Missing,
        };
        statuses.push(status);
        i += 1;
    }
    Ok(statuses)
}

/// The current settings as the members of an object: none for missing
/// settings, and no object at all for settings that are something else.
pub open spec fn current_object(current: Option<Seq<char>>) -> Option<Map<Seq<char>, JsonModel>> {
    match current {
        None => Some(Map::empty()),
        Some(c) => match json_document(c) {
            Some(JsonModel::Object(members)) => Some(members_map(members)),
            _ => None,
        },
    }
}

/// Adds to the current settings the members that only the backup has, and
/// gives the text to store. Current settings that are missing count as
/// empty.
pub fn merge_backup_settings(backup: &str, current: Option<&str>) -> (r: Result<
    String,
    SettingsError,
>)
    ensures
        match r {
            Ok(text) => json_document(backup@) matches Some(JsonModel::Object(new))
                && current_object(opt_str(current)) matches Some(before) && exists|
                members: Seq<(Seq<char>, JsonModel)>,
            |
                text@ == #[trigger] pretty_json(JsonModel::Object(members)) && filled_in(
                    before,
                    new,
                    members_map(members),
                ),
            Err(SettingsError::InvalidJson) => json_document(backup@) is None || (opt_str(current)
                matches Some(c) && json_document(c) is None),
            Err(SettingsError::NotAnObject) => json_document(backup@) matches Some(doc) && !(doc
                is Object),
            Err(SettingsError::CurrentNotAnObject) => opt_str(current) matches Some(c)
                && json_document(c) matches Some(doc) && !(doc is Object),
            Err(SettingsError::Serialize) => true,
        },
{
    let backup_value = match json_from_str(backup) {
        Ok(v) => v,
        Err(_) => {
            return Err(SettingsError::InvalidJson);
        },
    };
    let backup_map = match backup_value.as_object() {
        Some(map) => map,
        None => {
            return Err(SettingsError::NotAnObject);
        },
    };
    let mut merged = match current {
        Some(text) => match json_from_str(text) {
            Ok(v) => match v.as_object() {
                Some(map) => clone_object(map),
                None => {
                    return Err(SettingsError::CurrentNotAnObject);
                },
            },
            Err(_) => {
                return Err(SettingsError::InvalidJson);
            },
        },
        None => new_object(),
    };
    let ghost before = members_map(object_members(merged));
    let ghost new = object_members(*backup_map);
    let items = object_items(backup_map);
    let mut i: usize = 0;
    proof {
        assert forall|key: Seq<char>|
            #[trigger] held(members_map(object_members(merged)), key) == match held(before, key) {
                Some(v) => Some(v),
                None => member_value(new.take(0), key),
            } by {}
    }
    while i < items.len()
        invariant
            i <= items.len() == new.len(),
            forall|k: int|
                0 <= k < items.len() ==> (#[trigger] items[k]).0@ == new[k].0 && json_content(
                    *items[k].1,
                ) == new[k].1,
            filled_in(before, new.take(i as int), members_map(object_members(merged))),
        decreases items.len() - i,
    {
        let (key, value) = items[i];
        let ghost prev = members_map(object_members(merged));
        let present = object_get(&merged, key.as_str()).is_some();
        if !present {
            object_insert(&mut merged, key.clone(), clone_value(value));
        }
        proof {
            let now = members_map(object_members(merged));
            assert forall|name: Seq<char>|
                #[trigger] held(now, name) == match held(before, name) {
                    Some(v) => Some(v),
                    None => member_value(new.take(i + 1), name),
                } by {
                lemma_member_value_prefix(new, i as int, name);
                assert(held(prev, name) == match held(before, name) {
                    Some(v) => Some(v),
                    None => member_value(new.take(i as int), name),
                });
                if present {
                    assert(now == prev);
                }
            }
        }
        i += 1;
    }
    assert(new.take(i as int) == new);
    let ghost members = object_members(merged);
    let document = object_value(merged);
    match value_to_pretty_string(&document) {
        Ok(text) => {
            assert(filled_in(before, new, members_map(members)));
            Ok(text)
        },
        Err(_) => Err(SettingsError::Serialize),
    }
}

} // verus!
