//! Backups of achievement files: their envelope, the preview of a restore
//! against what is on disk, and the plan of a restore.

use crate::json::{members_map, pretty_json, JsonModel};
use crate::models::{
    find_last_named, last_named, AchievementEntry, EntryModel, GameAchievements, GameModel,
};
use crate::parser::{
    file_location, parse_kind, parsed_as, resolved_file, AchievementFileKind, AchievementParser,
    FileProbe, ParseError,
};
use crate::paths::{extension_of, path_extension, path_with_extension, with_extension};
use crate::text::{
    chars_of, eq_ignore_ascii_case, equals_ignoring_ascii_case, has_prefix, lowercase, opt_str,
    opt_text, starts_with, string_of, text_equals, to_lowercase, trim, trim_range,
};
use crate::unlocker::{
    existing_root, gse_merged, is_gse_path, rendered_ini, AchievementUnlocker, AchievementWriter,
    UnlockError, UnlockPlan,
};
use base64::Engine;
use vstd::prelude::*;
use vstd::string::*;
use vstd::utf8::{decode_utf8, encode_utf8, valid_utf8};

verus! {

/// The text of `bytes` in base64, standard alphabet, padded. Stands for the
/// result of `Engine::encode` on `base64::engine::general_purpose::STANDARD`.
pub uninterp spec fn base64_text(bytes: Seq<u8>) -> Seq<char>;

/// The bytes that `text` stands for in base64, if it is valid. Stands for
/// the result of `Engine::decode` on the same engine.
pub uninterp spec fn base64_bytes(text: Seq<char>) -> Option<Seq<u8>>;

/// Not verified: `STANDARD.encode`. Claims only that the text is a function
/// of the bytes. Left out are inputs so long that the length of the text
/// would not fit the machine.
#[verifier::external_body]
fn base64_encode(bytes: &[u8]) -> (r: String)
    requires
        bytes.len() <= usize::MAX / 2,
    ensures
        r@ == base64_text(bytes@),
{
    base64::engine::general_purpose::STANDARD.encode(bytes)
}

/// Not verified: `STANDARD.decode`. Claims only that the outcome is a
/// function of the text.
#[verifier::external_body]
fn base64_decode(text: &str) -> (r: Option<Vec<u8>>)
    ensures
        match r {
            Some(bytes) => base64_bytes(text@) == Some(bytes@),
            None => base64_bytes(text@) is None,
        },
{
    base64::engine::general_purpose::STANDARD.decode(text).ok()
}

/// Not verified: `String::from_utf8`. Claims that it yields the text that
/// the bytes encode exactly when they are valid UTF-8.
#[verifier::external_body]
fn string_from_utf8(bytes: Vec<u8>) -> (r: Option<String>)
    ensures
        match r {
            Some(text) => valid_utf8(bytes@) && text@ == decode_utf8(bytes@),
            None => !valid_utf8(bytes@),
        },
{
    String::from_utf8(bytes).ok()
}

/// The version that a backup without a version number has.
pub fn default_backup_version() -> (v: u32)
    ensures
        v == 1,
{
    1
}

/// What goes wrong with backups.
#[derive(Debug, Clone, Copy, PartialEq, Eq, Structural)]
pub enum BackupError {
    /// The payload after the prefix is not valid base64.
    InvalidBase64,
    /// The decoded payload is not valid UTF-8.
    InvalidUtf8,
    /// The backup has a version that is neither 1 nor 2.
    UnsupportedVersion,
    /// A conflict strategy other than `backup`, `current` or `cancel`.
    InvalidConflictStrategy,
    /// A settings strategy other than `backup`, `current` or `merge`.
    InvalidSettingsStrategy,
    /// Neither a game nor the settings would go into the backup.
    NothingToBackUp,
}

/// The envelope of a backup: the prefix, then the document in base64.
pub open spec fn encoded_backup(json: Seq<char>) -> Seq<char> {
    "HAMB64:"@ + base64_text(encode_utf8(json))
}

/// The document inside a backup. A text that, once trimmed, begins with the
/// prefix holds the document in base64; any other text is the document
/// itself, as older backups were.
pub open spec fn decoded_backup(raw: Seq<char>) -> Result<Seq<char>, BackupError> {
    let t = trim(raw);
    if starts_with(t, "HAMB64:"@) {
        match base64_bytes(t.skip(7)) {
            Some(bytes) => if valid_utf8(bytes) {
                Ok(decode_utf8(bytes))
            } else {
                Err(BackupError::InvalidUtf8)
            },
            None => Err(BackupError::InvalidBase64),
        }
    } else {
        Ok(raw)
    }
}

/// Wraps the document of a backup into its envelope.
pub fn encode_backup_content(json: &str) -> (r: String)
    requires
        json.spec_bytes().len() <= usize::MAX / 2,
    ensures
        r@ == encoded_backup(json@),
{
    let mut out = "HAMB64:".to_owned();
    let payload = base64_encode(json.as_bytes());
    out.append(payload.as_str());
    out
}

/// Wraps the document of a backup into its envelope, unless the document is
/// too long for the machine.
pub fn try_encode_backup_content(json: &str) -> (r: Option<String>)
    ensures
        match r {
            Some(text) => text@ == encoded_backup(json@),
            None => json.spec_bytes().len() > usize::MAX / 2,
        },
{
    if json.as_bytes().len() <= usize::MAX / 2 {
        Some(encode_backup_content(json))
    } else {
        None
    }
}

/// Takes the document of a backup out of its envelope.
pub fn decode_backup_content(raw: &str) -> (r: Result<String, BackupError>)
    ensures
        match r {
            Ok(text) => decoded_backup(raw@) == Ok::<Seq<char>, BackupError>(text@),
            Err(e) => decoded_backup(raw@) == Err::<Seq<char>, BackupError>(e),
        },
{
    let chars = chars_of(raw);
    let (a, b) = trim_range(&chars, 0, chars.len());
    let trimmed = string_of(&chars, a, b);
    let t = chars_of(trimmed.as_str());
    proof {
        reveal_strlit("HAMB64:");
        assert(chars@.subrange(0, chars.len() as int) == raw@);
    }
    if has_prefix(&t, "HAMB64:") {
        let payload = string_of(&t, 7, t.len());
        assert(t@.subrange(7, t.len() as int) == trim(raw@).skip(7));
        match base64_decode(payload.as_str()) {
            Some(bytes) => match string_from_utf8(bytes) {
                Some(text) => Ok(text),
                None => Err(BackupError::InvalidUtf8),
            },
            None => Err(BackupError::InvalidBase64),
        }
    } else {
        Ok(raw.to_owned())
    }
}

/// Accepts the versions of backups that can be restored: 1 and 2.
pub fn check_backup_version(format_version: u32) -> (r: Result<(), BackupError>)
    ensures
        r is Ok <==> (format_version == 1 || format_version == 2),
        r is Err ==> r == Err::<(), BackupError>(BackupError::UnsupportedVersion),
{
    if format_version != 1 && format_version != 2 {
        Err(BackupError::UnsupportedVersion)
    } else {
        Ok(())
    }
}

/// One game of a backup.
#[derive(Debug, PartialEq, Eq)]
pub struct BackupGameEntry {
    pub game_id: String,
    pub directory: String,
    pub file_format: String,
    pub last_modified: i64,
    pub achievements: Vec<AchievementEntry>,
}

/// What a `BackupGameEntry` holds.
pub struct BackupGameModel {
    pub game_id: Seq<char>,
    pub directory: Seq<char>,
    pub file_format: Seq<char>,
    pub last_modified: i64,
    pub achievements: Seq<EntryModel>,
}

impl View for BackupGameEntry {
    type V = BackupGameModel;

    open spec fn view(&self) -> BackupGameModel {
        BackupGameModel {
            game_id: self.game_id@,
            directory: self.directory@,
            file_format: self.file_format@,
            last_modified: self.last_modified,
            achievements: self.achievements.deep_view(),
        }
    }
}

impl DeepView for BackupGameEntry {
    type V = BackupGameModel;

    open spec fn deep_view(&self) -> BackupGameModel {
        self@
    }
}

/// What a backup run produced.
#[derive(Debug, PartialEq, Eq)]
pub struct BackupResult {
    pub output_path: String,
    pub games_count: usize,
    pub has_settings: bool,
}

/// What a restore would do, game by game.
#[derive(Debug, PartialEq, Eq)]
pub struct RestorePreviewResult {
    pub backup_path: String,
    pub total_entries: usize,
    pub items: Vec<RestorePreviewItem>,
    pub settings: RestoreSettingsPreview,
}

/// What a restore would do to one game.
#[derive(Debug, PartialEq, Eq)]
pub struct RestorePreviewItem {
    pub index: usize,
    pub game_id: String,
    pub directory: String,
    pub file_format: String,
    pub backup_achievements: usize,
    pub existing_achievements: usize,
    pub overlapping_achievements: usize,
    pub changed_achievements: usize,
    pub unchanged_achievements: usize,
    pub new_achievements: usize,
    pub will_replace: bool,
}

/// What a restore would do to the settings.
#[derive(Debug, Clone, Copy, PartialEq, Eq, Structural)]
pub struct RestoreSettingsPreview {
    pub included: bool,
    pub total_keys: usize,
    pub conflicting_keys: usize,
    pub missing_keys: usize,
}

/// What a restore did.
#[derive(Debug, PartialEq, Eq)]
pub struct RestoreApplyResult {
    pub backup_path: String,
    pub restored_entries: usize,
    pub skipped_entries: usize,
    pub restored_settings: bool,
}

/// How the user wants a conflict on one game of the backup resolved.
#[derive(Debug, PartialEq, Eq)]
pub struct GameConflictResolution {
    pub index: usize,
    pub strategy: String,
}

/// What to do with a game whose file on disk differs from the backup.
#[derive(Debug, Clone, Copy, PartialEq, Eq, Structural)]
pub enum ConflictStrategy {
    /// Write what the backup holds.
    Backup,
    /// Keep what is on disk.
    Current,
    /// Give the whole restore up.
    Cancel,
}

/// What to do with the settings of a backup.
#[derive(Debug, Clone, Copy, PartialEq, Eq, Structural)]
pub enum SettingsStrategy {
    /// Write the settings of the backup.
    Backup,
    /// Keep the current settings.
    Current,
    /// Add to the current settings what only the backup has.
    Merge,
}

/// The conflict strategy that a word names, in any case of letters.
pub open spec fn conflict_strategy_of(value: Seq<char>) -> Option<ConflictStrategy> {
    let word = lowercase(value);
    if word == "backup"@ {
        Some(ConflictStrategy::Backup)
    } else if word == "current"@ {
        Some(ConflictStrategy::Current)
    } else if word == "cancel"@ {
        Some(ConflictStrategy::Cancel)
    } else {
        None
    }
}

/// The settings strategy that a word names, in any case of letters.
pub open spec fn settings_strategy_of(value: Seq<char>) -> Option<SettingsStrategy> {
    let word = lowercase(value);
    if word == "backup"@ {
        Some(SettingsStrategy::Backup)
    } else if word == "current"@ {
        Some(SettingsStrategy::Current)
    } else if word == "merge"@ {
        Some(SettingsStrategy::Merge)
    } else {
        None
    }
}

/// Reads a conflict strategy from the word that names it.
pub fn parse_conflict_strategy(value: &str) -> (r: Result<ConflictStrategy, BackupError>)
    ensures
        match r {
            Ok(s) => conflict_strategy_of(value@) == Some(s),
            Err(e) => conflict_strategy_of(value@) is None && e
                == BackupError::InvalidConflictStrategy,
        },
{
    let word = to_lowercase(value);
    if text_equals(word.as_str(), "backup") {
        Ok(ConflictStrategy::Backup)
    } else if text_equals(word.as_str(), "current") {
        Ok(ConflictStrategy::Current)
    } else if text_equals(word.as_str(), "cancel") {
        Ok(ConflictStrategy::Cancel)
    } else {
        Err(BackupError::InvalidConflictStrategy)
    }
}

/// Reads a settings strategy from the word that names it.
pub fn parse_settings_strategy(value: &str) -> (r: Result<SettingsStrategy, BackupError>)
    ensures
        match r {
            Ok(s) => settings_strategy_of(value@) == Some(s),
            Err(e) => settings_strategy_of(value@) is None && e
                == BackupError::InvalidSettingsStrategy,
        },
{
    let word = to_lowercase(value);
    if text_equals(word.as_str(), "backup") {
        Ok(SettingsStrategy::Backup)
    } else if text_equals(word.as_str(), "current") {
        Ok(SettingsStrategy::Current)
    } else if text_equals(word.as_str(), "merge") {
        Ok(SettingsStrategy::Merge)
    } else {
        Err(BackupError::InvalidSettingsStrategy)
    }
}

/// The resolution of one game, with its strategy read.
#[derive(Debug, Clone, Copy, PartialEq, Eq, Structural)]
pub struct Resolution {
    pub index: usize,
    pub strategy: ConflictStrategy,
}

/// The view of a list of resolutions as the user gave them.
pub open spec fn resolution_words(items: Seq<GameConflictResolution>) -> Seq<(usize, Seq<char>)> {
    Seq::new(items.len(), |i: int| (items[i].index, items[i].strategy@))
}

/// That every word of the list names a conflict strategy, and `map` holds
/// them in order.
pub open spec fn resolutions_read(words: Seq<(usize, Seq<char>)>, map: Seq<Resolution>) -> bool {
    map.len() == words.len() && forall|i: int|
        0 <= i < words.len() ==> (#[trigger] map[i]).index == words[i].0 && Some(map[i].strategy)
            == conflict_strategy_of(words[i].1)
}

/// Reads the resolutions that the user gave. The first word that names no
/// strategy fails the whole list.
pub fn build_resolution_map(items: &[GameConflictResolution]) -> (r: Result<
    Vec<Resolution>,
    BackupError,
>)
    ensures
        match r {
            Ok(map) => resolutions_read(resolution_words(items@), map@),
            Err(e) => e == BackupError::InvalidConflictStrategy && exists|i: int|
                0 <= i < items.len() && conflict_strategy_of(#[trigger] items[i].strategy@)
                    is None,
        },
{
    let mut map: Vec<Resolution> = Vec::new();
    let mut i: usize = 0;
    while i < items.len()
        invariant
            i <= items.len(),
            map.len() == i,
            forall|k: int|
                0 <= k < i ==> (#[trigger] map[k]).index == items[k].index && Some(
                    map[k].strategy,
                ) == conflict_strategy_of(items[k].strategy@),
        decreases items.len() - i,
    {
        match parse_conflict_strategy(items[i].strategy.as_str()) {
            Ok(strategy) => {
                map.push(Resolution { index: items[i].index, strategy });
            },
            Err(e) => {
                return Err(e);
            },
        }
        i += 1;
    }
    Ok(map)
}

/// The strategy for the game at `index`: that of the last resolution for
/// it, and `Backup` when there is none.
pub open spec fn strategy_of(map: Seq<Resolution>, index: usize) -> ConflictStrategy
    decreases map.len(),
{
    if map.len() == 0 {
        ConflictStrategy::Backup
    } else if map.last().index == index {
        map.last().strategy
    } else {
        strategy_of(map.drop_last(), index)
    }
}

/// The strategy for the game at `index`.
pub fn strategy_for(map: &[Resolution], index: usize) -> (s: ConflictStrategy)
    ensures
        s == strategy_of(map@, index),
{
    let mut i: usize = map.len();
    proof {
        assert(map@.take(i as int) == map@);
    }
    while i > 0
        invariant
            i <= map.len(),
            strategy_of(map@, index) == strategy_of(map@.take(i as int), index),
        decreases i,
    {
        proof {
            assert(map@.take(i as int).last() == map[i - 1]);
            assert(map@.take(i as int).drop_last() == map@.take(i - 1));
        }
        if map[i - 1].index == index {
            return map[i - 1].strategy;
        }
        i -= 1;
    }
    ConflictStrategy::Backup
}

/// Whether the game at `index` takes part in a restore: all games do when
/// nothing was selected.
pub open spec fn selected(selection: Seq<usize>, index: usize) -> bool {
    selection.len() == 0 || selection.contains(index)
}

/// Whether the game at `index` takes part in a restore.
pub fn is_selected(selection: &[usize], index: usize) -> (r: bool)
    ensures
        r == selected(selection@, index),
{
    if selection.len() == 0 {
        return true;
    }
    let mut i: usize = 0;
    while i < selection.len()
        invariant
            i <= selection.len(),
            forall|k: int| 0 <= k < i ==> selection[k] != index,
        decreases selection.len() - i,
    {
        if selection[i] == index {
            return true;
        }
        i += 1;
    }
    false
}

/// What a restore does with one selected game.
#[derive(Debug, Clone, Copy, PartialEq, Eq, Structural)]
pub enum RestoreStep {
    /// Write the game as the backup holds it.
    Restore,
    /// Leave the game as it is on disk.
    Skip,
    /// Give the whole restore up.
    Cancel,
}

/// A game without a conflict is restored. With a conflict the strategy
/// decides.
pub open spec fn restore_step_of(strategy: ConflictStrategy, has_conflict: bool) -> RestoreStep {
    if has_conflict && strategy == ConflictStrategy::Cancel {
        RestoreStep::Cancel
    } else if has_conflict && strategy == ConflictStrategy::Current {
        RestoreStep::Skip
    } else {
        RestoreStep::Restore
    }
}

/// What a restore does with one selected game.
pub fn restore_step(strategy: ConflictStrategy, has_conflict: bool) -> (step: RestoreStep)
    ensures
        step == restore_step_of(strategy, has_conflict),
{
    if has_conflict {
        match strategy {
            ConflictStrategy::Cancel => RestoreStep::Cancel,
            ConflictStrategy::Current => RestoreStep::Skip,
            ConflictStrategy::Backup => RestoreStep::Restore,
        }
    } else {
        RestoreStep::Restore
    }
}

/// Whether two entries of one name differ in what they record.
pub open spec fn differs(current: EntryModel, backup: EntryModel) -> bool {
    current.achieved != backup.achieved || current.unlock_time != backup.unlock_time
}

/// How many entries of the backup have an entry of their name on disk.
pub open spec fn count_overlapping(backup: Seq<EntryModel>, existing: Seq<EntryModel>) -> nat
    decreases backup.len(),
{
    if backup.len() == 0 {
        0
    } else {
        count_overlapping(backup.drop_last(), existing) + if last_named(
            existing,
            backup.last().name,
        ) is Some {
            1nat
        } else {
            0nat
        }
    }
}

/// How many entries of the backup differ from the entry of their name on
/// disk. Where the file on disk holds a name twice, its last entry counts.
pub open spec fn count_changed(backup: Seq<EntryModel>, existing: Seq<EntryModel>) -> nat
    decreases backup.len(),
{
    if backup.len() == 0 {
        0
    } else {
        count_changed(backup.drop_last(), existing) + match last_named(
            existing,
            backup.last().name,
        ) {
            Some(current) => if differs(current, backup.last()) {
                1nat
            } else {
                0nat
            },
            None => 0nat,
        }
    }
}

proof fn lemma_counts_bounded(backup: Seq<EntryModel>, existing: Seq<EntryModel>)
    ensures
        count_changed(backup, existing) <= count_overlapping(backup, existing) <= backup.len(),
    decreases backup.len(),
{
    if backup.len() > 0 {
        lemma_counts_bounded(backup.drop_last(), existing);
    }
}

/// The format name of a game file: `json` where a file in the JSON form
/// exists, else `ini`.
pub fn detect_game_file_format(json_exists: bool) -> (r: &'static str)
    ensures
        r@ == if json_exists {
            "json"@
        } else {
            "ini"@
        },
{
    if json_exists {
        "json"
    } else {
        "ini"
    }
}

/// The entries on disk for a game of a backup: those of `achievements.ini`
/// when it exists, else those of `achievements.json`, else none. `content` is
/// the text of that file.
pub fn read_existing_achievements(probe: FileProbe, content: &str) -> (r: Result<
    Vec<AchievementEntry>,
    ParseError,
>)
    ensures
        match resolved_file(false, probe) {
            Some(kind) => parsed_as(r, parse_kind(kind, content@)),
            None => r matches Ok(entries) && entries.len() == 0,
        },
{
    match AchievementParser::resolve_achievement_file(false, probe) {
        Some(AchievementFileKind::Json) => AchievementParser::parse_gse_achievement_json(content),
        Some(_) => Ok(AchievementParser::parse_ini_achievements(content)),
        None => Ok(Vec::new()),
    }
}

/// Compares one game of a backup with the entries on disk.
pub fn build_preview_item(index: usize, item: &BackupGameEntry, existing: &[AchievementEntry]) -> (r:
    RestorePreviewItem)
    ensures
        r.index == index,
        r.game_id@ == item.game_id@,
        r.directory@ == item.directory@,
        r.file_format@ == item.file_format@,
        r.backup_achievements == item.achievements.len(),
        r.existing_achievements == existing.len(),
        r.overlapping_achievements == count_overlapping(
            item.achievements.deep_view(),
            existing.deep_view(),
        ),
        r.changed_achievements == count_changed(item.achievements.deep_view(), existing.deep_view()),
        r.unchanged_achievements == r.overlapping_achievements - r.changed_achievements,
        r.new_achievements == r.backup_achievements - r.overlapping_achievements,
        r.will_replace == (r.overlapping_achievements > 0),
{
    let ghost backup = item.achievements.deep_view();
    let ghost disk = existing.deep_view();
    let mut overlapping: usize = 0;
    let mut changed: usize = 0;
    let mut i: usize = 0;
    while i < item.achievements.len()
        invariant
            i <= item.achievements.len(),
            backup == item.achievements.deep_view(),
            disk == existing.deep_view(),
            overlapping == count_overlapping(backup.take(i as int), disk),
            changed == count_changed(backup.take(i as int), disk),
            changed <= overlapping <= i,
        decreases item.achievements.len() - i,
    {
        let ach = &item.achievements[i];
        proof {
            assert(backup.take(i + 1).drop_last() == backup.take(i as int));
            assert(backup.take(i + 1).last() == ach@);
        }
        match find_last_named(existing, &ach.name) {
            Some(at) => {
                let current = &existing[at];
                overlapping += 1;
                if current.achieved != ach.achieved || current.unlock_time != ach.unlock_time {
                    changed += 1;
                }
            },
            None => {},
        }
        i += 1;
    }
    assert(backup.take(i as int) == backup);
    RestorePreviewItem {
        index,
        game_id: item.game_id.clone(),
        directory: item.directory.clone(),
        file_format: item.file_format.clone(),
        backup_achievements: item.achievements.len(),
        existing_achievements: existing.len(),
        overlapping_achievements: overlapping,
        changed_achievements: changed,
        unchanged_achievements: overlapping - changed,
        new_achievements: item.achievements.len() - overlapping,
        will_replace: overlapping > 0,
    }
}

/// Whether a restore of the game would change an entry on disk.
pub fn entry_has_conflict(item: &BackupGameEntry, existing: &[AchievementEntry]) -> (r: bool)
    ensures
        r == (count_changed(item.achievements.deep_view(), existing.deep_view()) > 0),
{
    let ghost backup = item.achievements.deep_view();
    let ghost disk = existing.deep_view();
    if existing.len() == 0 {
        proof {
            lemma_counts_bounded(backup, disk);
            lemma_nothing_overlaps(backup, disk);
        }
        return false;
    }
    let mut i: usize = 0;
    while i < item.achievements.len()
        invariant
            i <= item.achievements.len(),
            backup == item.achievements.deep_view(),
            disk == existing.deep_view(),
            count_changed(backup.take(i as int), disk) == 0,
        decreases item.achievements.len() - i,
    {
        let ach = &item.achievements[i];
        proof {
            assert(backup.take(i + 1).drop_last() == backup.take(i as int));
            assert(backup.take(i + 1).last() == ach@);
        }
        match find_last_named(existing, &ach.name) {
            Some(at) => {
                let current = &existing[at];
                if current.achieved != ach.achieved || current.unlock_time != ach.unlock_time {
                    proof {
                        lemma_changed_grows(backup, disk, i + 1);
                    }
                    return true;
                }
            },
            None => {},
        }
        i += 1;
    }
    assert(backup.take(i as int) == backup);
    false
}

proof fn lemma_nothing_overlaps(backup: Seq<EntryModel>, existing: Seq<EntryModel>)
    requires
        existing.len() == 0,
    ensures
        count_overlapping(backup, existing) == 0,
    decreases backup.len(),
{
    if backup.len() > 0 {
        lemma_nothing_overlaps(backup.drop_last(), existing);
    }
}

proof fn lemma_changed_grows(backup: Seq<EntryModel>, existing: Seq<EntryModel>, n: int)
    requires
        0 <= n <= backup.len(),
    ensures
        count_changed(backup.take(n), existing) <= count_changed(backup, existing),
    decreases backup.len() - n,
{
    if n < backup.len() {
        lemma_changed_grows(backup, existing, n + 1);
        assert(backup.take(n + 1).drop_last() == backup.take(n));
    } else {
        assert(backup.take(n) == backup);
    }
}

/// Whether a restore writes the JSON form. It does where a file in that
/// form exists. It does not where only a file in the INI form exists. Where
/// neither exists, the root of a loader that keeps the JSON form decides,
/// and after it the format that the backup names.
pub open spec fn restores_json(
    expanded_base: Seq<char>,
    ini_exists: bool,
    json_exists: bool,
    backup_format: Seq<char>,
) -> bool {
    if json_exists {
        true
    } else if ini_exists {
        false
    } else if is_gse_path(expanded_base) {
        true
    } else {
        eq_ignore_ascii_case(backup_format, "json"@)
    }
}

/// Whether a restore writes the JSON form.
pub fn should_write_json(
    expanded_base: &str,
    ini_exists: bool,
    json_exists: bool,
    backup_format: &str,
) -> (r: bool)
    ensures
        r == restores_json(expanded_base@, ini_exists, json_exists, backup_format@),
{
    if json_exists {
        return true;
    }
    if ini_exists {
        return false;
    }
    if AchievementUnlocker::path_is_gse(expanded_base) {
        return true;
    }
    equals_ignoring_ascii_case(backup_format, "json")
}

/// Plans the restore of one game under the root `expanded_base`. In the
/// JSON form the entries of the backup are stored into the file that
/// exists, and a file in the INI form is deleted. In the INI form the file
/// is written from the entries of the backup alone.
pub fn restore_entry(
    item: &BackupGameEntry,
    expanded_base: &str,
    ini_exists: bool,
    json_exists: bool,
    existing_json: Option<&str>,
) -> (r: Result<UnlockPlan, UnlockError>)
    ensures
        match r {
            Ok(plan) => if restores_json(
                expanded_base@,
                ini_exists,
                json_exists,
                item.file_format@,
            ) {
                &&& plan.path@ == file_location(
                    expanded_base@,
                    item.game_id@,
                    AchievementFileKind::Json,
                )
                &&& opt_text(plan.delete) == if ini_exists {
                    Some(file_location(expanded_base@, item.game_id@, AchievementFileKind::Ini))
                } else {
                    None
                }
                &&& exists|members: Seq<(Seq<char>, JsonModel)>|
                    plan.content@ == #[trigger] pretty_json(JsonModel::Object(members)) && gse_merged(
                        existing_root(opt_str(existing_json)),
                        item.achievements.deep_view(),
                        members_map(members),
                    )
            } else {
                &&& plan.path@ == file_location(
                    expanded_base@,
                    item.game_id@,
                    AchievementFileKind::Ini,
                )
                &&& plan.delete is None
                &&& plan.content@ == rendered_ini(item.achievements.deep_view())
            },
            Err(e) => e == UnlockError::Serialize && restores_json(
                expanded_base@,
                ini_exists,
                json_exists,
                item.file_format@,
            ),
        },
{
    let ini_path = AchievementParser::achievement_file_path(
        expanded_base,
        item.game_id.as_str(),
        AchievementFileKind::Ini,
    );
    let json_path = AchievementParser::achievement_file_path(
        expanded_base,
        item.game_id.as_str(),
        AchievementFileKind::Json,
    );
    if should_write_json(expanded_base, ini_exists, json_exists, item.file_format.as_str()) {
        let content = match AchievementWriter::render_gse_achievement_file(
            existing_json,
            item.achievements.as_slice(),
        ) {
            Ok(content) => content,
            Err(e) => {
                return Err(e);
            },
        };
        let delete = if ini_exists {
            Some(ini_path)
        } else {
            None
        };
        Ok(UnlockPlan { delete, path: json_path, content })
    } else {
        let content = AchievementWriter::render_achievement_file(item.achievements.as_slice());
        let delete = if json_exists {
            Some(json_path)
        } else {
            None
        };
        Ok(UnlockPlan { delete, path: ini_path, content })
    }
}

/// The games that go into a backup: all of them when no id was selected,
/// else those whose id was.
pub open spec fn backup_selection(games: Seq<GameModel>, ids: Seq<Seq<char>>) -> Seq<GameModel>
    decreases games.len(),
{
    if games.len() == 0 {
        Seq::empty()
    } else {
        let before = backup_selection(games.drop_last(), ids);
        if ids.len() == 0 || ids.contains(games.last().game_id) {
            before.push(games.last())
        } else {
            before
        }
    }
}

fn id_is_listed(ids: &[String], id: &String) -> (r: bool)
    ensures
        r == ids.deep_view().contains(id@),
{
    let mut i: usize = 0;
    while i < ids.len()
        invariant
            i <= ids.len(),
            forall|k: int| 0 <= k < i ==> ids.deep_view()[k] != id@,
        decreases ids.len() - i,
    {
        assert(ids.deep_view()[i as int] == ids[i as int]@);
        if ids[i] == *id {
            return true;
        }
        i += 1;
    }
    false
}

/// Picks the games that go into a backup.
pub fn select_backup_games(games: Vec<GameAchievements>, selected_ids: &[String]) -> (chosen: Vec<
    GameAchievements,
>)
    ensures
        chosen.deep_view() == backup_selection(games.deep_view(), selected_ids.deep_view()),
{
    let mut games = games;
    let ghost all = games.deep_view();
    let ghost ids = selected_ids.deep_view();
    let mut chosen: Vec<GameAchievements> = Vec::new();
    let n = games.len();
    let mut taken: usize = 0;
    // The games are taken from the back, so the chosen ones come out
    // reversed and are turned round at the end.
    while games.len() > 0
        invariant
            games.len() + taken == n == all.len(),
            games.deep_view() == all.take(games.len() as int),
            backup_selection(all, ids) == backup_selection(games.deep_view(), ids)
                + chosen.deep_view().reverse(),
            ids == selected_ids.deep_view(),
        decreases games.len(),
    {
        let ghost before = games.deep_view();
        let ghost picked = chosen.deep_view();
        let game = games.pop().unwrap();
        proof {
            assert(games.deep_view() =~= before.drop_last());
            assert(before.last() == game@);
            assert(games.deep_view() =~= all.take(games.len() as int));
        }
        if selected_ids.len() == 0 || id_is_listed(selected_ids, &game.game_id) {
            chosen.push(game);
            proof {
                assert(chosen.deep_view() =~= picked.push(game@));
                assert(picked.push(game@).reverse() =~= seq![game@] + picked.reverse());
                assert(backup_selection(before, ids) + picked.reverse() =~= backup_selection(
                    before.drop_last(),
                    ids,
                ) + (seq![game@] + picked.reverse()));
            }
        }
        taken += 1;
    }
    proof {
        assert(backup_selection(games.deep_view(), ids) =~= Seq::<GameModel>::empty());
        assert(backup_selection(all, ids) =~= chosen.deep_view().reverse());
    }
    let mut out: Vec<GameAchievements> = Vec::new();
    let ghost reversed = chosen.deep_view();
    while chosen.len() > 0
        invariant
            out.deep_view() + chosen.deep_view().reverse() == reversed.reverse(),
        decreases chosen.len(),
    {
        let ghost rest = chosen.deep_view();
        let ghost sofar = out.deep_view();
        let game = chosen.pop().unwrap();
        out.push(game);
        proof {
            assert(chosen.deep_view() =~= rest.drop_last());
            assert(out.deep_view() =~= sofar.push(game@));
            assert(rest.reverse() =~= seq![game@] + rest.drop_last().reverse());
            assert(sofar.push(game@) + rest.drop_last().reverse() =~= sofar + rest.reverse());
        }
    }
    proof {
        assert(chosen.deep_view().reverse() =~= Seq::<GameModel>::empty());
        assert(out.deep_view() + Seq::<GameModel>::empty() =~= out.deep_view());
    }
    out
}

/// Whether there is anything to back up.
pub fn check_backup_content(games_count: usize, has_settings: bool) -> (r: Result<
    (),
    BackupError,
>)
    ensures
        r is Ok <==> (games_count > 0 || has_settings),
        r is Err ==> r == Err::<(), BackupError>(BackupError::NothingToBackUp),
{
    if games_count == 0 && !has_settings {
        Err(BackupError::NothingToBackUp)
    } else {
        Ok(())
    }
}

/// One game as it goes into a backup.
pub fn backup_game_entry(game: GameAchievements, json_exists: bool) -> (entry: BackupGameEntry)
    ensures
        entry.game_id@ == game.game_id@,
        entry.directory@ == game.directory@,
        entry.last_modified == game.last_modified,
        entry.achievements.deep_view() == game.achievements.deep_view(),
        entry.file_format@ == if json_exists {
            "json"@
        } else {
            "ini"@
        },
{
    BackupGameEntry {
        file_format: detect_game_file_format(json_exists).to_owned(),
        game_id: game.game_id,
        directory: game.directory,
        last_modified: game.last_modified,
        achievements: game.achievements,
    }
}

/// The path of a backup file: the given path, with the extension `ham`
/// unless it has it already.
pub open spec fn backup_path(output_path: Seq<char>) -> Seq<char> {
    if path_extension(output_path) == Some("ham"@) {
        output_path
    } else {
        path_with_extension(output_path, "ham"@)
    }
}

/// The path under which a backup is written.
pub fn backup_output_path(output_path: &str) -> (r: String)
    ensures
        r@ == backup_path(output_path@),
{
    let has = match extension_of(output_path) {
        Some(ext) => text_equals(ext.as_str(), "ham"),
        None => false,
    };
    if has {
        output_path.to_owned()
    } else {
        proof {
            reveal_strlit("ham");
            let ext = "ham"@;
            assert(ext[0] == 'h' && ext[1] == 'a' && ext[2] == 'm');
            assert(!ext.contains('/')) by {
                if ext.contains('/') {
                    let i = choose|i: int| 0 <= i < ext.len() && ext[i] == '/';
                }
            }
            assert(!ext.contains('\\')) by {
                if ext.contains('\\') {
                    let i = choose|i: int| 0 <= i < ext.len() && ext[i] == '\\';
                }
            }
        }
        with_extension(output_path, "ham")
    }
}

} // verus!
