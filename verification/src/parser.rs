//! Readers for the two achievement file formats, and the scan of a monitored
//! root directory.

use crate::json::{
    json_document, json_from_str, member_value, model_bool, model_i64, object_get, object_items,
    JsonModel,
};
use crate::models::{AchievementEntry, EntryModel, GameAchievements, GameModel};
use crate::paths::{
    extension_of, file_name_of, join_path, path_extension, path_file_name, path_join,
};
use crate::text::{
    chars_of, eq_ignore_ascii_case, equals_ignoring_ascii_case, find_char, find_char_in, lines,
    opt_text, parse_i64, parse_i64_range, range_equals, string_of, text_equals, trim, trim_range,
};
use vstd::prelude::*;

verus! {

/// A trimmed line of the form `[...]` opens a section.
pub open spec fn is_section_header(line: Seq<char>) -> bool {
    line.len() > 0 && line.first() == '[' && line.last() == ']'
}

/// The text between the brackets of a section header.
pub open spec fn section_name(line: Seq<char>) -> Seq<char> {
    line.subrange(1, line.len() - 1)
}

/// The entry that a section header opens: locked, with no unlock time.
pub open spec fn fresh_entry(name: Seq<char>) -> EntryModel {
    EntryModel { name, achieved: false, unlock_time: 0 }
}

/// The effect of one trimmed line within a section. A line `Key=Value` sets
/// `achieved` for the key `Achieved` (true exactly for the value `1`) and
/// `unlock_time` for the key `UnlockTime` (0 when the value is no integer);
/// any other line leaves the entry as it is.
pub open spec fn apply_line(entry: EntryModel, line: Seq<char>) -> EntryModel {
    let eq = find_char(line, '=') as int;
    if eq >= line.len() {
        entry
    } else {
        let key = trim(line.take(eq));
        let value = trim(line.skip(eq + 1));
        if key == "Achieved"@ {
            EntryModel { achieved: value == "1"@, ..entry }
        } else if key == "UnlockTime"@ {
            EntryModel {
                unlock_time: match parse_i64(value) {
                    Some(t) => t,
                    None => 0,
                },
                ..entry
            }
        } else {
            entry
        }
    }
}

/// The entries that a sequence of lines describes. A header line opens a new
/// entry; any other line acts on the entry opened last, and is ignored when
/// no section has been opened yet.
pub open spec fn ini_entries(lines: Seq<Seq<char>>) -> Seq<EntryModel>
    decreases lines.len(),
{
    if lines.len() == 0 {
        Seq::empty()
    } else {
        let before = ini_entries(lines.drop_last());
        let line = trim(lines.last());
        if is_section_header(line) {
            before.push(fresh_entry(section_name(line)))
        } else if before.len() == 0 {
            before
        } else {
            before.update(before.len() - 1, apply_line(before.last(), line))
        }
    }
}

/// The entries that an INI achievement file holds.
pub open spec fn parse_ini(content: Seq<char>) -> Seq<EntryModel> {
    ini_entries(lines(content))
}

/// Why an achievement file in the JSON form could not be read.
#[derive(Debug, Clone, Copy, PartialEq, Eq, Structural)]
pub enum ParseError {
    /// The text is not a JSON document.
    InvalidJson,
    /// The document is valid JSON, but its root is not an object.
    NotAnObject,
}

/// The entry that one member of the root object describes: `earned` gives
/// `achieved` (false unless it is a boolean), `earned_time` gives
/// `unlock_time` (0 unless it is an integer). A member whose value is not an
/// object describes no entry.
pub open spec fn json_entry(name: Seq<char>, payload: JsonModel) -> Option<EntryModel> {
    match payload {
        JsonModel::Object(fields) => Some(
            EntryModel {
                name,
                achieved: match member_value(fields, "earned"@) {
                    Some(v) => match model_bool(v) {
                        Some(b) => b,
                        None => false,
                    },
                    None => false,
                },
                unlock_time: match member_value(fields, "earned_time"@) {
                    Some(v) => match model_i64(v) {
                        Some(t) => t,
                        None => 0,
                    },
                    None => 0,
                },
            },
        ),
        _ => None,
    }
}

/// The entries that the members of the root object describe, in order.
pub open spec fn json_entries(members: Seq<(Seq<char>, JsonModel)>) -> Seq<EntryModel>
    decreases members.len(),
{
    if members.len() == 0 {
        Seq::empty()
    } else {
        let before = json_entries(members.drop_last());
        match json_entry(members.last().0, members.last().1) {
            Some(e) => before.push(e),
            None => before,
        }
    }
}

/// The entries that an achievement file in the JSON form holds.
pub open spec fn parse_json(content: Seq<char>) -> Result<Seq<EntryModel>, ParseError> {
    match json_document(content) {
        None => Err(ParseError::InvalidJson),
        Some(JsonModel::Object(members)) => Ok(json_entries(members)),
        Some(_) => Err(ParseError::NotAnObject),
    }
}

/// That an executable parse result is the one that the model gives.
pub open spec fn parsed_as(
    r: Result<Vec<AchievementEntry>, ParseError>,
    model: Result<Seq<EntryModel>, ParseError>,
) -> bool {
    match r {
        Ok(entries) => model == Ok::<Seq<EntryModel>, ParseError>(entries.deep_view()),
        Err(e) => model == Err::<Seq<EntryModel>, ParseError>(e),
    }
}

/// Whether `path` names a file in the JSON form: its extension is `json`,
/// in any case of letters.
pub open spec fn is_json_path(path: Seq<char>) -> bool {
    match path_extension(path) {
        Some(ext) => eq_ignore_ascii_case(ext, "json"@),
        None => false,
    }
}

/// The entries of the achievement file `path` with the text `content`.
pub open spec fn parse_file(path: Seq<char>, content: Seq<char>) -> Result<
    Seq<EntryModel>,
    ParseError,
> {
    if is_json_path(path) {
        parse_json(content)
    } else {
        Ok(parse_ini(content))
    }
}

/// Which of the achievement files exist in one game folder.
#[derive(Debug, Clone, Copy, PartialEq, Eq, Structural)]
pub struct FileProbe {
    /// `Stats/achievements.ini`
    pub stats_ini: bool,
    /// `achievements.ini`
    pub ini: bool,
    /// `achievements.json`
    pub json: bool,
}

/// The achievement file that stands for a game folder.
#[derive(Debug, Clone, Copy, PartialEq, Eq, Structural)]
pub enum AchievementFileKind {
    /// `Stats/achievements.ini`, in the INI form
    StatsIni,
    /// `achievements.ini`, in the INI form
    Ini,
    /// `achievements.json`, in the JSON form
    Json,
}

/// A root named `OnlineFix` keeps its files under `Stats`.
pub open spec fn is_online_fix(directory: Seq<char>) -> bool {
    path_file_name(directory) == Some("OnlineFix"@)
}

/// The file that stands for a game folder. Under an `OnlineFix` root only
/// `Stats/achievements.ini` counts; elsewhere `achievements.ini` goes before
/// `achievements.json`.
pub open spec fn resolved_file(online_fix: bool, probe: FileProbe) -> Option<AchievementFileKind> {
    if online_fix {
        if probe.stats_ini {
            Some(AchievementFileKind::StatsIni)
        } else {
            None
        }
    } else if probe.ini {
        Some(AchievementFileKind::Ini)
    } else if probe.json {
        Some(AchievementFileKind::Json)
    } else {
        None
    }
}

/// Where the file of the given kind lies for the game `game_id` under `root`.
pub open spec fn file_location(root: Seq<char>, game_id: Seq<char>, kind: AchievementFileKind) -> Seq<
    char,
> {
    let folder = path_join(root, game_id);
    match kind {
        AchievementFileKind::StatsIni => path_join(
            path_join(folder, "Stats"@),
            "achievements.ini"@,
        ),
        AchievementFileKind::Ini => path_join(folder, "achievements.ini"@),
        AchievementFileKind::Json => path_join(folder, "achievements.json"@),
    }
}

/// The entries of a file of the given kind with the text `content`.
pub open spec fn parse_kind(kind: AchievementFileKind, content: Seq<char>) -> Result<
    Seq<EntryModel>,
    ParseError,
> {
    match kind {
        AchievementFileKind::Json => parse_json(content),
        _ => Ok(parse_ini(content)),
    }
}

/// The modification time of a file in whole seconds since the epoch, or 0
/// when it is not known.
pub open spec fn modified_seconds(modified: Option<u64>) -> i64 {
    match modified {
        Some(secs) => secs as i64,
        None => 0,
    }
}

/// One subdirectory of a monitored root, as found on disk.
#[derive(Debug, PartialEq, Eq)]
pub struct GameFolder {
    /// The name of the subdirectory.
    pub game_id: String,
    /// Which achievement files it holds.
    pub probe: FileProbe,
    /// The text of the file that stands for the folder; `None` when no file
    /// does, or when it could not be read.
    pub content: Option<String>,
    /// When that file was last modified, in seconds since the epoch.
    pub modified: Option<u64>,
}

/// What a `GameFolder` holds.
pub struct GameFolderModel {
    pub game_id: Seq<char>,
    pub probe: FileProbe,
    pub content: Option<Seq<char>>,
    pub modified: Option<u64>,
}

impl View for GameFolder {
    type V = GameFolderModel;

    open spec fn view(&self) -> GameFolderModel {
        GameFolderModel {
            game_id: self.game_id@,
            probe: self.probe,
            content: opt_text(self.content),
            modified: self.modified,
        }
    }
}

impl DeepView for GameFolder {
    type V = GameFolderModel;

    open spec fn deep_view(&self) -> GameFolderModel {
        self@
    }
}

/// A monitored root after expansion, with its subdirectories. A root that
/// does not exist or cannot be listed has none.
#[derive(Debug, PartialEq, Eq)]
pub struct DirectoryListing {
    pub path: String,
    pub folders: Vec<GameFolder>,
}

/// What a `DirectoryListing` holds.
pub struct DirectoryListingModel {
    pub path: Seq<char>,
    pub folders: Seq<GameFolderModel>,
}

impl View for DirectoryListing {
    type V = DirectoryListingModel;

    open spec fn view(&self) -> DirectoryListingModel {
        DirectoryListingModel { path: self.path@, folders: self.folders.deep_view() }
    }
}

impl DeepView for DirectoryListing {
    type V = DirectoryListingModel;

    open spec fn deep_view(&self) -> DirectoryListingModel {
        self@
    }
}

/// The entries read from a game folder: `None` when no file stands for the
/// folder, when the file could not be read, or when it could not be parsed.
pub open spec fn folder_entries(online_fix: bool, folder: GameFolderModel) -> Option<
    Seq<EntryModel>,
> {
    match resolved_file(online_fix, folder.probe) {
        None => None,
        Some(kind) => match folder.content {
            None => None,
            Some(text) => match parse_kind(kind, text) {
                Ok(entries) => Some(entries),
                Err(_) => None,
            },
        },
    }
}

/// The snapshot that a game folder contributes to the scan of `directory`:
/// none unless at least one entry was read from it.
pub open spec fn folder_game(directory: Seq<char>, folder: GameFolderModel) -> Option<GameModel> {
    match folder_entries(is_online_fix(directory), folder) {
        Some(entries) => if entries.len() > 0 {
            Some(
                GameModel {
                    game_id: folder.game_id,
                    achievements: entries,
                    last_modified: modified_seconds(folder.modified),
                    directory,
                },
            )
        } else {
            None
        },
        None => None,
    }
}

/// The snapshots that the scan of one root yields, in the order of its
/// folders.
pub open spec fn directory_games(directory: Seq<char>, folders: Seq<GameFolderModel>) -> Seq<
    GameModel,
>
    decreases folders.len(),
{
    if folders.len() == 0 {
        Seq::empty()
    } else {
        let before = directory_games(directory, folders.drop_last());
        match folder_game(directory, folders.last()) {
            Some(game) => before.push(game),
            None => before,
        }
    }
}

/// The snapshots that the scan of several roots yields: those of each root,
/// one root after the other. A game found under two roots appears twice.
pub open spec fn all_games(listings: Seq<DirectoryListingModel>) -> Seq<GameModel>
    decreases listings.len(),
{
    if listings.len() == 0 {
        Seq::empty()
    } else {
        all_games(listings.drop_last()) + directory_games(
            listings.last().path,
            listings.last().folders,
        )
    }
}

/// The entries read so far: those closed, then the one still open.
pub open spec fn with_open(closed: Seq<EntryModel>, open: Option<AchievementEntry>) -> Seq<
    EntryModel,
> {
    match open {
        Some(e) => closed.push(e@),
        None => closed,
    }
}

/// The readers of achievement files and the scan of monitored roots.
pub struct AchievementParser;

impl AchievementParser {
    /// Whether `directory_path` is a root in the `OnlineFix` layout.
    pub fn is_online_fix_root(directory_path: &str) -> (r: bool)
        ensures
            r == is_online_fix(directory_path@),
    {
        match file_name_of(directory_path) {
            Some(name) => text_equals(name.as_str(), "OnlineFix"),
            None => false,
        }
    }

    /// Picks the achievement file that stands for a game folder.
    pub fn resolve_achievement_file(online_fix: bool, probe: FileProbe) -> (r: Option<
        AchievementFileKind,
    >)
        ensures
            r == resolved_file(online_fix, probe),
    {
        if online_fix {
            if probe.stats_ini {
                Some(AchievementFileKind::StatsIni)
            } else {
                None
            }
        } else if probe.ini {
            Some(AchievementFileKind::Ini)
        } else if probe.json {
            Some(AchievementFileKind::Json)
        } else {
            None
        }
    }

    /// The path of the file of the given kind for one game under `root`.
    pub fn achievement_file_path(root: &str, game_id: &str, kind: AchievementFileKind) -> (r:
        String)
        ensures
            r@ == file_location(root@, game_id@, kind),
    {
        let folder = join_path(root, game_id);
        match kind {
            AchievementFileKind::StatsIni => {
                let stats = join_path(folder.as_str(), "Stats");
                join_path(stats.as_str(), "achievements.ini")
            },
            AchievementFileKind::Ini => join_path(folder.as_str(), "achievements.ini"),
            AchievementFileKind::Json => join_path(folder.as_str(), "achievements.json"),
        }
    }

    /// Reads an achievement file from its text. The extension of
    /// `file_path` selects the form: `json` in any case for the JSON form,
    /// anything else for the INI form, which accepts every text.
    pub fn parse_achievement_file(file_path: &str, content: &str) -> (r: Result<
        Vec<AchievementEntry>,
        ParseError,
    >)
        ensures
            parsed_as(r, parse_file(file_path@, content@)),
    {
        let json = match extension_of(file_path) {
            Some(ext) => equals_ignoring_ascii_case(ext.as_str(), "json"),
            None => false,
        };
        if json {
            Self::parse_gse_achievement_json(content)
        } else {
            Ok(Self::parse_ini_achievements(content))
        }
    }

    /// The snapshot of one game folder under `directory_path`, if it has
    /// achievements to show.
    fn parse_game_folder(directory_path: &str, online_fix: bool, folder: &GameFolder) -> (r:
        Option<GameAchievements>)
        requires
            online_fix == is_online_fix(directory_path@),
        ensures
            match r {
                Some(game) => folder_game(directory_path@, folder@) == Some(game@),
                None => folder_game(directory_path@, folder@) is None,
            },
    {
        let kind = match Self::resolve_achievement_file(online_fix, folder.probe) {
            Some(kind) => kind,
            None => {
                return None;
            },
        };
        let text = match &folder.content {
            Some(text) => text,
            None => {
                return None;
            },
        };
        let parsed = match kind {
            AchievementFileKind::Json => Self::parse_gse_achievement_json(text.as_str()),
            _ => Ok(Self::parse_ini_achievements(text.as_str())),
        };
        match parsed {
            Ok(achievements) => {
                if achievements.len() == 0 {
                    return None;
                }
                let last_modified = match folder.modified {
                    Some(secs) => #[verifier::truncate]
                    (secs as i64),
                    None => 0,
                };
                Some(
                    GameAchievements {
                        game_id: folder.game_id.clone(),
                        achievements,
                        last_modified,
                        directory: directory_path.to_owned(),
                    },
                )
            },
            Err(_) => None,
        }
    }

    /// Scans one root: the snapshot of each game folder that has
    /// achievements, in the order of the folders. A folder without an
    /// achievement file, with an unreadable or malformed one, or with one
    /// that holds no entry, is left out and does not stop the scan.
    pub fn parse_directory(directory_path: &str, folders: &[GameFolder]) -> (games: Vec<
        GameAchievements,
    >)
        ensures
            games.deep_view() == directory_games(directory_path@, folders.deep_view()),
            forall|i: int| 0 <= i < games.len() ==> (#[trigger] games[i]).achievements.len() > 0,
    {
        let online_fix = Self::is_online_fix_root(directory_path);
        let mut games: Vec<GameAchievements> = Vec::new();
        let ghost all = folders.deep_view();
        let mut i: usize = 0;
        while i < folders.len()
            invariant
                i <= folders.len(),
                all == folders.deep_view(),
                online_fix == is_online_fix(directory_path@),
                games.deep_view() == directory_games(directory_path@, all.take(i as int)),
                forall|k: int|
                    0 <= k < games.len() ==> (#[trigger] games[k]).achievements.len() > 0,
            decreases folders.len() - i,
        {
            let ghost before = games.deep_view();
            proof {
                assert(all.take(i + 1).drop_last() == all.take(i as int));
                assert(all.take(i + 1).last() == folders[i as int]@);
            }
            match Self::parse_game_folder(directory_path, online_fix, &folders[i]) {
                Some(game) => {
                    assert(game.achievements.deep_view().len() == game.achievements.len());
                    games.push(game);
                    assert(games.deep_view() == before.push(game@));
                },
                None => {},
            }
            i += 1;
        }
        assert(all.take(i as int) == all);
        games
    }

    /// Scans several roots, one after the other, and puts the snapshots
    /// together. Nothing is merged: a game that lies under two roots comes
    /// out twice.
    pub fn parse_directories(listings: &[DirectoryListing]) -> (games: Vec<GameAchievements>)
        ensures
            games.deep_view() == all_games(listings.deep_view()),
            forall|i: int| 0 <= i < games.len() ==> (#[trigger] games[i]).achievements.len() > 0,
    {
        let mut games: Vec<GameAchievements> = Vec::new();
        let ghost all = listings.deep_view();
        let mut i: usize = 0;
        while i < listings.len()
            invariant
                i <= listings.len(),
                all == listings.deep_view(),
                games.deep_view() == all_games(all.take(i as int)),
                forall|k: int|
                    0 <= k < games.len() ==> (#[trigger] games[k]).achievements.len() > 0,
            decreases listings.len() - i,
        {
            let ghost before = games.deep_view();
            proof {
                assert(all.take(i + 1).drop_last() == all.take(i as int));
                assert(all.take(i + 1).last() == listings[i as int]@);
            }
            let folders = listings[i].folders.as_slice();
            assert(folders.deep_view() == listings[i as int]@.folders);
            let mut found = Self::parse_directory(listings[i].path.as_str(), folders);
            let ghost added = found.deep_view();
            games.append(&mut found);
            assert(games.deep_view() == before + added);
            i += 1;
        }
        assert(all.take(i as int) == all);
        games
    }

    /// Applies the trimmed line `chars[a..b]` to the open entry.
    fn apply_key_line(entry: &mut AchievementEntry, chars: &[char], a: usize, b: usize)
        requires
            a <= b <= chars.len(),
        ensures
            final(entry)@ == apply_line(old(entry)@, chars@.subrange(a as int, b as int)),
    {
        let ghost line = chars@.subrange(a as int, b as int);
        let eq = find_char_in(chars, a, b, '=');
        if eq < b {
            let (ka, kb) = trim_range(chars, a, eq);
            let (va, vb) = trim_range(chars, eq + 1, b);
            proof {
                assert(line.take(eq - a) == chars@.subrange(a as int, eq as int));
                assert(line.skip(eq - a + 1) == chars@.subrange(eq + 1, b as int));
            }
            if range_equals(chars, ka, kb, "Achieved") {
                entry.achieved = range_equals(chars, va, vb, "1");
            } else if range_equals(chars, ka, kb, "UnlockTime") {
                entry.unlock_time = match parse_i64_range(chars, va, vb) {
                    Some(t) => t,
                    None => 0,
                };
            }
        }
    }

    /// Reads the JSON form of an achievement file: an object whose members
    /// are named after achievements and hold `earned` and `earned_time`.
    pub fn parse_gse_achievement_json(content: &str) -> (r: Result<
        Vec<AchievementEntry>,
        ParseError,
    >)
        ensures
            parsed_as(r, parse_json(content@)),
    {
        let document = match json_from_str(content) {
            Ok(v) => v,
            Err(_) => {
                return Err(ParseError::InvalidJson);
            },
        };
        let object = match document.as_object() {
            Some(map) => map,
            None => {
                return Err(ParseError::NotAnObject);
            },
        };
        let items = object_items(object);
        let ghost members = crate::json::object_members(*object);
        let mut out: Vec<AchievementEntry> = Vec::new();
        let mut i: usize = 0;
        while i < items.len()
            invariant
                i <= items.len() == members.len(),
                forall|k: int|
                    0 <= k < items.len() ==> (#[trigger] items[k]).0@ == members[k].0
                        && crate::json::json_content(*items[k].1) == members[k].1,
                out.deep_view() == json_entries(members.take(i as int)),
            decreases items.len() - i,
        {
            let (name, payload) = items[i];
            let ghost before = out.deep_view();
            proof {
                assert(members.take(i + 1).drop_last() == members.take(i as int));
                assert(members.take(i + 1).last() == members[i as int]);
            }
            match payload.as_object() {
                Some(fields) => {
                    let achieved = match object_get(fields, "earned") {
                        Some(v) => match v.as_bool() {
                            Some(b) => b,
                            None => false,
                        },
                        None => false,
                    };
                    let unlock_time = match object_get(fields, "earned_time") {
                        Some(v) => match v.as_i64() {
                            Some(t) => t,
                            None => 0,
                        },
                        None => 0,
                    };
                    let entry = AchievementEntry { name: name.clone(), achieved, unlock_time };
                    assert(json_entry(members[i as int].0, members[i as int].1) == Some(entry@));
                    out.push(entry);
                    assert(out.deep_view() == before.push(entry@));
                },
                None => {
                    assert(json_entry(members[i as int].0, members[i as int].1) is None);
                },
            }
            i += 1;
        }
        assert(members.take(i as int) == members);
        Ok(out)
    }

    /// Reads the INI form of an achievement file: `[Name]` sections, each
    /// followed by `Achieved=` and `UnlockTime=` lines.
    pub fn parse_ini_achievements(content: &str) -> (out: Vec<AchievementEntry>)
        ensures
            out.deep_view() == parse_ini(content@),
    {
        let chars = chars_of(content);
        let n = chars.len();
        let mut closed: Vec<AchievementEntry> = Vec::new();
        let mut open: Option<AchievementEntry> = None;
        let mut pos: usize = 0;
        let ghost mut seen: Seq<Seq<char>> = Seq::empty();
        proof {
            assert(chars@.skip(0) == chars@);
            assert(seen + lines(chars@) == lines(chars@));
        }
        while pos < n
            invariant
                pos <= n == chars.len(),
                chars@ == content@,
                lines(chars@) == seen + lines(chars@.skip(pos as int)),
                with_open(closed.deep_view(), open) == ini_entries(seen),
                open is None ==> closed.len() == 0,
            decreases n - pos,
        {
            let end = find_char_in(&chars, pos, n, '\n');
            let (a, b) = trim_range(&chars, pos, end);
            let ghost rest = chars@.skip(pos as int);
            let ghost raw = chars@.subrange(pos as int, end as int);
            let ghost line = chars@.subrange(a as int, b as int);
            let ghost next: int = if end < n { end + 1 } else { end as int };
            proof {
                assert(rest == chars@.subrange(pos as int, n as int));
                assert(rest.take(end - pos) == raw);
                if end < n {
                    assert(rest.skip(end - pos + 1) == chars@.skip(next));
                } else {
                    assert(raw == rest);
                    assert(chars@.skip(next).len() == 0);
                    assert(lines(chars@.skip(next)) == Seq::<Seq<char>>::empty());
                }
                assert(lines(rest) == seq![raw] + lines(chars@.skip(next)));
                assert(seen + (seq![raw] + lines(chars@.skip(next))) == seen.push(raw) + lines(
                    chars@.skip(next),
                ));
                assert(seen.push(raw).drop_last() == seen);
                assert(seen.push(raw).last() == raw);
            }
            let ghost before = ini_entries(seen);
            if a < b && chars[a] == '[' && chars[b - 1] == ']' {
                assert(is_section_header(line));
                let name = string_of(&chars, a + 1, b - 1);
                assert(name@ == section_name(line));
                let fresh = AchievementEntry { name, achieved: false, unlock_time: 0 };
                let ghost old_closed = closed.deep_view();
                match open.take() {
                    Some(e) => {
                        closed.push(e);
                        assert(closed.deep_view() == old_closed.push(e@));
                    },
                    None => {},
                }
                open = Some(fresh);
                assert(with_open(closed.deep_view(), open) == before.push(
                    fresh_entry(section_name(line)),
                ));
            } else {
                assert(!is_section_header(line));
                match open {
                    Some(mut e) => {
                        let ghost prior = e@;
                        Self::apply_key_line(&mut e, &chars, a, b);
                        open = Some(e);
                        assert(before.last() == prior);
                        assert(with_open(closed.deep_view(), open) == before.update(
                            before.len() - 1,
                            apply_line(prior, line),
                        ));
                    },
                    None => {
                        open = None;
                    },
                }
            }
            proof {
                seen = seen.push(raw);
            }
            pos = if end < n {
                end + 1
            } else {
                end
            };
        }
        let ghost old_closed = closed.deep_view();
        match open {
            Some(e) => {
                closed.push(e);
                assert(closed.deep_view() == old_closed.push(e@));
            },
            None => {},
        }
        proof {
            assert(lines(chars@.skip(pos as int)) == Seq::<Seq<char>>::empty());
            assert(seen + Seq::<Seq<char>>::empty() == seen);
        }
        closed
    }
}

/// How many of the lines are section headers.
pub open spec fn header_count(lines: Seq<Seq<char>>) -> nat
    decreases lines.len(),
{
    if lines.len() == 0 {
        0
    } else {
        header_count(lines.drop_last()) + if is_section_header(trim(lines.last())) {
            1nat
        } else {
            0nat
        }
    }
}

/// The entry that one section describes: `section` is its header line
/// followed by the lines up to the next header. The lines act on the entry
/// in order, so the last `Achieved` and the last `UnlockTime` count.
pub open spec fn section_entry(section: Seq<Seq<char>>) -> EntryModel
    recommends
        section.len() > 0,
    decreases section.len(),
{
    if section.len() <= 1 {
        fresh_entry(section_name(trim(section[0])))
    } else {
        apply_line(section_entry(section.drop_last()), trim(section.last()))
    }
}

/// The effect of an assignment `key = value` on an entry.
pub open spec fn assigned(entry: EntryModel, key: Seq<char>, value: Seq<char>) -> EntryModel {
    if key == "Achieved"@ {
        EntryModel { achieved: value == "1"@, ..entry }
    } else if key == "UnlockTime"@ {
        EntryModel {
            unlock_time: match parse_i64(value) {
                Some(t) => t,
                None => 0,
            },
            ..entry
        }
    } else {
        entry
    }
}

/// Parsing yields exactly one entry for each section header, whatever else
/// the text holds.
pub proof fn law_ini_one_entry_per_header(lines: Seq<Seq<char>>)
    ensures
        ini_entries(lines).len() == header_count(lines),
    decreases lines.len(),
{
    if lines.len() > 0 {
        law_ini_one_entry_per_header(lines.drop_last());
    }
}

/// A line `key=value`, where `key` holds no `=`, assigns the trimmed value
/// to the trimmed key: `Achieved` is true exactly for the value `1`, and
/// `UnlockTime` is the integer that the value writes, or 0 when it writes
/// none. A line without `=` changes nothing.
pub proof fn law_ini_assignment(entry: EntryModel, key: Seq<char>, value: Seq<char>)
    requires
        !key.contains('='),
    ensures
        apply_line(entry, key + seq!['='] + value) == assigned(entry, trim(key), trim(value)),
        apply_line(entry, key) == entry,
{
    let line = key + seq!['='] + value;
    assert forall|j: int| 0 <= j < key.len() implies line[j] != '=' by {
        assert(line[j] == key[j]);
        assert(key.contains(key[j]));
    }
    assert(line[key.len() as int] == '=');
    crate::text::lemma_find_char_is(line, '=', key.len() as int);
    assert(line.take(key.len() as int) == key);
    assert(line.skip(key.len() as int + 1) == value);
    assert forall|j: int| 0 <= j < key.len() implies key[j] != '=' by {
        assert(key.contains(key[j]));
    }
    crate::text::lemma_find_char_is(key, '=', key.len() as int);
}

proof fn lemma_ini_take_step(lines: Seq<Seq<char>>, n: int)
    requires
        0 <= n < lines.len(),
    ensures
        lines.take(n + 1).drop_last() == lines.take(n),
        lines.take(n + 1).last() == lines[n],
{
}

/// Lines after a header leave the entries of earlier sections alone.
proof fn lemma_ini_prefix_stable(lines: Seq<Seq<char>>, m: int, n: int)
    requires
        0 <= m <= n <= lines.len(),
        m < lines.len() ==> is_section_header(trim(lines[m])),
    ensures
        header_count(lines.take(m)) <= ini_entries(lines.take(n)).len(),
        ini_entries(lines.take(n)).take(header_count(lines.take(m)) as int) == ini_entries(
            lines.take(m),
        ),
        m < n ==> header_count(lines.take(m)) < ini_entries(lines.take(n)).len(),
    decreases n - m,
{
    law_ini_one_entry_per_header(lines.take(m));
    if n == m {
        assert(ini_entries(lines.take(m)).take(header_count(lines.take(m)) as int)
            == ini_entries(lines.take(m)));
    } else {
        lemma_ini_prefix_stable(lines, m, n - 1);
        lemma_ini_take_step(lines, n - 1);
        let before = ini_entries(lines.take(n - 1));
        let after = ini_entries(lines.take(n));
        let k = header_count(lines.take(m)) as int;
        if n - 1 == m {
            assert(after == before.push(fresh_entry(section_name(trim(lines[m])))));
        }
        assert(after.take(k) =~= before.take(k));
    }
}

/// The last entry after a header and some lines that are no headers is the
/// entry of that section.
proof fn lemma_ini_section_tail(lines: Seq<Seq<char>>, start: int, end: int)
    requires
        0 <= start < end <= lines.len(),
        is_section_header(trim(lines[start])),
        forall|i: int| start < i < end ==> !is_section_header(trim(#[trigger] lines[i])),
    ensures
        ini_entries(lines.take(end)).len() == header_count(lines.take(start)) + 1,
        ini_entries(lines.take(end)).last() == section_entry(lines.subrange(start, end)),
    decreases end - start,
{
    law_ini_one_entry_per_header(lines.take(start));
    lemma_ini_take_step(lines, end - 1);
    let section = lines.subrange(start, end);
    if end == start + 1 {
        assert(section[0] == lines[start]);
    } else {
        lemma_ini_section_tail(lines, start, end - 1);
        assert(section.drop_last() == lines.subrange(start, end - 1));
        assert(section.last() == lines[end - 1]);
    }
}

/// In any text, the entry of a section is decided by the lines of that
/// section alone: by its header and the lines up to the next header or the
/// end of the text. It is the entry number `k`, where `k` headers come
/// before the section.
pub proof fn law_ini_section_entry(lines: Seq<Seq<char>>, start: int, end: int)
    requires
        0 <= start < end <= lines.len(),
        is_section_header(trim(lines[start])),
        forall|i: int| start < i < end ==> !is_section_header(trim(#[trigger] lines[i])),
        end < lines.len() ==> is_section_header(trim(lines[end])),
    ensures
        header_count(lines.take(start)) < ini_entries(lines).len(),
        ini_entries(lines)[header_count(lines.take(start)) as int] == section_entry(
            lines.subrange(start, end),
        ),
{
    lemma_ini_section_tail(lines, start, end);
    lemma_ini_prefix_stable(lines, end, lines.len() as int);
    law_ini_one_entry_per_header(lines.take(end));
    assert(lines.take(lines.len() as int) == lines);
    let k = header_count(lines.take(start)) as int;
    let upto = ini_entries(lines.take(end));
    assert(ini_entries(lines).take(k + 1) == upto);
    assert(ini_entries(lines)[k] == ini_entries(lines).take(k + 1)[k]);
}

/// A root object whose members are all objects yields exactly one entry for
/// each member, in order: named after the member, with `achieved` from
/// `earned` and `unlock_time` from `earned_time`.
pub proof fn law_json_one_entry_per_member(members: Seq<(Seq<char>, JsonModel)>)
    requires
        forall|i: int| 0 <= i < members.len() ==> (#[trigger] members[i]).1 is Object,
    ensures
        json_entries(members).len() == members.len(),
        forall|i: int|
            0 <= i < members.len() ==> Some(#[trigger] json_entries(members)[i]) == json_entry(
                members[i].0,
                members[i].1,
            ) && json_entries(members)[i].name == members[i].0,
    decreases members.len(),
{
    if members.len() > 0 {
        let front = members.drop_last();
        assert forall|i: int| 0 <= i < front.len() implies (#[trigger] front[i]).1 is Object by {
            assert(front[i] == members[i]);
        }
        law_json_one_entry_per_member(front);
        assert(members.last() == members[members.len() - 1]);
        assert forall|i: int| 0 <= i < members.len() implies Some(
            #[trigger] json_entries(members)[i],
        ) == json_entry(members[i].0, members[i].1) && json_entries(members)[i].name
            == members[i].0 by {
            if i < front.len() {
                assert(front[i] == members[i]);
                assert(json_entries(members)[i] == json_entries(front)[i]);
            }
        }
    }
}

/// Every snapshot of a scan holds at least one entry.
pub proof fn law_no_empty_game(directory: Seq<char>, folders: Seq<GameFolderModel>)
    ensures
        forall|i: int|
            0 <= i < directory_games(directory, folders).len() ==> (#[trigger] directory_games(
                directory,
                folders,
            )[i]).achievements.len() > 0,
    decreases folders.len(),
{
    if folders.len() > 0 {
        law_no_empty_game(directory, folders.drop_last());
        let before = directory_games(directory, folders.drop_last());
        let all = directory_games(directory, folders);
        assert forall|i: int| 0 <= i < all.len() implies (#[trigger] all[i]).achievements.len()
            > 0 by {
            if i < before.len() {
                assert(all[i] == before[i]);
            }
        }
    }
}

/// Every snapshot of a scan names the root that was scanned.
pub proof fn law_games_lie_in_their_directory(directory: Seq<char>, folders: Seq<GameFolderModel>)
    ensures
        forall|i: int|
            0 <= i < directory_games(directory, folders).len() ==> (#[trigger] directory_games(
                directory,
                folders,
            )[i]).directory == directory,
    decreases folders.len(),
{
    if folders.len() > 0 {
        law_games_lie_in_their_directory(directory, folders.drop_last());
        let before = directory_games(directory, folders.drop_last());
        let all = directory_games(directory, folders);
        assert forall|i: int| 0 <= i < all.len() implies (#[trigger] all[i]).directory
            == directory by {
            if i < before.len() {
                assert(all[i] == before[i]);
            }
        }
    }
}

/// A folder that contributes no snapshot, as one whose file holds no entry,
/// might as well not be there: the scan yields what it yields without it.
pub proof fn law_empty_game_absent(directory: Seq<char>, folders: Seq<GameFolderModel>, at: int)
    requires
        0 <= at < folders.len(),
        folder_game(directory, folders[at]) is None,
    ensures
        directory_games(directory, folders) == directory_games(directory, folders.remove(at)),
    decreases folders.len(),
{
    let front = folders.drop_last();
    if at == folders.len() - 1 {
        assert(folders.remove(at) == front);
    } else {
        law_empty_game_absent(directory, front, at);
        assert(folders.remove(at).drop_last() == front.remove(at));
        assert(folders.remove(at).last() == folders.last());
    }
}

/// A file that parses to no entry gives the same result as no file at all.
pub proof fn law_empty_file_as_absent(directory: Seq<char>, folder: GameFolderModel)
    requires
        folder_entries(is_online_fix(directory), folder) == Some(Seq::<EntryModel>::empty()),
    ensures
        folder_game(directory, folder) is None,
        folder_game(directory, folder) == folder_game(
            directory,
            GameFolderModel {
                probe: FileProbe { stats_ini: false, ini: false, json: false },
                ..folder
            },
        ),
{
}

} // verus!
