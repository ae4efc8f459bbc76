//! The records that the library exchanges with its callers, and their
//! mathematical models.

use vstd::prelude::*;

verus! {

/// One achievement as read from a save file.
#[derive(Debug, PartialEq, Eq)]
pub struct AchievementEntry {
    pub name: String,
    pub achieved: bool,
    pub unlock_time: i64,
}

/// What an `AchievementEntry` holds.
pub struct EntryModel {
    pub name: Seq<char>,
    pub achieved: bool,
    pub unlock_time: i64,
}

impl View for AchievementEntry {
    type V = EntryModel;

    open spec fn view(&self) -> EntryModel {
        EntryModel { name: self.name@, achieved: self.achieved, unlock_time: self.unlock_time }
    }
}

impl DeepView for AchievementEntry {
    type V = EntryModel;

    open spec fn deep_view(&self) -> EntryModel {
        self@
    }
}

impl Clone for AchievementEntry {
    fn clone(&self) -> (r: Self)
        ensures
            r == *self,
    {
        AchievementEntry {
            name: self.name.clone(),
            achieved: self.achieved,
            unlock_time: self.unlock_time,
        }
    }
}

/// The last of the entries with the given name.
pub open spec fn last_named(entries: Seq<EntryModel>, name: Seq<char>) -> Option<EntryModel>
    decreases entries.len(),
{
    if entries.len() == 0 {
        None
    } else if entries.last().name == name {
        Some(entries.last())
    } else {
        last_named(entries.drop_last(), name)
    }
}

/// Where the last of the entries with the given name stands.
pub fn find_last_named(entries: &[AchievementEntry], name: &String) -> (r: Option<usize>)
    ensures
        match r {
            Some(i) => i < entries.len() && last_named(entries.deep_view(), name@) == Some(
                entries[i as int]@,
            ),
            None => last_named(entries.deep_view(), name@) is None,
        },
{
    let ghost all = entries.deep_view();
    let mut i: usize = entries.len();
    proof {
        assert(all.take(i as int) == all);
    }
    while i > 0
        invariant
            i <= entries.len(),
            all == entries.deep_view(),
            last_named(all, name@) == last_named(all.take(i as int), name@),
        decreases i,
    {
        proof {
            assert(all.take(i as int).last() == entries[i - 1]@);
            assert(all.take(i as int).drop_last() == all.take(i - 1));
        }
        if entries[i - 1].name == *name {
            return Some(i - 1);
        }
        i -= 1;
    }
    None
}

/// The achievements of one game, as found under one monitored root.
#[derive(Debug, PartialEq, Eq)]
pub struct GameAchievements {
    pub game_id: String,
    pub achievements: Vec<AchievementEntry>,
    pub last_modified: i64,
    pub directory: String,
}

/// What a `GameAchievements` holds.
pub struct GameModel {
    pub game_id: Seq<char>,
    pub achievements: Seq<EntryModel>,
    pub last_modified: i64,
    pub directory: Seq<char>,
}

impl View for GameAchievements {
    type V = GameModel;

    open spec fn view(&self) -> GameModel {
        GameModel {
            game_id: self.game_id@,
            achievements: self.achievements.deep_view(),
            last_modified: self.last_modified,
            directory: self.directory@,
        }
    }
}

impl DeepView for GameAchievements {
    type V = GameModel;

    open spec fn deep_view(&self) -> GameModel {
        self@
    }
}

/// One monitored root directory.
#[derive(Debug, PartialEq, Eq)]
pub struct DirectoryConfig {
    pub path: String,
    pub name: String,
    pub enabled: bool,
    pub is_default: bool,
}

/// What a `DirectoryConfig` holds.
pub struct DirectoryModel {
    pub path: Seq<char>,
    pub name: Seq<char>,
    pub enabled: bool,
    pub is_default: bool,
}

impl View for DirectoryConfig {
    type V = DirectoryModel;

    open spec fn view(&self) -> DirectoryModel {
        DirectoryModel {
            path: self.path@,
            name: self.name@,
            enabled: self.enabled,
            is_default: self.is_default,
        }
    }
}

impl DeepView for DirectoryConfig {
    type V = DirectoryModel;

    open spec fn deep_view(&self) -> DirectoryModel {
        self@
    }
}

impl Clone for DirectoryConfig {
    fn clone(&self) -> (r: Self)
        ensures
            r == *self,
    {
        DirectoryConfig {
            path: self.path.clone(),
            name: self.name.clone(),
            enabled: self.enabled,
            is_default: self.is_default,
        }
    }
}

/// The description of one achievement, as the Hydra service gives it.
#[derive(Debug, PartialEq, Eq)]
pub struct HydraAchievement {
    pub name: String,
    pub display_name: String,
    pub description: String,
    pub icon: String,
    pub icongray: String,
    pub hidden: bool,
}

/// What a `HydraAchievement` holds.
pub struct HydraAchievementModel {
    pub name: Seq<char>,
    pub display_name: Seq<char>,
    pub description: Seq<char>,
    pub icon: Seq<char>,
    pub icongray: Seq<char>,
    pub hidden: bool,
}

impl View for HydraAchievement {
    type V = HydraAchievementModel;

    open spec fn view(&self) -> HydraAchievementModel {
        HydraAchievementModel {
            name: self.name@,
            display_name: self.display_name@,
            description: self.description@,
            icon: self.icon@,
            icongray: self.icongray@,
            hidden: self.hidden,
        }
    }
}

impl DeepView for HydraAchievement {
    type V = HydraAchievementModel;

    open spec fn deep_view(&self) -> HydraAchievementModel {
        self@
    }
}

impl Clone for HydraAchievement {
    fn clone(&self) -> (r: Self)
        ensures
            r == *self,
    {
        HydraAchievement {
            name: self.name.clone(),
            display_name: self.display_name.clone(),
            description: self.description.clone(),
            icon: self.icon.clone(),
            icongray: self.icongray.clone(),
            hidden: self.hidden,
        }
    }
}

/// The achievements of one game, as the Hydra service gives them.
#[derive(Debug, PartialEq, Eq)]
pub struct HydraGameAchievements {
    pub game_id: String,
    pub achievements: Vec<HydraAchievement>,
}

/// A point in time as the user enters it: each part as text.
#[derive(Debug, PartialEq, Eq)]
pub struct Timestamp {
    pub day: String,
    pub month: String,
    pub year: String,
    pub hour: String,
    pub minute: String,
    pub ampm: Option<String>,
}

/// What a `Timestamp` holds.
pub struct TimestampModel {
    pub day: Seq<char>,
    pub month: Seq<char>,
    pub year: Seq<char>,
    pub hour: Seq<char>,
    pub minute: Seq<char>,
    pub ampm: Option<Seq<char>>,
}

impl View for Timestamp {
    type V = TimestampModel;

    open spec fn view(&self) -> TimestampModel {
        TimestampModel {
            day: self.day@,
            month: self.month@,
            year: self.year@,
            hour: self.hour@,
            minute: self.minute@,
            ampm: match self.ampm {
                Some(s) => Some(s@),
                None => None,
            },
        }
    }
}

impl DeepView for Timestamp {
    type V = TimestampModel;

    open spec fn deep_view(&self) -> TimestampModel {
        self@
    }
}

/// Where the unlock time of an achievement without one of its own comes from.
#[derive(Debug, Clone, Copy, PartialEq, Eq, Structural)]
pub enum UnlockMode {
    /// The time of the unlocking.
    Current,
    /// A time drawn at random from the year before the unlocking.
    Random,
    /// A time that the user gave.
    Custom,
}

/// How the hour of a `Timestamp` is written.
#[derive(Debug, Clone, Copy, PartialEq, Eq, Structural)]
pub enum TimeFormat {
    /// 1 to 12, with `AM` or `PM`.
    TwelveHour,
    /// 0 to 23.
    TwentyFourHour,
}

/// One achievement of an unlock request.
#[derive(Debug, PartialEq, Eq)]
pub struct AchievementToUnlock {
    pub name: String,
    pub completed: bool,
    pub timestamp: Timestamp,
}

/// What an `AchievementToUnlock` holds.
pub struct AchievementToUnlockModel {
    pub name: Seq<char>,
    pub completed: bool,
    pub timestamp: TimestampModel,
}

impl View for AchievementToUnlock {
    type V = AchievementToUnlockModel;

    open spec fn view(&self) -> AchievementToUnlockModel {
        AchievementToUnlockModel {
            name: self.name@,
            completed: self.completed,
            timestamp: self.timestamp@,
        }
    }
}

impl DeepView for AchievementToUnlock {
    type V = AchievementToUnlockModel;

    open spec fn deep_view(&self) -> AchievementToUnlockModel {
        self@
    }
}

/// A request to unlock achievements of one game.
#[derive(Debug, PartialEq, Eq)]
pub struct UnlockOptions {
    pub game_id: String,
    pub selected_path: String,
    pub achievements: Vec<AchievementToUnlock>,
    pub mode: UnlockMode,
    pub custom_timestamp: Option<Timestamp>,
    pub time_format: TimeFormat,
}

/// One hit of a search for games.
#[derive(Debug, PartialEq, Eq)]
pub struct SteamGameSearchResult {
    pub id: u32,
    pub name: String,
    pub achievements_total: u32,
}

/// How far an export has come.
#[derive(Debug, PartialEq, Eq)]
pub struct ExportProgress {
    pub current: usize,
    pub total: usize,
    pub name: String,
    pub icon: String,
}

} // verus!
