//! The directory monitor: which roots are watched and scanned, and the
//! debouncing of file system events into rescans.
//!
//! Watching the file system and waiting for events is the caller's part.
//! The monitor decides: it is told what happened and when, and answers what
//! to do next.

use crate::models::{DirectoryConfig, DirectoryModel, GameAchievements, GameModel};
use crate::parser::{
    all_games, directory_games, law_games_lie_in_their_directory, AchievementParser,
    DirectoryListing, DirectoryListingModel,
};
use crate::paths::{expand_path_from, expanded, file_name_of, path_file_name};
use crate::text::{opt_str, text_equals};
use vstd::prelude::*;

verus! {

/// How long the events must stay quiet before a rescan, in milliseconds.
pub const DEBOUNCE_MS: u64 = 500;

/// How long the loop waits for an event before it looks at the clock, in
/// milliseconds.
pub const POLL_MS: u64 = 100;

/// A path names an achievement file when its final component is exactly
/// `achievements.ini` or `achievements.json`.
pub open spec fn is_achievement_file(path: Seq<char>) -> bool {
    path_file_name(path) == Some("achievements.ini"@) || path_file_name(path) == Some(
        "achievements.json"@,
    )
}

/// Whether one of the paths of an event names an achievement file.
pub open spec fn names_achievement_file(paths: Seq<Seq<char>>) -> bool {
    exists|i: int| 0 <= i < paths.len() && is_achievement_file(#[trigger] paths[i])
}

/// What the event source reports.
#[derive(Debug)]
pub enum WatchEvent {
    /// Something changed at these paths.
    Changed(Vec<String>),
    /// The watcher reported an error.
    Failed,
    /// Nothing happened for `POLL_MS`.
    Timeout,
    /// The watches were torn down.
    Disconnected,
}

/// What a `WatchEvent` holds.
pub enum WatchEventModel {
    Changed(Seq<Seq<char>>),
    Failed,
    Timeout,
    Disconnected,
}

impl View for WatchEvent {
    type V = WatchEventModel;

    open spec fn view(&self) -> WatchEventModel {
        match self {
            WatchEvent::Changed(paths) => WatchEventModel::Changed(paths.deep_view()),
            WatchEvent::Failed => WatchEventModel::Failed,
            WatchEvent::Timeout => WatchEventModel::Timeout,
            WatchEvent::Disconnected => WatchEventModel::Disconnected,
        }
    }
}

/// What the loop does after an event.
#[derive(Debug, Clone, Copy, PartialEq, Eq, Structural)]
pub enum LoopAction {
    /// Wait for the next event.
    Wait,
    /// Scan all enabled roots and publish the result, then wait.
    Rescan,
    /// Leave the loop.
    Stop,
}

/// The state of the debouncer.
#[derive(Debug, Clone, Copy, PartialEq, Eq, Structural)]
pub enum DebounceState {
    /// No change is waiting to be published.
    Idle,
    /// An achievement file changed at time `since`, in milliseconds, and the
    /// change has not been published yet.
    PendingUpdate { since: u64 },
}

/// Whether a change seen at `since` is due for publication at `now`.
pub open spec fn is_due(since: u64, now: u64) -> bool {
    now >= since + DEBOUNCE_MS
}

/// Whether a rescan is due at `now`: a change is pending, and the waiting
/// time since it has passed.
pub open spec fn rescan_due(state: DebounceState, now: u64) -> bool {
    match state {
        DebounceState::PendingUpdate { since } => is_due(since, now),
        DebounceState::Idle => false,
    }
}

/// The state after an event at time `now`.
///
/// Every event wakes the loop, and on every wake a rescan that is due is
/// made and ends the waiting. A change to an achievement file then starts
/// the waiting time, and starts it anew when one was running. Other changes,
/// watcher errors and timeouts start and extend nothing. When the event
/// source is gone the loop ends and the state is of no account.
pub open spec fn next_state(state: DebounceState, event: WatchEventModel, now: u64) -> DebounceState {
    let woken = if rescan_due(state, now) {
        DebounceState::Idle
    } else {
        state
    };
    match event {
        WatchEventModel::Changed(paths) => if names_achievement_file(paths) {
            DebounceState::PendingUpdate { since: now }
        } else {
            woken
        },
        WatchEventModel::Disconnected => state,
        _ => woken,
    }
}

/// What the loop does after an event at time `now`: it stops when the event
/// source is gone; on any other event it makes the rescan that is due, and
/// waits on when none is.
pub open spec fn next_action(state: DebounceState, event: WatchEventModel, now: u64) -> LoopAction {
    match event {
        WatchEventModel::Disconnected => LoopAction::Stop,
        _ => if rescan_due(state, now) {
            LoopAction::Rescan
        } else {
            LoopAction::Wait
        },
    }
}

/// The deadline is looked at on every wake: once the waiting time has
/// passed, the next event of any kind, short of the end of the event
/// source, brings the rescan. Events that name no achievement file cannot
/// put it off.
pub proof fn law_rescan_at_next_wake(state: DebounceState, event: WatchEventModel, now: u64)
    requires
        rescan_due(state, now),
        !(event is Disconnected),
    ensures
        next_action(state, event, now) == LoopAction::Rescan,
        next_state(state, event, now) == DebounceState::Idle || (event matches WatchEventModel::Changed(
            paths,
        ) && names_achievement_file(paths) && next_state(state, event, now)
            == (DebounceState::PendingUpdate { since: now })),
{
}

/// A rescan is made only once no achievement file has changed for the
/// whole waiting time.
pub proof fn law_rescan_after_quiet(state: DebounceState, event: WatchEventModel, now: u64)
    requires
        next_action(state, event, now) == LoopAction::Rescan,
    ensures
        state matches DebounceState::PendingUpdate { since } && now - since >= DEBOUNCE_MS,
{
}

/// A change to an achievement file starts the waiting time anew, whatever
/// the state: the next rescan is due a full waiting time after it.
pub proof fn law_change_restarts_wait(state: DebounceState, paths: Seq<Seq<char>>, now: u64)
    requires
        names_achievement_file(paths),
    ensures
        next_state(state, WatchEventModel::Changed(paths), now) == (DebounceState::PendingUpdate {
            since: now,
        }),
{
}

/// Changes to other files, errors of the watcher, timeouts and the end of
/// the event source neither start nor extend the waiting: afterwards the
/// state is what it was, or idle.
pub proof fn law_other_events_never_extend(state: DebounceState, event: WatchEventModel, now: u64)
    requires
        match event {
            WatchEventModel::Changed(paths) => !names_achievement_file(paths),
            _ => true,
        },
    ensures
        next_state(state, event, now) == state || next_state(state, event, now)
            == DebounceState::Idle,
        state is Idle ==> next_state(state, event, now) is Idle,
{
}

/// Whether `path` names an achievement file.
pub fn path_is_achievement_file(path: &str) -> (r: bool)
    ensures
        r == is_achievement_file(path@),
{
    match file_name_of(path) {
        Some(name) => text_equals(name.as_str(), "achievements.ini") || text_equals(
            name.as_str(),
            "achievements.json",
        ),
        None => false,
    }
}

/// Whether one of `paths` names an achievement file.
pub fn event_is_relevant(paths: &Vec<String>) -> (r: bool)
    ensures
        r == names_achievement_file(paths.deep_view()),
{
    let mut i: usize = 0;
    while i < paths.len()
        invariant
            i <= paths.len(),
            forall|k: int| 0 <= k < i ==> !is_achievement_file(#[trigger] paths.deep_view()[k]),
        decreases paths.len() - i,
    {
        if path_is_achievement_file(paths[i].as_str()) {
            assert(is_achievement_file(paths.deep_view()[i as int]));
            return true;
        }
        i += 1;
    }
    false
}

/// Turns bursts of file system events into single rescans.
#[derive(Debug)]
pub struct Debouncer {
    pub state: DebounceState,
}

impl Debouncer {
    /// A debouncer with nothing pending.
    pub fn new() -> (d: Debouncer)
        ensures
            d.state == DebounceState::Idle,
    {
        Debouncer { state: DebounceState::Idle }
    }

    /// Whether a change is waiting to be published.
    pub fn is_pending(&self) -> (r: bool)
        ensures
            r == (self.state is PendingUpdate),
    {
        match self.state {
            DebounceState::PendingUpdate { .. } => true,
            DebounceState::Idle => false,
        }
    }

    /// Whether a rescan is due at `now`.
    pub fn is_due_at(&self, now: u64) -> (r: bool)
        ensures
            r == rescan_due(self.state, now),
    {
        match self.state {
            DebounceState::PendingUpdate { since } => now >= since && now - since >= DEBOUNCE_MS,
            DebounceState::Idle => false,
        }
    }

    /// Takes one event, seen at time `now` in milliseconds, and says what the
    /// loop does next.
    pub fn on_event(&mut self, event: &WatchEvent, now: u64) -> (action: LoopAction)
        ensures
            final(self).state == next_state(old(self).state, event@, now),
            action == next_action(old(self).state, event@, now),
    {
        let due = self.is_due_at(now);
        match event {
            WatchEvent::Disconnected => {
                return LoopAction::Stop;
            },
            WatchEvent::Changed(paths) => {
                if event_is_relevant(paths) {
                    self.state = DebounceState::PendingUpdate { since: now };
                } else if due {
                    self.state = DebounceState::Idle;
                }
            },
            _ => {
                if due {
                    self.state = DebounceState::Idle;
                }
            },
        }
        if due {
            LoopAction::Rescan
        } else {
            LoopAction::Wait
        }
    }
}

/// The paths of the enabled directories, in order.
pub open spec fn enabled_paths(directories: Seq<DirectoryModel>) -> Seq<Seq<char>>
    decreases directories.len(),
{
    if directories.len() == 0 {
        Seq::empty()
    } else {
        let before = enabled_paths(directories.drop_last());
        if directories.last().enabled {
            before.push(directories.last().path)
        } else {
            before
        }
    }
}

/// Those of `targets` whose registration succeeded. A target without an
/// outcome counts as failed.
pub open spec fn registered(targets: Seq<Seq<char>>, outcomes: Seq<bool>) -> Seq<Seq<char>>
    decreases targets.len(),
{
    if targets.len() == 0 {
        Seq::empty()
    } else {
        let before = registered(targets.drop_last(), outcomes);
        let last = targets.len() - 1;
        if last < outcomes.len() && outcomes[last] {
            before.push(targets.last())
        } else {
            before
        }
    }
}

/// A path is among the enabled paths exactly when an enabled directory has it.
pub proof fn lemma_enabled_paths(directories: Seq<DirectoryModel>, path: Seq<char>)
    ensures
        enabled_paths(directories).contains(path) <==> exists|i: int|
            0 <= i < directories.len() && (#[trigger] directories[i]).enabled && directories[i].path
                == path,
    decreases directories.len(),
{
    if directories.len() > 0 {
        let front = directories.drop_last();
        let last = directories.last();
        lemma_enabled_paths(front, path);
        let before = enabled_paths(front);
        if enabled_paths(directories).contains(path) {
            if before.contains(path) {
                let i = choose|i: int|
                    0 <= i < front.len() && (#[trigger] front[i]).enabled && front[i].path == path;
                assert(directories[i] == front[i]);
            } else {
                let k = choose|k: int|
                    0 <= k < enabled_paths(directories).len() && enabled_paths(directories)[k]
                        == path;
                if last.enabled {
                    if k < before.len() {
                        assert(before[k] == path);
                        assert(before.contains(path));
                    }
                    assert(directories[directories.len() - 1] == last);
                }
            }
        }
        if exists|i: int|
            0 <= i < directories.len() && (#[trigger] directories[i]).enabled && directories[i].path
                == path {
            let i = choose|i: int|
                0 <= i < directories.len() && (#[trigger] directories[i]).enabled
                    && directories[i].path == path;
            if i < front.len() {
                assert(front[i] == directories[i]);
                assert(before.contains(path));
                let k = choose|k: int| 0 <= k < before.len() && before[k] == path;
                assert(enabled_paths(directories)[k] == path);
            } else {
                assert(enabled_paths(directories) == before.push(path));
                assert(enabled_paths(directories)[before.len() as int] == path);
            }
        }
    }
}

/// Every registered path is one of the targets.
pub proof fn lemma_registered_subset(targets: Seq<Seq<char>>, outcomes: Seq<bool>, path: Seq<char>)
    requires
        registered(targets, outcomes).contains(path),
    ensures
        targets.contains(path),
    decreases targets.len(),
{
    if targets.len() > 0 {
        let before = registered(targets.drop_last(), outcomes);
        let k = choose|k: int|
            0 <= k < registered(targets, outcomes).len() && registered(targets, outcomes)[k]
                == path;
        if k < before.len() {
            assert(before[k] == path);
            lemma_registered_subset(targets.drop_last(), outcomes, path);
            let i = choose|i: int| 0 <= i < targets.drop_last().len() && targets.drop_last()[i] == path;
            assert(targets[i] == path);
        } else {
            assert(targets[targets.len() - 1] == path);
        }
    }
}

/// The index of the first directory that `wanted` holds of, or the number of
/// directories when it holds of none.
pub open spec fn first_index(
    directories: Seq<DirectoryModel>,
    wanted: spec_fn(DirectoryModel) -> bool,
) -> nat
    decreases directories.len(),
{
    if directories.len() == 0 || wanted(directories[0]) {
        0
    } else {
        1 + first_index(directories.skip(1), wanted)
    }
}

/// The first index is the one before which `wanted` holds of nothing.
pub proof fn lemma_first_index_is(
    directories: Seq<DirectoryModel>,
    wanted: spec_fn(DirectoryModel) -> bool,
    n: int,
)
    requires
        0 <= n <= directories.len(),
        forall|j: int| 0 <= j < n ==> !wanted(#[trigger] directories[j]),
        n == directories.len() || wanted(directories[n]),
    ensures
        first_index(directories, wanted) == n,
    decreases n,
{
    if n > 0 {
        let rest = directories.skip(1);
        assert(directories[0] == directories[0]);
        assert forall|j: int| 0 <= j < n - 1 implies !wanted(#[trigger] rest[j]) by {
            assert(rest[j] == directories[j + 1]);
        }
        lemma_first_index_is(rest, wanted, n - 1);
    }
}

/// Holds of the directories with the given path.
pub open spec fn with_path(path: Seq<char>) -> spec_fn(DirectoryModel) -> bool {
    |d: DirectoryModel| d.path == path
}

/// Holds of the directories with the given path that the user added.
pub open spec fn custom_with_path(path: Seq<char>) -> spec_fn(DirectoryModel) -> bool {
    |d: DirectoryModel| d.path == path && !d.is_default
}

/// The name under which a directory is listed: the final component of its
/// path, or `Unknown` when it has none.
pub open spec fn listed_name(expanded: Seq<char>) -> Seq<char> {
    match path_file_name(expanded) {
        Some(name) => name,
        None => "Unknown"@,
    }
}

/// The list after adding the directory `path`, whose expansion is
/// `expanded`: unchanged when a directory is listed under `path` already,
/// else with the new directory at its end, enabled.
pub open spec fn with_added(directories: Seq<DirectoryModel>, path: Seq<char>, expanded: Seq<char>) -> Seq<
    DirectoryModel,
> {
    if first_index(directories, with_path(path)) < directories.len() {
        directories
    } else {
        directories.push(
            DirectoryModel {
                path: expanded,
                name: listed_name(expanded),
                enabled: true,
                is_default: false,
            },
        )
    }
}

/// The list after toggling the first directory with the given path.
pub open spec fn with_toggled(directories: Seq<DirectoryModel>, path: Seq<char>) -> Seq<
    DirectoryModel,
> {
    let i = first_index(directories, with_path(path)) as int;
    if i < directories.len() {
        directories.update(i, DirectoryModel { enabled: !directories[i].enabled, ..directories[i] })
    } else {
        directories
    }
}

/// The list after removing the first directory with the given path that the
/// user added. A default directory cannot be removed.
pub open spec fn with_removed(directories: Seq<DirectoryModel>, path: Seq<char>) -> Seq<
    DirectoryModel,
> {
    let i = first_index(directories, custom_with_path(path)) as int;
    if i < directories.len() {
        directories.remove(i)
    } else {
        directories
    }
}

/// The monitor: the list of directories, and which of them are watched.
pub struct AchievementMonitor {
    directories: Vec<DirectoryConfig>,
    watched: Option<Vec<String>>,
}

impl AchievementMonitor {
    /// The configured directories.
    pub closed spec fn directories(&self) -> Seq<DirectoryModel> {
        self.directories.deep_view()
    }

    /// The paths under watch; `None` while the monitor is stopped.
    pub closed spec fn watched(&self) -> Option<Seq<Seq<char>>> {
        match self.watched {
            Some(paths) => Some(paths.deep_view()),
            None => None,
        }
    }

    /// A stopped monitor over the given directories.
    pub fn new(configs: Vec<DirectoryConfig>) -> (monitor: AchievementMonitor)
        ensures
            monitor.directories() == configs.deep_view(),
            monitor.watched() is None,
    {
        AchievementMonitor { directories: configs, watched: None }
    }

    /// A copy of the configured directories.
    pub fn get_directories(&self) -> (configs: Vec<DirectoryConfig>)
        ensures
            configs.deep_view() == self.directories(),
    {
        let mut configs: Vec<DirectoryConfig> = Vec::new();
        let mut i: usize = 0;
        while i < self.directories.len()
            invariant
                i <= self.directories.len(),
                configs.len() == i,
                forall|k: int| 0 <= k < i ==> configs[k]@ == self.directories[k]@,
            decreases self.directories.len() - i,
        {
            configs.push(self.directories[i].clone());
            i += 1;
        }
        assert(configs.deep_view() =~= self.directories.deep_view());
        configs
    }

    /// Replaces the configured directories. The watches stay as they are
    /// until the monitor is restarted.
    pub fn set_directories(&mut self, configs: Vec<DirectoryConfig>)
        ensures
            final(self).directories() == configs.deep_view(),
            final(self).watched() == old(self).watched(),
    {
        self.directories = configs;
    }

    /// Where the first directory with the given path stands, or the number
    /// of directories; with `custom_only`, default directories are passed
    /// over.
    fn find_path(&self, path: &String, custom_only: bool) -> (i: usize)
        ensures
            i <= self.directories.len(),
            custom_only ==> i == first_index(self.directories(), custom_with_path(path@)),
            !custom_only ==> i == first_index(self.directories(), with_path(path@)),
    {
        let mut i: usize = 0;
        while i < self.directories.len()
            invariant
                i <= self.directories.len(),
                forall|j: int|
                    0 <= j < i ==> !custom_with_path(path@)(#[trigger] self.directories()[j]),
                !custom_only ==> forall|j: int|
                    0 <= j < i ==> !with_path(path@)(#[trigger] self.directories()[j]),
            decreases self.directories.len() - i,
        {
            let d = &self.directories[i];
            assert(self.directories()[i as int] == d@);
            if d.path == *path && (!custom_only || !d.is_default) {
                proof {
                    if custom_only {
                        lemma_first_index_is(self.directories(), custom_with_path(path@), i as int);
                    } else {
                        lemma_first_index_is(self.directories(), with_path(path@), i as int);
                    }
                }
                return i;
            }
            i += 1;
        }
        proof {
            if custom_only {
                lemma_first_index_is(self.directories(), custom_with_path(path@), i as int);
            } else {
                lemma_first_index_is(self.directories(), with_path(path@), i as int);
            }
        }
        i
    }

    /// Adds the directory `path`, whose expansion is `expanded`, unless a
    /// directory is listed under `path` already. Returns whether the list
    /// changed, in which case the monitor is to be restarted.
    pub fn add_directory(&mut self, path: &str, expanded: &str) -> (changed: bool)
        ensures
            final(self).directories() == with_added(old(self).directories(), path@, expanded@),
            final(self).watched() == old(self).watched(),
            changed == (first_index(old(self).directories(), with_path(path@)) >= old(
                self,
            ).directories().len()),
    {
        let key = path.to_owned();
        if self.find_path(&key, false) < self.directories.len() {
            return false;
        }
        let name = match file_name_of(expanded) {
            Some(name) => name,
            None => "Unknown".to_owned(),
        };
        let added = DirectoryConfig {
            path: expanded.to_owned(),
            name,
            enabled: true,
            is_default: false,
        };
        let ghost before = self.directories.deep_view();
        self.directories.push(added);
        assert(self.directories.deep_view() == before.push(added@));
        true
    }

    /// Enables the first directory with the given path if it is disabled,
    /// and disables it if it is enabled. Returns whether there was one, in
    /// which case the monitor is to be restarted.
    pub fn toggle_directory(&mut self, path: &str) -> (changed: bool)
        ensures
            final(self).directories() == with_toggled(old(self).directories(), path@),
            final(self).watched() == old(self).watched(),
            changed == (first_index(old(self).directories(), with_path(path@)) < old(
                self,
            ).directories().len()),
    {
        let key = path.to_owned();
        let i = self.find_path(&key, false);
        if i >= self.directories.len() {
            return false;
        }
        let ghost before = self.directories.deep_view();
        let enabled = self.directories[i].enabled;
        self.directories[i].enabled = !enabled;
        assert(self.directories.deep_view() =~= before.update(
            i as int,
            DirectoryModel { enabled: !before[i as int].enabled, ..before[i as int] },
        ));
        true
    }

    /// Removes the first directory with the given path that the user added.
    /// Returns whether there was one, in which case the monitor is to be
    /// restarted.
    pub fn remove_directory(&mut self, path: &str) -> (changed: bool)
        ensures
            final(self).directories() == with_removed(old(self).directories(), path@),
            final(self).watched() == old(self).watched(),
            changed == (first_index(old(self).directories(), custom_with_path(path@)) < old(
                self,
            ).directories().len()),
    {
        let key = path.to_owned();
        let i = self.find_path(&key, true);
        if i >= self.directories.len() {
            return false;
        }
        let ghost before = self.directories.deep_view();
        self.directories.remove(i);
        assert(self.directories.deep_view() =~= before.remove(i as int));
        true
    }

    /// The paths of the enabled directories: the roots to watch and to scan.
    pub fn enabled_paths(&self) -> (paths: Vec<String>)
        ensures
            paths.deep_view() == enabled_paths(self.directories()),
    {
        let mut paths: Vec<String> = Vec::new();
        let ghost all = self.directories.deep_view();
        let mut i: usize = 0;
        while i < self.directories.len()
            invariant
                i <= self.directories.len(),
                all == self.directories.deep_view(),
                paths.deep_view() == enabled_paths(all.take(i as int)),
            decreases self.directories.len() - i,
        {
            let ghost before = paths.deep_view();
            proof {
                assert(all.take(i + 1).drop_last() == all.take(i as int));
                assert(all.take(i + 1).last() == self.directories[i as int]@);
            }
            if self.directories[i].enabled {
                let path = self.directories[i].path.clone();
                paths.push(path);
                assert(paths.deep_view() == before.push(path@));
            }
            i += 1;
        }
        assert(all.take(i as int) == all);
        paths
    }

    /// Whether the monitor is running.
    pub fn is_monitoring(&self) -> (r: bool)
        ensures
            r == (self.watched() is Some),
    {
        self.watched.is_some()
    }

    /// A copy of the paths under watch; empty while the monitor is stopped.
    pub fn watched_paths(&self) -> (paths: Vec<String>)
        ensures
            paths.deep_view() == match self.watched() {
                Some(w) => w,
                None => Seq::empty(),
            },
    {
        match &self.watched {
            Some(w) => crate::cache::clone_names(w),
            None => {
                let paths: Vec<String> = Vec::new();
                assert(paths.deep_view() =~= Seq::<Seq<char>>::empty());
                paths
            },
        }
    }

    /// Stops the monitor: every watch is released.
    pub fn stop_monitoring(&mut self)
        ensures
            final(self).watched() is None,
            final(self).directories() == old(self).directories(),
    {
        self.watched = None;
    }

    /// Starts the monitor. The caller has tried to register a watch for each
    /// of `enabled_paths()`, in order, and reports in `outcomes` which
    /// registrations succeeded. Any earlier watches are gone; the paths that
    /// were registered are now under watch, and a failed registration leaves
    /// its directory out without stopping the others. Returns the roots of the
    /// scan that is published at once: all enabled ones.
    pub fn start_monitoring(&mut self, outcomes: &[bool]) -> (scan: Vec<String>)
        ensures
            final(self).directories() == old(self).directories(),
            final(self).watched() == Some(
                registered(enabled_paths(old(self).directories()), outcomes@),
            ),
            scan.deep_view() == enabled_paths(old(self).directories()),
    {
        let targets = self.enabled_paths();
        let mut watched: Vec<String> = Vec::new();
        let ghost all = targets.deep_view();
        let mut i: usize = 0;
        while i < targets.len()
            invariant
                i <= targets.len(),
                all == targets.deep_view(),
                watched.deep_view() == registered(all.take(i as int), outcomes@),
            decreases targets.len() - i,
        {
            let ghost before = watched.deep_view();
            proof {
                assert(all.take(i + 1).drop_last() == all.take(i as int));
                assert(all.take(i + 1).last() == targets[i as int]@);
            }
            if i < outcomes.len() && outcomes[i] {
                let path = targets[i].clone();
                watched.push(path);
                assert(watched.deep_view() == before.push(path@));
            }
            i += 1;
        }
        assert(all.take(i as int) == all);
        self.watched = Some(watched);
        targets
    }

    /// Stops the monitor and starts it again from the current list of
    /// directories. The watches are rebuilt as a whole.
    pub fn restart_monitoring(&mut self, outcomes: &[bool]) -> (scan: Vec<String>)
        ensures
            final(self).directories() == old(self).directories(),
            final(self).watched() == Some(
                registered(enabled_paths(old(self).directories()), outcomes@),
            ),
            scan.deep_view() == enabled_paths(old(self).directories()),
    {
        self.stop_monitoring();
        self.start_monitoring(outcomes)
    }

    /// The snapshot of all games, without waiting for the debouncer.
    /// `listings[i]` is what was found on disk for the root number `i` of
    /// `enabled_paths()`, expanded against `home`. A listing of anything else
    /// is left out: a directory that is disabled, or not configured at all,
    /// shows no game.
    pub fn get_current_achievements(&self, home: Option<&str>, listings: &[DirectoryListing]) -> (games:
        Vec<GameAchievements>)
        ensures
            games.deep_view() == snapshot(
                enabled_paths(self.directories()),
                opt_str(home),
                listings.deep_view(),
            ),
            forall|i: int| 0 <= i < games.len() ==> (#[trigger] games[i]).achievements.len() > 0,
    {
        let roots = self.enabled_paths();
        let mut games: Vec<GameAchievements> = Vec::new();
        let ghost all = listings.deep_view();
        let ghost enabled = roots.deep_view();
        let mut i: usize = 0;
        while i < listings.len()
            invariant
                i <= listings.len(),
                all == listings.deep_view(),
                enabled == roots.deep_view(),
                games.deep_view() == snapshot_upto(enabled, opt_str(home), all, i as int),
                forall|k: int|
                    0 <= k < games.len() ==> (#[trigger] games[k]).achievements.len() > 0,
            decreases listings.len() - i,
        {
            let ghost before = games.deep_view();
            assert(all[i as int] == listings[i as int]@);
            if i < roots.len() {
                assert(enabled[i as int] == roots[i as int]@);
                let want = expand_path_from(roots[i].as_str(), home);
                if want == listings[i].path {
                    let folders = listings[i].folders.as_slice();
                    assert(folders.deep_view() == listings[i as int]@.folders);
                    let mut found = AchievementParser::parse_directory(
                        listings[i].path.as_str(),
                        folders,
                    );
                    let ghost added = found.deep_view();
                    games.append(&mut found);
                    assert(games.deep_view() == before + added);
                }
            }
            i += 1;
        }
        games
    }
}

/// Whether the listing number `i` is that of the enabled root number `i`.
pub open spec fn belongs(
    enabled: Seq<Seq<char>>,
    home: Option<Seq<char>>,
    listings: Seq<DirectoryListingModel>,
    i: int,
) -> bool {
    0 <= i < enabled.len() && i < listings.len() && listings[i].path == expanded(enabled[i], home)
}

/// The games of the first `n` listings that belong to an enabled root.
pub open spec fn snapshot_upto(
    enabled: Seq<Seq<char>>,
    home: Option<Seq<char>>,
    listings: Seq<DirectoryListingModel>,
    n: int,
) -> Seq<GameModel>
    decreases n,
{
    if n <= 0 {
        Seq::empty()
    } else {
        let before = snapshot_upto(enabled, home, listings, n - 1);
        if belongs(enabled, home, listings, n - 1) {
            before + directory_games(listings[n - 1].path, listings[n - 1].folders)
        } else {
            before
        }
    }
}

/// The snapshot: the games of each enabled root, one root after the other,
/// from the listing that was made of it.
pub open spec fn snapshot(
    enabled: Seq<Seq<char>>,
    home: Option<Seq<char>>,
    listings: Seq<DirectoryListingModel>,
) -> Seq<GameModel> {
    snapshot_upto(enabled, home, listings, listings.len() as int)
}

/// With a listing for each enabled root, the snapshot is the scan of these
/// listings.
pub proof fn law_snapshot_is_the_scan(
    enabled: Seq<Seq<char>>,
    home: Option<Seq<char>>,
    listings: Seq<DirectoryListingModel>,
    n: int,
)
    requires
        0 <= n <= listings.len(),
        forall|i: int| 0 <= i < n ==> belongs(enabled, home, listings, i),
    ensures
        snapshot_upto(enabled, home, listings, n) == all_games(listings.take(n)),
    decreases n,
{
    if n > 0 {
        law_snapshot_is_the_scan(enabled, home, listings, n - 1);
        assert(listings.take(n).drop_last() == listings.take(n - 1));
        assert(listings.take(n).last() == listings[n - 1]);
    }
}

/// Every game of the snapshot lies under an enabled directory: its
/// directory is the expansion of the path of one.
pub proof fn law_snapshot_from_enabled_only(
    directories: Seq<DirectoryModel>,
    home: Option<Seq<char>>,
    listings: Seq<DirectoryListingModel>,
    n: int,
    k: int,
)
    requires
        0 <= n <= listings.len(),
        0 <= k < snapshot_upto(enabled_paths(directories), home, listings, n).len(),
    ensures
        exists|d: int|
            0 <= d < directories.len() && (#[trigger] directories[d]).enabled && snapshot_upto(
                enabled_paths(directories),
                home,
                listings,
                n,
            )[k].directory == expanded(directories[d].path, home),
    decreases n,
{
    let enabled = enabled_paths(directories);
    let before = snapshot_upto(enabled, home, listings, n - 1);
    if k < before.len() {
        law_snapshot_from_enabled_only(directories, home, listings, n - 1, k);
        assert(snapshot_upto(enabled, home, listings, n)[k] == before[k]);
    } else {
        assert(belongs(enabled, home, listings, n - 1));
        let found = directory_games(listings[n - 1].path, listings[n - 1].folders);
        law_games_lie_in_their_directory(listings[n - 1].path, listings[n - 1].folders);
        assert(snapshot_upto(enabled, home, listings, n)[k] == found[k - before.len()]);
        let path = enabled[n - 1];
        assert(enabled.contains(path));
        lemma_enabled_paths(directories, path);
    }
}

/// A directory that is disabled shows no game in the snapshot, as long as
/// no enabled directory stands for the same place.
pub proof fn law_snapshot_leaves_disabled_out(
    directories: Seq<DirectoryModel>,
    home: Option<Seq<char>>,
    listings: Seq<DirectoryListingModel>,
    place: Seq<char>,
)
    requires
        forall|d: int|
            0 <= d < directories.len() && (#[trigger] directories[d]).enabled ==> expanded(
                directories[d].path,
                home,
            ) != place,
    ensures
        forall|k: int|
            0 <= k < snapshot(enabled_paths(directories), home, listings).len() ==> (
            #[trigger] snapshot(enabled_paths(directories), home, listings)[k]).directory != place,
{
    let all = snapshot(enabled_paths(directories), home, listings);
    assert forall|k: int| 0 <= k < all.len() implies (#[trigger] all[k]).directory != place by {
        law_snapshot_from_enabled_only(directories, home, listings, listings.len() as int, k);
    }
}

/// After a start or restart, a path that no enabled directory has is neither
/// watched nor scanned.
pub proof fn law_disabled_directory_left_out(
    directories: Seq<DirectoryModel>,
    outcomes: Seq<bool>,
    path: Seq<char>,
)
    requires
        forall|i: int|
            0 <= i < directories.len() && (#[trigger] directories[i]).path == path
                ==> !directories[i].enabled,
    ensures
        !enabled_paths(directories).contains(path),
        !registered(enabled_paths(directories), outcomes).contains(path),
{
    lemma_enabled_paths(directories, path);
    if registered(enabled_paths(directories), outcomes).contains(path) {
        lemma_registered_subset(enabled_paths(directories), outcomes, path);
    }
}

} // verus!
