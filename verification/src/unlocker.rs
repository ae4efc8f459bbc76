//! Unlocking achievements: from a request to the entries to store, and the
//! text of the achievement file that stores them.

use crate::json::{
    bool_value, clone_object, integer_value, json_document, json_from_str, members_map,
    new_object, object_get, object_insert, object_members, object_value, pretty_json,
    value_to_pretty_string, JsonModel, JsonNumber,
};
use crate::models::{
    last_named, AchievementEntry, AchievementToUnlockModel, EntryModel, TimeFormat, Timestamp,
    TimestampModel, UnlockMode, UnlockOptions,
};
use crate::parser::{
    apply_line, file_location, fresh_entry, ini_entries, is_section_header, law_ini_assignment,
    parse_ini, section_name, AchievementFileKind, AchievementParser,
};
use crate::text::{
    contains_text, decimal, is_whitespace, lemma_decimal, lemma_find_char_is,
    lemma_parse_i32_signed_decimal, lemma_parse_signed_decimal, lemma_parse_two_digits, lines,
    lowercase, opt_str, opt_text, parse_i32, parse_i32_text, parse_u32, parse_u32_text,
    push_signed_decimal, push_two_digits, signed_decimal, text_contains, text_equals,
    to_lowercase, trim, two_digits,
};
use chrono::{Datelike, Timelike};
use rand::Rng;
use vstd::prelude::*;
use vstd::string::*;

verus! {

/// A date and a time of day on the civil calendar, to the minute.
#[derive(Debug, Clone, Copy, PartialEq, Eq, Structural)]
pub struct CivilTime {
    pub year: i32,
    pub month: u32,
    pub day: u32,
    pub hour: u32,
    pub minute: u32,
}

/// The first year of the calendar.
pub const MIN_YEAR: i32 = -262143;

/// The last year of the calendar.
pub const MAX_YEAR: i32 = 262142;

/// Leap years of the proleptic Gregorian calendar.
pub open spec fn is_leap_year(year: int) -> bool {
    year % 4 == 0 && (year % 100 != 0 || year % 400 == 0)
}

/// The number of days of a month.
pub open spec fn days_in_month(year: int, month: int) -> int {
    if month == 2 {
        if is_leap_year(year) {
            29
        } else {
            28
        }
    } else if month == 4 || month == 6 || month == 9 || month == 11 {
        30
    } else {
        31
    }
}

/// Whether year, month and day name a day of the calendar.
pub open spec fn valid_date(year: i32, month: u32, day: u32) -> bool {
    &&& MIN_YEAR <= year <= MAX_YEAR
    &&& 1 <= month <= 12
    &&& 1 <= day <= days_in_month(year as int, month as int)
}

/// Whether a civil time names a minute of a day of the calendar.
pub open spec fn valid_civil(c: CivilTime) -> bool {
    valid_date(c.year, c.month, c.day) && c.hour < 24 && c.minute < 60
}

/// How many of the years before `year` are leap years, counted from the
/// year 1 of the calendar onwards, and backwards with a negative count.
pub open spec fn leap_years_before(year: int) -> int {
    (year - 1) / 4 - (year - 1) / 100 + (year - 1) / 400
}

/// The days from 1 January 1970 to 1 January of `year`.
pub open spec fn days_before_year(year: int) -> int {
    365 * (year - 1970) + leap_years_before(year) - leap_years_before(1970)
}

/// The days of `year` that lie before its month `month`.
pub open spec fn days_before_month(year: int, month: int) -> int
    decreases month,
{
    if month <= 1 {
        0
    } else {
        days_before_month(year, month - 1) + days_in_month(year, month - 1)
    }
}

/// The days from 1 January 1970 to the given day.
pub open spec fn days_from_epoch(year: int, month: int, day: int) -> int {
    days_before_year(year) + days_before_month(year, month) + day - 1
}

/// The seconds since the epoch at which a clock that keeps UTC shows the
/// civil time.
pub open spec fn utc_seconds(c: CivilTime) -> int {
    days_from_epoch(c.year as int, c.month as int, c.day as int) * 86400 + c.hour * 3600 + c.minute
        * 60
}

/// That a local clock may show the civil time `c` at the moment `secs`: the
/// moment lies less than a day from the one at which UTC shows `c`, as no
/// time zone is a full day off UTC.
pub open spec fn reads_as(secs: i64, c: CivilTime) -> bool {
    utc_seconds(c) - 86400 < secs < utc_seconds(c) + 86400
}

proof fn lemma_month_step(year: int, month: int)
    requires
        month >= 1,
    ensures
        days_before_month(year, month + 1) == days_before_month(year, month) + days_in_month(
            year,
            month,
        ),
{
}

proof fn lemma_year_length(year: int)
    ensures
        days_before_month(year, 13) == if is_leap_year(year) {
            366int
        } else {
            365int
        },
{
    reveal_with_fuel(days_before_month, 14);
}

proof fn lemma_leap_step(year: int)
    ensures
        leap_years_before(year + 1) - leap_years_before(year) == if is_leap_year(year) {
            1int
        } else {
            0int
        },
{
}

/// The days are numbered one after the other, from 0 for 1 January 1970:
/// the day after a day has the next number, within a month, from one month
/// to the next, and from one year to the next.
pub proof fn law_days_follow_each_other(year: int, month: int, day: int)
    requires
        1 <= month <= 12,
        1 <= day <= days_in_month(year, month),
    ensures
        days_from_epoch(1970, 1, 1) == 0,
        day < days_in_month(year, month) ==> days_from_epoch(year, month, day + 1)
            == days_from_epoch(year, month, day) + 1,
        day == days_in_month(year, month) && month < 12 ==> days_from_epoch(year, month + 1, 1)
            == days_from_epoch(year, month, day) + 1,
        day == days_in_month(year, month) && month == 12 ==> days_from_epoch(year + 1, 1, 1)
            == days_from_epoch(year, month, day) + 1,
{
    lemma_month_step(year, month);
    assert(days_before_month(1970, 1) == 0);
    assert(days_before_month(year + 1, 1) == 0);
    if month == 12 {
        lemma_year_length(year);
        lemma_leap_step(year);
    }
}

/// Not verified: `chrono::NaiveDate::from_ymd_opt`, asked only whether it
/// returns a date. Claims that it does exactly for the days of the proleptic
/// Gregorian calendar in the years that `chrono` supports.
#[verifier::external_body]
fn date_is_valid(year: i32, month: u32, day: u32) -> (r: bool)
    ensures
        r == valid_date(year, month, day),
{
    chrono::NaiveDate::from_ymd_opt(year, month, day).is_some()
}

/// Not verified: `NaiveDateTime::and_local_timezone` with `chrono::Local`,
/// from and to plain numbers. Gives the seconds since the epoch at which the
/// local clock shows the given civil time, if there is exactly one such
/// moment. The answer depends on the time zone of the machine. Claimed is
/// only that the moment lies less than a day from the one at which UTC shows
/// that civil time: the offset of a zone is less than a day.
#[verifier::external_body]
fn local_timestamp(c: CivilTime) -> (r: Option<i64>)
    requires
        valid_civil(c),
    ensures
        match r {
            Some(secs) => reads_as(secs, c),
            None => true,
        },
{
    let date = chrono::NaiveDate::from_ymd_opt(c.year, c.month, c.day)?;
    let time = chrono::NaiveTime::from_hms_opt(c.hour, c.minute, 0)?;
    let moment = chrono::NaiveDateTime::new(date, time).and_local_timezone(chrono::Local).single()?;
    Some(moment.timestamp())
}

/// Not verified: `SystemTime::now`, in whole seconds since the epoch;
/// `None` when the clock stands before the epoch. The answer depends on the
/// clock, so nothing is claimed of it.
#[verifier::external_body]
fn now_seconds() -> (r: Option<i64>)
{
    let since = std::time::SystemTime::now().duration_since(std::time::UNIX_EPOCH).ok()?;
    Some(since.as_secs() as i64)
}

/// Not verified: `Rng::gen_range` on `rand::thread_rng()`. The answer is
/// random; claimed is only that it lies in the half-open range.
#[verifier::external_body]
fn random_between(low: i64, high: i64) -> (r: i64)
    requires
        low < high,
    ensures
        low <= r < high,
{
    rand::thread_rng().gen_range(low..high)
}

/// What a clock can show: a month from 1 to 12, a day from 1 to 31, an hour
/// below 24 and a minute below 60. The year is left open.
pub open spec fn clock_reading(c: CivilTime) -> bool {
    1 <= c.month <= 12 && 1 <= c.day <= 31 && c.hour < 24 && c.minute < 60
}

/// Not verified: `chrono::DateTime::from_timestamp`, shown on the local
/// clock. The answer depends on the time zone of the machine; claimed is
/// only that it is what a clock can show. At the ends of the calendar the
/// year may lie one beyond its first or last year.
#[verifier::external_body]
fn local_civil_time(secs: i64) -> (r: Option<CivilTime>)
    ensures
        match r {
            Some(c) => clock_reading(c),
            None => true,
        },
{
    let local = chrono::DateTime::from_timestamp(secs, 0)?.with_timezone(&chrono::Local);
    Some(
        CivilTime {
            year: local.year(),
            month: local.month(),
            day: local.day(),
            hour: local.hour(),
            minute: local.minute(),
        },
    )
}

/// The number that a part of a timestamp writes, or `fallback`.
pub open spec fn part_or(part: Seq<char>, fallback: u32) -> u32 {
    match parse_u32(part) {
        Some(n) => n,
        None => fallback,
    }
}

/// The hour on the 24-hour clock. With `PM` the hours 1 to 11 move to the
/// afternoon; with `AM` the hour 12 is midnight.
pub open spec fn hour_of_day(hour: u32, ampm: Option<Seq<char>>) -> u32 {
    if ampm == Some("PM"@) && hour != 12 {
        if hour <= u32::MAX - 12 {
            (hour + 12) as u32
        } else {
            u32::MAX
        }
    } else if ampm == Some("AM"@) && hour == 12 {
        0
    } else {
        hour
    }
}

/// The civil time that a timestamp names. A part that is no number counts
/// as day 1, month 1, year 2024, hour 0, minute 0. A date that does not
/// exist is replaced by 1 January 1970, a time of day that does not exist
/// by midnight.
pub open spec fn civil_time_of(t: TimestampModel) -> CivilTime {
    let day = part_or(t.day, 1);
    let month = part_or(t.month, 1);
    let year = match parse_i32(t.year) {
        Some(y) => y,
        None => 2024i32,
    };
    let minute = part_or(t.minute, 0);
    let hour = hour_of_day(part_or(t.hour, 0), t.ampm);
    let date_ok = valid_date(year, month, day);
    let time_ok = hour < 24 && minute < 60;
    CivilTime {
        year: if date_ok {
            year
        } else {
            1970
        },
        month: if date_ok {
            month
        } else {
            1
        },
        day: if date_ok {
            day
        } else {
            1
        },
        hour: if time_ok {
            hour
        } else {
            0
        },
        minute: if time_ok {
            minute
        } else {
            0
        },
    }
}

/// The civil time that a timestamp names is always a valid one.
pub proof fn lemma_civil_time_valid(t: TimestampModel)
    ensures
        valid_civil(civil_time_of(t)),
{
}

/// The hour as a timestamp shows it: on the 12-hour clock midnight and noon
/// are hour 12.
pub open spec fn shown_hour(hour: u32, format: TimeFormat) -> u32 {
    match format {
        TimeFormat::TwelveHour => if hour % 12 == 0 {
            12
        } else {
            hour % 12
        },
        TimeFormat::TwentyFourHour => hour,
    }
}

/// The half of the day as a timestamp shows it, on the 12-hour clock only.
pub open spec fn shown_half(hour: u32, format: TimeFormat) -> Option<Seq<char>> {
    match format {
        TimeFormat::TwelveHour => if hour >= 12 {
            Some("PM"@)
        } else {
            Some("AM"@)
        },
        TimeFormat::TwentyFourHour => None,
    }
}

/// The timestamp that shows a civil time in the given format.
pub open spec fn timestamp_showing(c: CivilTime, format: TimeFormat) -> TimestampModel {
    TimestampModel {
        day: two_digits(c.day as nat),
        month: two_digits(c.month as nat),
        year: signed_decimal(c.year as int),
        hour: two_digits(shown_hour(c.hour, format) as nat),
        minute: two_digits(c.minute as nat),
        ampm: shown_half(c.hour, format),
    }
}

/// A timestamp with no part filled in.
pub open spec fn blank_timestamp() -> TimestampModel {
    TimestampModel {
        day: Seq::empty(),
        month: Seq::empty(),
        year: Seq::empty(),
        hour: Seq::empty(),
        minute: Seq::empty(),
        ampm: None,
    }
}

/// What holds of the unlock time that the mode of a request gives. It is 0
/// where the local clock shows the time never or twice. Else, with the mode
/// `Custom`, the local clock shows at that moment the time that the request
/// names, or the time of a blank timestamp where it names none; with the
/// other modes it shows some valid civil time, which the clock or chance
/// picked.
pub open spec fn is_global_time(mode: UnlockMode, custom: Option<Timestamp>, secs: i64) -> bool {
    secs == 0 || match mode {
        UnlockMode::Custom => reads_as(
            secs,
            civil_time_of(
                match custom {
                    Some(t) => t@,
                    None => blank_timestamp(),
                },
            ),
        ),
        _ => exists|c: CivilTime| valid_civil(c) && #[trigger] reads_as(secs, c),
    }
}

/// Whether an achievement of a request brings its own unlock time: all
/// five parts of its timestamp are filled in.
pub open spec fn has_own_time(t: TimestampModel) -> bool {
    t.day.len() > 0 && t.month.len() > 0 && t.year.len() > 0 && t.hour.len() > 0 && t.minute.len()
        > 0
}

/// The achievements of a request that are marked completed, in order.
pub open spec fn completed(achievements: Seq<AchievementToUnlockModel>) -> Seq<
    AchievementToUnlockModel,
>
    decreases achievements.len(),
{
    if achievements.len() == 0 {
        Seq::empty()
    } else {
        let before = completed(achievements.drop_last());
        if achievements.last().completed {
            before.push(achievements.last())
        } else {
            before
        }
    }
}

/// What holds of the unlock time of one achievement of a request. Its own
/// timestamp wins where all five parts of it are filled in: the time is 0
/// or a moment at which a local clock may show what the timestamp names.
/// Only otherwise does the mode of the request give the time.
pub open spec fn is_unlock_time(
    achievement: AchievementToUnlockModel,
    mode: UnlockMode,
    custom: Option<Timestamp>,
    secs: i64,
) -> bool {
    if has_own_time(achievement.timestamp) {
        secs == 0 || reads_as(secs, civil_time_of(achievement.timestamp))
    } else {
        is_global_time(mode, custom, secs)
    }
}

/// That `entries` are the entries of a request: one for each achievement
/// that is marked completed, under its name and in order, each unlocked, at
/// a time as `is_unlock_time` says.
pub open spec fn entries_of_request(
    achievements: Seq<AchievementToUnlockModel>,
    mode: UnlockMode,
    custom: Option<Timestamp>,
    entries: Seq<EntryModel>,
) -> bool {
    entries.len() == completed(achievements).len() && forall|i: int|
        0 <= i < entries.len() ==> (#[trigger] entries[i]).name == completed(achievements)[i].name
            && entries[i].achieved && is_unlock_time(
            completed(achievements)[i],
            mode,
            custom,
            entries[i].unlock_time,
        )
}

/// One entry of an achievement file in the INI form.
pub open spec fn rendered_entry(e: EntryModel) -> Seq<char> {
    seq!['['] + e.name + seq![']', '\n'] + "Achieved="@ + (if e.achieved {
        seq!['1']
    } else {
        seq!['0']
    }) + seq!['\n'] + "UnlockTime="@ + signed_decimal(e.unlock_time as int) + seq!['\n', '\n']
}

/// The text of an achievement file in the INI form.
pub open spec fn rendered_ini(entries: Seq<EntryModel>) -> Seq<char>
    decreases entries.len(),
{
    if entries.len() == 0 {
        Seq::empty()
    } else {
        rendered_ini(entries.drop_last()) + rendered_entry(entries.last())
    }
}

/// The time that the JSON form stores for an entry: none for a locked one.
pub open spec fn stored_time(e: EntryModel) -> int {
    if e.achieved {
        e.unlock_time as int
    } else {
        0
    }
}

/// The fields of an achievement in the JSON form after it was stored:
/// those that it had, when it was an object, with `earned` and
/// `earned_time` set from the entry.
pub open spec fn gse_fields(previous: Option<JsonModel>, e: EntryModel) -> Map<
    Seq<char>,
    JsonModel,
> {
    let base = match previous {
        Some(JsonModel::Object(fields)) => members_map(fields),
        _ => Map::empty(),
    };
    base.insert("earned"@, JsonModel::Bool(e.achieved)).insert(
        "earned_time"@,
        JsonModel::Number(JsonNumber::Integer(stored_time(e))),
    )
}

/// What a map holds under a key, if anything.
pub open spec fn lookup(map: Map<Seq<char>, JsonModel>, key: Seq<char>) -> Option<JsonModel> {
    if map.contains_key(key) {
        Some(map[key])
    } else {
        None
    }
}

/// That `after` is the root object `before` with the entries stored in it.
/// A member that no entry names is as it was. A member that an entry names
/// is an object with the fields of `gse_fields`, for the last entry of that
/// name.
pub open spec fn gse_merged(
    before: Map<Seq<char>, JsonModel>,
    entries: Seq<EntryModel>,
    after: Map<Seq<char>, JsonModel>,
) -> bool {
    forall|name: Seq<char>|
        match #[trigger] last_named(entries, name) {
            None => lookup(after, name) == lookup(before, name),
            Some(e) => match lookup(after, name) {
                Some(JsonModel::Object(fields)) => members_map(fields) == gse_fields(
                    lookup(before, name),
                    e,
                ),
                _ => false,
            },
        }
}

/// The root object of an existing file in the JSON form: empty when there
/// is no file, or when its text is not a JSON object.
pub open spec fn existing_root(existing: Option<Seq<char>>) -> Map<Seq<char>, JsonModel> {
    match existing {
        Some(text) => match json_document(text) {
            Some(JsonModel::Object(members)) => members_map(members),
            _ => Map::empty(),
        },
        None => Map::empty(),
    }
}

/// A path that holds `gse saves`, in any case of letters, belongs to a
/// loader that keeps its files in the JSON form.
pub open spec fn is_gse_path(expanded: Seq<char>) -> bool {
    contains_text(lowercase(expanded), "gse saves"@)
}

/// The form in which an unlock is stored: the JSON form where a file in
/// that form exists already or the root belongs to such a loader, else the
/// INI form.
pub open spec fn stores_json(expanded: Seq<char>, json_exists: bool) -> bool {
    json_exists || is_gse_path(expanded)
}

/// What is to be done on disk to store an unlock.
#[derive(Debug, PartialEq, Eq)]
pub struct UnlockPlan {
    /// A file to delete first, if it exists.
    pub delete: Option<String>,
    /// The file to write.
    pub path: String,
    /// What to write.
    pub content: String,
}

/// Why an unlock could not be planned.
#[derive(Debug, Clone, Copy, PartialEq, Eq, Structural)]
pub enum UnlockError {
    /// The achievement file could not be written as JSON.
    Serialize,
}

/// That `plan` stores `entries` for the game `game_id` under the root
/// `expanded`. In the JSON form the file is rewritten with the entries
/// stored in it, and nothing is deleted. In the INI form the file is
/// deleted and written anew from the entries alone.
pub open spec fn is_unlock_plan(
    plan: UnlockPlan,
    entries: Seq<EntryModel>,
    expanded: Seq<char>,
    game_id: Seq<char>,
    json_exists: bool,
    existing_json: Option<Seq<char>>,
) -> bool {
    if stores_json(expanded, json_exists) {
        &&& plan.delete is None
        &&& plan.path@ == file_location(expanded, game_id, AchievementFileKind::Json)
        &&& exists|members: Seq<(Seq<char>, JsonModel)>|
            plan.content@ == #[trigger] pretty_json(JsonModel::Object(members)) && gse_merged(
                existing_root(existing_json),
                entries,
                members_map(members),
            )
    } else {
        &&& plan.path@ == file_location(expanded, game_id, AchievementFileKind::Ini)
        &&& opt_text(plan.delete) == Some(plan.path@)
        &&& plan.content@ == rendered_ini(entries)
    }
}

/// The writer of achievement files: what a timestamp means, and the text of
/// a file in either form.
pub struct AchievementWriter;

impl AchievementWriter {
    /// The civil time that a timestamp names.
    pub fn civil_time(timestamp: &Timestamp) -> (c: CivilTime)
        ensures
            c == civil_time_of(timestamp@),
            valid_civil(c),
    {
        let day = match parse_u32_text(timestamp.day.as_str()) {
            Some(n) => n,
            None => 1,
        };
        let month = match parse_u32_text(timestamp.month.as_str()) {
            Some(n) => n,
            None => 1,
        };
        let year = match parse_i32_text(timestamp.year.as_str()) {
            Some(n) => n,
            None => 2024,
        };
        let minute = match parse_u32_text(timestamp.minute.as_str()) {
            Some(n) => n,
            None => 0,
        };
        let mut hour = match parse_u32_text(timestamp.hour.as_str()) {
            Some(n) => n,
            None => 0,
        };
        match &timestamp.ampm {
            Some(half) => {
                if text_equals(half.as_str(), "PM") && hour != 12 {
                    hour = if hour <= u32::MAX - 12 {
                        hour + 12
                    } else {
                        u32::MAX
                    };
                } else if text_equals(half.as_str(), "AM") && hour == 12 {
                    hour = 0;
                }
            },
            None => {},
        }
        let date_ok = date_is_valid(year, month, day);
        let time_ok = hour < 24 && minute < 60;
        CivilTime {
            year: if date_ok {
                year
            } else {
                1970
            },
            month: if date_ok {
                month
            } else {
                1
            },
            day: if date_ok {
                day
            } else {
                1
            },
            hour: if time_ok {
                hour
            } else {
                0
            },
            minute: if time_ok {
                minute
            } else {
                0
            },
        }
    }

    /// The moment that was found, in seconds since the epoch, and 0 when
    /// none was found.
    pub fn seconds_or_zero(found: Option<i64>) -> (secs: i64)
        ensures
            secs == match found {
                Some(s) => s,
                None => 0,
            },
    {
        match found {
            Some(s) => s,
            None => 0,
        }
    }

    /// The seconds since the epoch at which the local clock shows the time
    /// that the timestamp names; 0 when the local clock never shows it, or
    /// shows it twice. Which moment that is depends on the time zone of the
    /// machine: it lies less than a day from the moment at which UTC shows
    /// the civil time of the timestamp.
    pub fn timestamp_to_unix(timestamp: &Timestamp) -> (secs: i64)
        ensures
            secs == 0 || reads_as(secs, civil_time_of(timestamp@)),
    {
        Self::seconds_or_zero(local_timestamp(Self::civil_time(timestamp)))
    }

    /// The timestamp that shows a civil time in the given format.
    pub fn timestamp_for(c: CivilTime, format: TimeFormat) -> (t: Timestamp)
        ensures
            t@ == timestamp_showing(c, format),
    {
        let mut day = String::new();
        push_two_digits(&mut day, c.day);
        let mut month = String::new();
        push_two_digits(&mut month, c.month);
        let mut year = String::new();
        push_signed_decimal(&mut year, c.year as i64);
        let mut minute = String::new();
        push_two_digits(&mut minute, c.minute);
        let shown: u32 = match format {
            TimeFormat::TwelveHour => if c.hour % 12 == 0 {
                12
            } else {
                c.hour % 12
            },
            TimeFormat::TwentyFourHour => c.hour,
        };
        let mut hour = String::new();
        push_two_digits(&mut hour, shown);
        let ampm = match format {
            TimeFormat::TwelveHour => Some(
                if c.hour >= 12 {
                    "PM".to_owned()
                } else {
                    "AM".to_owned()
                },
            ),
            TimeFormat::TwentyFourHour => None,
        };
        proof {
            assert(Seq::<char>::empty() + two_digits(c.day as nat) == two_digits(c.day as nat));
            assert(Seq::<char>::empty() + two_digits(c.month as nat) == two_digits(
                c.month as nat,
            ));
            assert(Seq::<char>::empty() + two_digits(c.minute as nat) == two_digits(
                c.minute as nat,
            ));
            assert(Seq::<char>::empty() + two_digits(shown as nat) == two_digits(shown as nat));
            assert(Seq::<char>::empty() + signed_decimal(c.year as int) == signed_decimal(
                c.year as int,
            ));
        }
        Timestamp { day, month, year, hour, minute, ampm }
    }

    /// The text of an achievement file in the INI form: for each entry a
    /// `[name]` line, an `Achieved=` line with 1 or 0, an `UnlockTime=` line,
    /// and an empty line.
    pub fn render_achievement_file(achievements: &[AchievementEntry]) -> (content: String)
        ensures
            content@ == rendered_ini(achievements.deep_view()),
    {
        let mut content = String::new();
        let ghost all = achievements.deep_view();
        let mut i: usize = 0;
        while i < achievements.len()
            invariant
                i <= achievements.len(),
                all == achievements.deep_view(),
                content@ == rendered_ini(all.take(i as int)),
            decreases achievements.len() - i,
        {
            let entry = &achievements[i];
            let ghost before = content@;
            proof {
                assert(all.take(i + 1).drop_last() == all.take(i as int));
                assert(all.take(i + 1).last() == entry@);
                reveal_strlit("[");
                reveal_strlit("]\n");
                reveal_strlit("1");
                reveal_strlit("0");
                reveal_strlit("\n");
                reveal_strlit("\n\n");
            }
            content.append("[");
            content.append(entry.name.as_str());
            content.append("]\n");
            content.append("Achieved=");
            content.append(if entry.achieved {
                "1"
            } else {
                "0"
            });
            content.append("\n");
            content.append("UnlockTime=");
            push_signed_decimal(&mut content, entry.unlock_time);
            content.append("\n\n");
            assert(content@ =~= before + rendered_entry(entry@));
            i += 1;
        }
        assert(all.take(i as int) == all);
        content
    }
}

impl AchievementWriter {
    /// The root object of a file in the JSON form with the entries stored
    /// in it.
    fn merge_gse(existing: Option<&str>, achievements: &[AchievementEntry]) -> (root:
        serde_json::Map<String, serde_json::Value>)
        ensures
            gse_merged(
                existing_root(opt_str(existing)),
                achievements.deep_view(),
                members_map(object_members(root)),
            ),
    {
        let mut root = match existing {
            Some(text) => match json_from_str(text) {
                Ok(document) => match document.as_object() {
                    Some(map) => clone_object(map),
                    None => new_object(),
                },
                Err(_) => new_object(),
            },
            None => new_object(),
        };
        let ghost before = existing_root(opt_str(existing));
        let ghost all = achievements.deep_view();
        proof {
            assert(members_map(object_members(root)) =~= before);
        }
        let mut i: usize = 0;
        while i < achievements.len()
            invariant
                i <= achievements.len(),
                all == achievements.deep_view(),
                gse_merged(before, all.take(i as int), members_map(object_members(root))),
            decreases achievements.len() - i,
        {
            let ach = &achievements[i];
            let ghost prev = members_map(object_members(root));
            let ghost done = all.take(i as int);
            let mut fields = match object_get(&root, ach.name.as_str()) {
                Some(v) => match v.as_object() {
                    Some(map) => clone_object(map),
                    None => new_object(),
                },
                None => new_object(),
            };
            let ghost base = members_map(object_members(fields));
            object_insert(&mut fields, "earned".to_owned(), bool_value(ach.achieved));
            object_insert(
                &mut fields,
                "earned_time".to_owned(),
                integer_value(
                    if ach.achieved {
                        ach.unlock_time
                    } else {
                        0
                    },
                ),
            );
            let ghost stored = object_members(fields);
            object_insert(&mut root, ach.name.clone(), object_value(fields));
            proof {
                let now = members_map(object_members(root));
                let next = all.take(i + 1);
                assert(next.drop_last() == done);
                assert(next.last() == ach@);
                assert(base == match lookup(prev, ach@.name) {
                    Some(JsonModel::Object(f)) => members_map(f),
                    _ => Map::empty(),
                }) by {
                    assert(base =~= match lookup(prev, ach@.name) {
                        Some(JsonModel::Object(f)) => members_map(f),
                        _ => Map::empty(),
                    });
                }
                assert(members_map(stored) == gse_fields(lookup(prev, ach@.name), ach@));
                assert forall|name: Seq<char>|
                    match #[trigger] last_named(next, name) {
                        None => lookup(now, name) == lookup(before, name),
                        Some(e) => match lookup(now, name) {
                            Some(JsonModel::Object(f)) => members_map(f) == gse_fields(
                                lookup(before, name),
                                e,
                            ),
                            _ => false,
                        },
                    } by {
                    if name == ach@.name {
                        assert(last_named(next, name) == Some(ach@));
                        assert(lookup(now, name) == Some(JsonModel::Object(stored)));
                        match last_named(done, name) {
                            None => {
                                assert(lookup(prev, name) == lookup(before, name));
                            },
                            Some(e) => {
                                assert(gse_fields(lookup(prev, name), ach@) =~= gse_fields(
                                    lookup(before, name),
                                    ach@,
                                ));
                            },
                        }
                    } else {
                        assert(last_named(next, name) == last_named(done, name));
                        assert(lookup(now, name) == lookup(prev, name));
                    }
                }
            }
            i += 1;
        }
        assert(all.take(i as int) == all);
        root
    }

    /// What becomes of an attempt to write a file in the JSON form as text:
    /// the text when there is one, else the error of the library.
    pub fn written_text(outcome: Result<String, serde_json::Error>) -> (r: Result<
        String,
        UnlockError,
    >)
        ensures
            match outcome {
                Ok(text) => r == Ok::<String, UnlockError>(text),
                Err(_) => r == Err::<String, UnlockError>(UnlockError::Serialize),
            },
    {
        match outcome {
            Ok(text) => Ok(text),
            Err(_) => Err(UnlockError::Serialize),
        }
    }

    /// The text of a file in the JSON form after the entries were stored in
    /// it: what the file held stays, and each entry sets `earned` and
    /// `earned_time` of the member of its name. `existing` is the text of the
    /// file, if there is one. Whether the text can be written is for
    /// `serde_json` to say.
    pub fn render_gse_achievement_file(existing: Option<&str>, achievements: &[AchievementEntry]) -> (r:
        Result<String, UnlockError>)
        ensures
            match r {
                Ok(text) => exists|members: Seq<(Seq<char>, JsonModel)>|
                    text@ == #[trigger] pretty_json(JsonModel::Object(members)) && gse_merged(
                        existing_root(opt_str(existing)),
                        achievements.deep_view(),
                        members_map(members),
                    ),
                Err(e) => e == UnlockError::Serialize,
            },
    {
        let root = Self::merge_gse(existing, achievements);
        let ghost members = object_members(root);
        let document = object_value(root);
        let r = Self::written_text(value_to_pretty_string(&document));
        proof {
            if r is Ok {
                assert(r.unwrap()@ == pretty_json(JsonModel::Object(members)));
                assert(gse_merged(
                    existing_root(opt_str(existing)),
                    achievements.deep_view(),
                    members_map(members),
                ));
            }
        }
        r
    }
}

/// From an unlock request to the entries to store and the plan to store
/// them.
pub struct AchievementUnlocker;

impl AchievementUnlocker {
    /// Whether the root belongs to a loader that keeps the JSON form.
    pub fn path_is_gse(expanded_path: &str) -> (r: bool)
        ensures
            r == is_gse_path(expanded_path@),
    {
        let lower = to_lowercase(expanded_path);
        text_contains(lower.as_str(), "gse saves")
    }

    /// Plans the storing of entries for the game `game_id` under the root
    /// `expanded_path`. With `json_exists`, or under a root of a loader that
    /// keeps the JSON form, the file in the JSON form is rewritten with the
    /// entries stored in it; `existing_json` is its text, if it exists.
    /// Otherwise the file in the INI form is deleted and written anew with
    /// the entries alone.
    pub fn plan_unlock(
        entries: &[AchievementEntry],
        expanded_path: &str,
        game_id: &str,
        json_exists: bool,
        existing_json: Option<&str>,
    ) -> (r: Result<UnlockPlan, UnlockError>)
        ensures
            match r {
                Ok(plan) => is_unlock_plan(
                    plan,
                    entries.deep_view(),
                    expanded_path@,
                    game_id@,
                    json_exists,
                    opt_str(existing_json),
                ),
                Err(e) => e == UnlockError::Serialize && stores_json(expanded_path@, json_exists),
            },
    {
        if json_exists || Self::path_is_gse(expanded_path) {
            let path = AchievementParser::achievement_file_path(
                expanded_path,
                game_id,
                AchievementFileKind::Json,
            );
            match AchievementWriter::render_gse_achievement_file(existing_json, entries) {
                Ok(content) => Ok(UnlockPlan { delete: None, path, content }),
                Err(e) => Err(e),
            }
        } else {
            let path = AchievementParser::achievement_file_path(
                expanded_path,
                game_id,
                AchievementFileKind::Ini,
            );
            let content = AchievementWriter::render_achievement_file(entries);
            Ok(UnlockPlan { delete: Some(path.clone()), path, content })
        }
    }

    /// Plans an unlock request: the entries of `process_achievements`,
    /// stored as `plan_unlock` says. `expanded_path` is the expansion of the
    /// root that the request names.
    pub fn unlock_achievements(
        options: &UnlockOptions,
        expanded_path: &str,
        json_exists: bool,
        existing_json: Option<&str>,
    ) -> (r: Result<UnlockPlan, UnlockError>)
        ensures
            match r {
                Ok(plan) => exists|entries: Seq<EntryModel>|
                    entries_of_request(
                        options.achievements.deep_view(),
                        options.mode,
                        options.custom_timestamp,
                        entries,
                    )
                        && #[trigger] is_unlock_plan(
                        plan,
                        entries,
                        expanded_path@,
                        options.game_id@,
                        json_exists,
                        opt_str(existing_json),
                    ),
                Err(e) => e == UnlockError::Serialize && stores_json(expanded_path@, json_exists),
            },
    {
        let entries = Self::process_achievements(options);
        Self::plan_unlock(
            entries.as_slice(),
            expanded_path,
            options.game_id.as_str(),
            json_exists,
            existing_json,
        )
    }

    /// The unlock time of an achievement that brings none of its own. It is
    /// the present moment, a random moment of the past 365 days, or the
    /// moment that the request names, each cut to the minute as a timestamp
    /// shows it. The result depends on the clock, on chance and on the time
    /// zone of the machine. With a clock that stands before the epoch the
    /// present moment counts as 0.
    fn get_global_timestamp(
        mode: UnlockMode,
        custom_timestamp: &Option<Timestamp>,
        time_format: TimeFormat,
    ) -> (secs: i64)
        ensures
            is_global_time(mode, *custom_timestamp, secs),
    {
        let blank = Timestamp {
            day: String::new(),
            month: String::new(),
            year: String::new(),
            hour: String::new(),
            minute: String::new(),
            ampm: None,
        };
        match mode {
            UnlockMode::Current => {
                let civil = match now_seconds() {
                    Some(now) => local_civil_time(now),
                    None => None,
                };
                match civil {
                    Some(c) => {
                        let shown = AchievementWriter::timestamp_for(c, time_format);
                        proof {
                            lemma_civil_time_valid(shown@);
                        }
                        AchievementWriter::timestamp_to_unix(&shown)
                    },
                    None => 0,
                }
            },
            UnlockMode::Random => {
                let now = match now_seconds() {
                    Some(now) => now,
                    None => {
                        return 0;
                    },
                };
                let year_ago: i64 = if now >= i64::MIN + 31_536_000 {
                    now - 31_536_000
                } else {
                    i64::MIN
                };
                let secs = if year_ago < now {
                    random_between(year_ago, now)
                } else {
                    now
                };
                let civil = match local_civil_time(secs) {
                    Some(c) => c,
                    None => match local_civil_time(0) {
                        Some(c) => c,
                        None => CivilTime { year: 1970, month: 1, day: 1, hour: 0, minute: 0 },
                    },
                };
                let shown = AchievementWriter::timestamp_for(civil, time_format);
                proof {
                    lemma_civil_time_valid(shown@);
                }
                AchievementWriter::timestamp_to_unix(&shown)
            },
            UnlockMode::Custom => match custom_timestamp {
                Some(t) => AchievementWriter::timestamp_to_unix(t),
                None => {
                    assert(blank@ == blank_timestamp());
                    AchievementWriter::timestamp_to_unix(&blank)
                },
            },
        }
    }

    /// Whether all five parts of a timestamp are filled in.
    pub fn timestamp_is_filled(t: &Timestamp) -> (r: bool)
        ensures
            r == has_own_time(t@),
    {
        t.day.as_str().unicode_len() > 0 && t.month.as_str().unicode_len() > 0
            && t.year.as_str().unicode_len() > 0 && t.hour.as_str().unicode_len() > 0
            && t.minute.as_str().unicode_len() > 0
    }

    /// The entries to store for a request: one for each achievement that is
    /// marked completed, in order, each unlocked. An achievement whose
    /// timestamp is filled in is unlocked at that time, any other at the time
    /// that the mode of the request gives. Which moment a time is depends on
    /// the time zone of the machine and, by the mode, on the clock and on
    /// chance.
    pub fn process_achievements(options: &UnlockOptions) -> (entries: Vec<AchievementEntry>)
        ensures
            entries_of_request(
                options.achievements.deep_view(),
                options.mode,
                options.custom_timestamp,
                entries.deep_view(),
            ),
    {
        let mut entries: Vec<AchievementEntry> = Vec::new();
        let ghost all = options.achievements.deep_view();
        let mut i: usize = 0;
        while i < options.achievements.len()
            invariant
                i <= options.achievements.len(),
                all == options.achievements.deep_view(),
                entries.len() == completed(all.take(i as int)).len(),
                forall|k: int|
                    0 <= k < entries.len() ==> (#[trigger] entries[k]).name@ == completed(
                        all.take(i as int),
                    )[k].name && entries[k].achieved && is_unlock_time(
                        completed(all.take(i as int))[k],
                        options.mode,
                        options.custom_timestamp,
                        entries[k].unlock_time,
                    ),
            decreases options.achievements.len() - i,
        {
            let ach = &options.achievements[i];
            proof {
                assert(all.take(i + 1).drop_last() == all.take(i as int));
                assert(all.take(i + 1).last() == ach@);
            }
            if ach.completed {
                let unlock_time = if Self::timestamp_is_filled(&ach.timestamp) {
                    AchievementWriter::timestamp_to_unix(&ach.timestamp)
                } else {
                    Self::get_global_timestamp(
                        options.mode,
                        &options.custom_timestamp,
                        options.time_format,
                    )
                };
                entries.push(AchievementEntry { name: ach.name.clone(), achieved: true, unlock_time });
            }
            i += 1;
        }
        assert(all.take(i as int) == all);
        assert forall|k: int| 0 <= k < entries.deep_view().len() implies (
        #[trigger] entries.deep_view()[k]).name == completed(all)[k].name
            && entries.deep_view()[k].achieved && is_unlock_time(
            completed(all)[k],
            options.mode,
            options.custom_timestamp,
            entries.deep_view()[k].unlock_time,
        ) by {
            assert(entries.deep_view()[k] == entries[k]@);
        }
        entries
    }
}

/// The four lines that the INI form holds for one entry.
pub open spec fn entry_lines(e: EntryModel) -> Seq<Seq<char>> {
    seq![
        seq!['['] + e.name + seq![']'],
        "Achieved="@ + (if e.achieved {
            seq!['1']
        } else {
            seq!['0']
        }),
        "UnlockTime="@ + signed_decimal(e.unlock_time as int),
        Seq::<char>::empty(),
    ]
}

/// The lines that the INI form holds for a list of entries.
pub open spec fn all_entry_lines(entries: Seq<EntryModel>) -> Seq<Seq<char>>
    decreases entries.len(),
{
    if entries.len() == 0 {
        Seq::empty()
    } else {
        all_entry_lines(entries.drop_last()) + entry_lines(entries.last())
    }
}

proof fn lemma_lines_cons(first: Seq<char>, rest: Seq<char>)
    requires
        !first.contains('\n'),
    ensures
        lines(first + seq!['\n'] + rest) == seq![first] + lines(rest),
{
    let s = first + seq!['\n'] + rest;
    assert forall|j: int| 0 <= j < first.len() implies s[j] != '\n' by {
        assert(s[j] == first[j]);
        assert(first.contains(first[j]));
    }
    assert(s[first.len() as int] == '\n');
    lemma_find_char_is(s, '\n', first.len() as int);
    assert(s.take(first.len() as int) == first);
    assert(s.skip(first.len() as int + 1) == rest);
}

proof fn lemma_trim_identity(s: Seq<char>)
    requires
        s.len() == 0 || (!is_whitespace(s[0]) && !is_whitespace(s.last())),
    ensures
        trim(s) == s,
{
}

proof fn lemma_signed_decimal_shape(v: i64)
    ensures
        signed_decimal(v as int).len() > 0,
        !is_whitespace(signed_decimal(v as int)[0]),
        !is_whitespace(signed_decimal(v as int).last()),
        !signed_decimal(v as int).contains('\n'),
        !signed_decimal(v as int).contains('='),
{
    let s = signed_decimal(v as int);
    let m: nat = if v < 0 {
        (-(v as int)) as nat
    } else {
        v as nat
    };
    lemma_decimal(m);
    let d = decimal(m);
    assert(s.last() == d.last());
    assert('0' <= d[d.len() - 1] <= '9');
    assert('0' <= d[0] <= '9');
    assert forall|j: int| 0 <= j < s.len() implies s[j] != '\n' && s[j] != '=' by {
        if v < 0 {
            if j > 0 {
                assert(s[j] == d[j - 1]);
                assert('0' <= d[j - 1] <= '9');
            }
        } else {
            assert('0' <= d[j] <= '9');
        }
    }
    if s.contains('\n') {
        let j = choose|j: int| 0 <= j < s.len() && s[j] == '\n';
        assert(s[j] != '\n');
    }
    if s.contains('=') {
        let j = choose|j: int| 0 <= j < s.len() && s[j] == '=';
        assert(s[j] != '=');
    }
}

proof fn lemma_literal_without(text: Seq<char>, c: char)
    requires
        forall|j: int| 0 <= j < text.len() ==> text[j] != c,
    ensures
        !text.contains(c),
{
    if text.contains(c) {
        let j = choose|j: int| 0 <= j < text.len() && text[j] == c;
        assert(text[j] != c);
    }
}

/// The text of one entry, followed by any text, splits into the four lines
/// of the entry and the lines of what follows.
proof fn lemma_lines_of_entry(e: EntryModel, rest: Seq<char>)
    requires
        !e.name.contains('\n'),
    ensures
        lines(rendered_entry(e) + rest) == entry_lines(e) + lines(rest),
{
    reveal_strlit("Achieved=");
    reveal_strlit("UnlockTime=");
    let l1 = entry_lines(e)[0];
    let l2 = entry_lines(e)[1];
    let l3 = entry_lines(e)[2];
    let l4 = entry_lines(e)[3];
    let nl = seq!['\n'];
    lemma_signed_decimal_shape(e.unlock_time);
    let dec = signed_decimal(e.unlock_time as int);
    assert forall|j: int| 0 <= j < l1.len() implies l1[j] != '\n' by {
        if 0 < j < l1.len() - 1 {
            assert(l1[j] == e.name[j - 1]);
            assert(e.name.contains(e.name[j - 1]));
        }
    }
    lemma_literal_without(l1, '\n');
    lemma_literal_without(l2, '\n');
    assert forall|j: int| 0 <= j < l3.len() implies l3[j] != '\n' by {
        if j >= 11 {
            assert(l3[j] == dec[j - 11]);
            assert(dec.contains(dec[j - 11]));
        }
    }
    lemma_literal_without(l3, '\n');
    lemma_literal_without(l4, '\n');
    let r4 = l4 + nl + rest;
    let r3 = l3 + nl + r4;
    let r2 = l2 + nl + r3;
    let r1 = l1 + nl + r2;
    assert(rendered_entry(e) + rest =~= r1);
    lemma_lines_cons(l4, rest);
    lemma_lines_cons(l3, r4);
    lemma_lines_cons(l2, r3);
    lemma_lines_cons(l1, r2);
    assert(seq![l1] + (seq![l2] + (seq![l3] + (seq![l4] + lines(rest)))) =~= entry_lines(e)
        + lines(rest));
}

proof fn lemma_rendered_front(entries: Seq<EntryModel>)
    requires
        entries.len() > 0,
    ensures
        rendered_ini(entries) == rendered_entry(entries[0]) + rendered_ini(entries.skip(1)),
        all_entry_lines(entries) == entry_lines(entries[0]) + all_entry_lines(entries.skip(1)),
    decreases entries.len(),
{
    let front = entries.drop_last();
    if entries.len() == 1 {
        assert(front.len() == 0);
        assert(entries.skip(1).len() == 0);
        assert(entries.last() == entries[0]);
        assert(rendered_ini(front) == Seq::<char>::empty());
        assert(rendered_ini(entries.skip(1)) == Seq::<char>::empty());
        assert(all_entry_lines(front) == Seq::<Seq<char>>::empty());
        assert(all_entry_lines(entries.skip(1)) == Seq::<Seq<char>>::empty());
        assert(rendered_ini(entries) == rendered_ini(front) + rendered_entry(entries.last()));
        assert(all_entry_lines(entries) == all_entry_lines(front) + entry_lines(entries.last()));
        assert(rendered_ini(entries) =~= rendered_entry(entries[0]) + rendered_ini(
            entries.skip(1),
        ));
        assert(all_entry_lines(entries) =~= entry_lines(entries[0]) + all_entry_lines(
            entries.skip(1),
        ));
    } else {
        lemma_rendered_front(front);
        assert(front.skip(1) == entries.skip(1).drop_last());
        assert(front[0] == entries[0]);
        assert(entries.skip(1).last() == entries.last());
        assert(rendered_ini(entries) =~= rendered_entry(entries[0]) + rendered_ini(
            entries.skip(1),
        ));
        assert(all_entry_lines(entries) =~= entry_lines(entries[0]) + all_entry_lines(
            entries.skip(1),
        ));
    }
}

proof fn lemma_lines_of_rendered(entries: Seq<EntryModel>)
    requires
        forall|i: int| 0 <= i < entries.len() ==> !(#[trigger] entries[i]).name.contains('\n'),
    ensures
        lines(rendered_ini(entries)) == all_entry_lines(entries),
    decreases entries.len(),
{
    if entries.len() > 0 {
        let rest = entries.skip(1);
        assert forall|i: int| 0 <= i < rest.len() implies !(#[trigger] rest[i]).name.contains(
            '\n',
        ) by {
            assert(rest[i] == entries[i + 1]);
        }
        lemma_lines_of_rendered(rest);
        lemma_rendered_front(entries);
        lemma_lines_of_entry(entries[0], rendered_ini(rest));
    }
}

/// Reading the four lines of an entry after any lines adds that entry.
proof fn lemma_entries_of_entry_lines(before: Seq<Seq<char>>, e: EntryModel)
    ensures
        ini_entries(before + entry_lines(e)) == ini_entries(before).push(e),
{
    reveal_strlit("Achieved=");
    reveal_strlit("UnlockTime=");
    reveal_strlit("Achieved");
    reveal_strlit("UnlockTime");
    reveal_strlit("1");
    let l1 = entry_lines(e)[0];
    let l2 = entry_lines(e)[1];
    let l3 = entry_lines(e)[2];
    let l4 = entry_lines(e)[3];
    let m1 = before.push(l1);
    let m2 = m1.push(l2);
    let m3 = m2.push(l3);
    let m4 = m3.push(l4);
    assert(before + entry_lines(e) =~= m4);
    assert(m4.drop_last() == m3 && m3.drop_last() == m2 && m2.drop_last() == m1 && m1.drop_last()
        == before);
    lemma_signed_decimal_shape(e.unlock_time);
    lemma_parse_signed_decimal(e.unlock_time);
    let dec = signed_decimal(e.unlock_time as int);
    let flag = if e.achieved {
        seq!['1']
    } else {
        seq!['0']
    };
    // the header line
    lemma_trim_identity(l1);
    assert(is_section_header(l1));
    assert(section_name(l1) =~= e.name);
    let after1 = ini_entries(before).push(fresh_entry(e.name));
    assert(ini_entries(m1) == after1);
    // the line of `Achieved`
    assert(l2.last() == flag[0]);
    lemma_trim_identity(l2);
    assert(!is_section_header(l2));
    lemma_literal_without("Achieved"@, '=');
    lemma_trim_identity("Achieved"@);
    lemma_trim_identity(flag);
    assert(l2 =~= "Achieved"@ + seq!['='] + flag);
    law_ini_assignment(fresh_entry(e.name), "Achieved"@, flag);
    let e2 = EntryModel { achieved: e.achieved, ..fresh_entry(e.name) };
    assert(flag == "1"@ <==> e.achieved) by {
        if flag == "1"@ {
            assert(flag[0] == '1');
        } else if e.achieved {
            assert(flag =~= "1"@);
        }
    }
    assert(apply_line(fresh_entry(e.name), l2) == e2);
    assert(after1.last() == fresh_entry(e.name));
    let after2 = after1.update(after1.len() - 1, e2);
    assert(ini_entries(m2) == after2);
    // the line of `UnlockTime`
    assert(l3.last() == dec.last());
    lemma_trim_identity(l3);
    assert(!is_section_header(l3));
    lemma_literal_without("UnlockTime"@, '=');
    lemma_trim_identity("UnlockTime"@);
    lemma_trim_identity(dec);
    assert(l3 =~= "UnlockTime"@ + seq!['='] + dec);
    law_ini_assignment(e2, "UnlockTime"@, dec);
    assert("UnlockTime"@ != "Achieved"@) by {
        assert("UnlockTime"@[0] == 'U');
        assert("Achieved"@[0] == 'A');
    }
    assert(apply_line(e2, l3) == e);
    let after3 = after2.update(after2.len() - 1, e);
    assert(ini_entries(m3) == after3);
    // the empty line
    lemma_trim_identity(l4);
    assert(!is_section_header(l4));
    assert(apply_line(e, l4) == e);
    assert(ini_entries(m4) =~= after3);
    assert(after3 =~= ini_entries(before).push(e));
}

proof fn lemma_entries_of_all_lines(entries: Seq<EntryModel>)
    ensures
        ini_entries(all_entry_lines(entries)) == entries,
    decreases entries.len(),
{
    if entries.len() > 0 {
        lemma_entries_of_all_lines(entries.drop_last());
        lemma_entries_of_entry_lines(all_entry_lines(entries.drop_last()), entries.last());
        assert(entries.drop_last().push(entries.last()) =~= entries);
    }
}

/// Reading what was written gives the entries back: the text that
/// `render_achievement_file` writes for a list of entries parses to that
/// list, as long as no name holds a line feed.
pub proof fn law_ini_round_trip(entries: Seq<EntryModel>)
    requires
        forall|i: int| 0 <= i < entries.len() ==> !(#[trigger] entries[i]).name.contains('\n'),
    ensures
        parse_ini(rendered_ini(entries)) == entries,
{
    lemma_lines_of_rendered(entries);
    lemma_entries_of_all_lines(entries);
}

/// Reading a timestamp that shows a civil time gives that time back, in
/// either format.
pub proof fn law_timestamp_round_trip(c: CivilTime, format: TimeFormat)
    requires
        valid_civil(c),
    ensures
        civil_time_of(timestamp_showing(c, format)) == c,
{
    reveal_strlit("PM");
    reveal_strlit("AM");
    lemma_parse_two_digits(c.day);
    lemma_parse_two_digits(c.month);
    lemma_parse_two_digits(c.minute);
    lemma_parse_two_digits(shown_hour(c.hour, format));
    lemma_parse_i32_signed_decimal(c.year);
    assert("PM"@ != "AM"@) by {
        assert("PM"@[0] == 'P');
        assert("AM"@[0] == 'A');
    }
    assert(hour_of_day(shown_hour(c.hour, format), shown_half(c.hour, format)) == c.hour);
}

} // verus!
