//! What the library decides around the local Steam client: the reading of
//! its manifest files, the app id of a session, and whether a session is up.

use crate::text::{
    chars_of, contains_text, find_char, find_char_in, find_text, lines, occurs_at,
    lowercase, opt_str, opt_text, replace_text, replaced, string_of, text_contains, text_equals,
    to_lowercase, trim, trim_range, trimmed,
};
use vstd::prelude::*;
use vstd::string::*;

verus! {

/// A game that the Steam client has installed.
#[derive(Debug, PartialEq, Eq)]
pub struct SteamGame {
    pub game_id: String,
    pub name: String,
    pub achievements_total: u32,
    pub achievements_current: u32,
    pub source: String,
}

/// What a `SteamGame` holds.
pub struct SteamGameModel {
    pub game_id: Seq<char>,
    pub name: Seq<char>,
    pub achievements_total: u32,
    pub achievements_current: u32,
    pub source: Seq<char>,
}

impl View for SteamGame {
    type V = SteamGameModel;

    open spec fn view(&self) -> SteamGameModel {
        SteamGameModel {
            game_id: self.game_id@,
            name: self.name@,
            achievements_total: self.achievements_total,
            achievements_current: self.achievements_current,
            source: self.source@,
        }
    }
}

impl DeepView for SteamGame {
    type V = SteamGameModel;

    open spec fn deep_view(&self) -> SteamGameModel {
        self@
    }
}

/// An achievement as the Steam client reports it.
#[derive(Debug, PartialEq, Eq)]
pub struct SteamAchievementData {
    pub name: String,
    pub display_name: String,
    pub description: String,
    pub achieved: bool,
    pub unlock_time: u32,
    pub icon: String,
    pub icon_gray: String,
}

/// The piece number `n`, counted from 0, of `s` split at each `sep`.
pub open spec fn split_field(s: Seq<char>, sep: char, n: nat) -> Option<Seq<char>>
    decreases n,
{
    let cut = find_char(s, sep) as int;
    if n == 0 {
        Some(s.take(cut))
    } else if cut >= s.len() {
        None
    } else {
        split_field(s.skip(cut + 1), sep, (n - 1) as nat)
    }
}

/// The value that one line of a manifest gives for a quoted key: the text
/// between the third and the fourth quotation mark, when the line holds
/// the key, in any case of letters, and at least three quotation marks.
pub open spec fn line_value(line: Seq<char>, quoted_key: Seq<char>) -> Option<Seq<char>> {
    if contains_text(lowercase(line), lowercase(quoted_key)) {
        split_field(line, '"', 3)
    } else {
        None
    }
}

/// The value of the first line that gives one.
pub open spec fn first_value(lines: Seq<Seq<char>>, quoted_key: Seq<char>) -> Option<Seq<char>>
    decreases lines.len(),
{
    if lines.len() == 0 {
        None
    } else {
        match line_value(trim(lines[0]), quoted_key) {
            Some(v) => Some(v),
            None => first_value(lines.skip(1), quoted_key),
        }
    }
}

/// The value of `key` in a manifest.
pub open spec fn acf_value(content: Seq<char>, key: Seq<char>) -> Option<Seq<char>> {
    first_value(lines(content), seq!['"'] + key + seq!['"'])
}

/// The game that a manifest describes, if it names both an id and a name.
pub open spec fn manifest_game(content: Seq<char>) -> Option<SteamGameModel> {
    match (acf_value(content, "appid"@), acf_value(content, "name"@)) {
        (Some(id), Some(name)) => Some(
            SteamGameModel {
                game_id: id,
                name,
                achievements_total: 0,
                achievements_current: 0,
                source: "steam"@,
            },
        ),
        _ => None,
    }
}

/// Whether a game with the given id is listed.
pub open spec fn has_game(games: Seq<SteamGameModel>, id: Seq<char>) -> bool {
    exists|i: int| 0 <= i < games.len() && (#[trigger] games[i]).game_id == id
}

/// The games that a list of manifests describes, each id once: the first
/// manifest of an id counts.
pub open spec fn manifest_games(manifests: Seq<Seq<char>>) -> Seq<SteamGameModel>
    decreases manifests.len(),
{
    if manifests.len() == 0 {
        Seq::empty()
    } else {
        let before = manifest_games(manifests.drop_last());
        match manifest_game(manifests.last()) {
            Some(game) => if has_game(before, game.game_id) {
                before
            } else {
                before.push(game)
            },
            None => before,
        }
    }
}

/// The app id of a session: the first candidate that is not blank,
/// trimmed, and `480` when there is none.
pub open spec fn app_id_of(candidates: Seq<Option<Seq<char>>>) -> Seq<char>
    decreases candidates.len(),
{
    if candidates.len() == 0 {
        "480"@
    } else {
        match candidates[0] {
            Some(text) => if trim(text).len() > 0 {
                trim(text)
            } else {
                app_id_of(candidates.skip(1))
            },
            None => app_id_of(candidates.skip(1)),
        }
    }
}

/// The views of a list of optional texts.
pub open spec fn opt_texts(candidates: Seq<Option<String>>) -> Seq<Option<Seq<char>>> {
    Seq::new(candidates.len(), |i: int| opt_text(candidates[i]))
}

/// The range of the piece number `n` of `chars[start..end]` split at `sep`.
pub fn nth_field(chars: &[char], start: usize, end: usize, sep: char, n: usize) -> (r: Option<
    (usize, usize),
>)
    requires
        start <= end <= chars.len(),
    ensures
        match r {
            Some((a, b)) => start <= a <= b <= end && split_field(
                chars@.subrange(start as int, end as int),
                sep,
                n as nat,
            ) == Some(chars@.subrange(a as int, b as int)),
            None => split_field(chars@.subrange(start as int, end as int), sep, n as nat) is None,
        },
{
    let ghost whole = chars@.subrange(start as int, end as int);
    let mut from: usize = start;
    let mut left: usize = n;
    proof {
        assert(chars@.subrange(from as int, end as int) == whole);
    }
    loop
        invariant
            start <= from <= end <= chars.len(),
            left <= n,
            whole == chars@.subrange(start as int, end as int),
            split_field(whole, sep, n as nat) == split_field(
                chars@.subrange(from as int, end as int),
                sep,
                left as nat,
            ),
        decreases left,
    {
        let cut = find_char_in(chars, from, end, sep);
        let ghost rest = chars@.subrange(from as int, end as int);
        if left == 0 {
            assert(rest.take(cut - from) == chars@.subrange(from as int, cut as int));
            return Some((from, cut));
        }
        if cut >= end {
            return None;
        }
        assert(rest.skip(cut - from + 1) == chars@.subrange(cut + 1, end as int));
        from = cut + 1;
        left -= 1;
    }
}

/// Whether a session with the Steam client is up, and why the last attempt
/// to bring one up failed.
pub struct SteamIntegration {
    enabled: bool,
    last_init_error: Option<String>,
}

impl SteamIntegration {
    /// Whether a session is up.
    pub closed spec fn enabled(&self) -> bool {
        self.enabled
    }

    /// Why the last attempt to bring a session up failed, if it did.
    pub closed spec fn last_error(&self) -> Option<Seq<char>> {
        opt_text(self.last_init_error)
    }

    /// The state before any session.
    pub fn new() -> (s: SteamIntegration)
        ensures
            !s.enabled(),
            s.last_error() is None,
    {
        SteamIntegration { enabled: false, last_init_error: None }
    }

    /// Whether a session is up.
    pub fn is_enabled(&self) -> (r: bool)
        ensures
            r == self.enabled(),
    {
        self.enabled
    }

    /// Why the last attempt to bring a session up failed, if it did.
    pub fn get_last_init_error(&self) -> (r: Option<String>)
        ensures
            opt_text(r) == self.last_error(),
    {
        match &self.last_init_error {
            Some(e) => Some(e.clone()),
            None => None,
        }
    }

    /// Whether a session has to be brought up: not while one is up.
    pub fn needs_initialize(&self) -> (r: bool)
        ensures
            r == !self.enabled(),
    {
        !self.enabled
    }

    /// Records the outcome of an attempt to bring a session up: `None` for
    /// success, else what went wrong. A failure is remembered and leaves
    /// the integration switched off; it is no error of the library.
    pub fn initialize(&mut self, failure: Option<String>)
        ensures
            final(self).enabled() == (failure is None),
            final(self).last_error() == opt_text(failure),
    {
        self.enabled = failure.is_none();
        self.last_init_error = failure;
    }

    /// Records that the session was given up for another app id.
    pub fn switch_app_id(&mut self)
        ensures
            !final(self).enabled(),
            final(self).last_error() == old(self).last_error(),
    {
        self.enabled = false;
    }

    /// Records that the session was closed.
    pub fn shutdown(&mut self)
        ensures
            !final(self).enabled(),
            final(self).last_error() is None,
    {
        self.enabled = false;
        self.last_init_error = None;
    }

    /// The app id to bring a session up with. The candidates are, in order,
    /// what the environment and the app id file hold.
    pub fn resolve_appid_for_init(candidates: &[Option<String>]) -> (id: String)
        ensures
            id@ == app_id_of(opt_texts(candidates@)),
    {
        let ghost all = opt_texts(candidates@);
        let mut i: usize = 0;
        proof {
            assert(all.skip(0) == all);
        }
        while i < candidates.len()
            invariant
                i <= candidates.len(),
                all == opt_texts(candidates@),
                app_id_of(all) == app_id_of(all.skip(i as int)),
            decreases candidates.len() - i,
        {
            proof {
                assert(all.skip(i as int)[0] == opt_text(candidates[i as int]));
                assert(all.skip(i as int).skip(1) == all.skip(i + 1));
            }
            match &candidates[i] {
                Some(text) => {
                    let t = trimmed(text.as_str());
                    if t.as_str().unicode_len() > 0 {
                        return t;
                    }
                },
                None => {},
            }
            i += 1;
        }
        "480".to_owned()
    }

    /// Whether the app id file has to be written: it does unless it holds
    /// the app id already, blanks aside.
    pub fn appid_file_needs_write(existing: Option<&str>, app_id: &str) -> (r: bool)
        ensures
            r == match opt_str(existing) {
                Some(content) => trim(content) != app_id@,
                None => true,
            },
    {
        match existing {
            Some(content) => !text_equals(trimmed(content).as_str(), app_id),
            None => true,
        }
    }

    /// The value of `key` in a manifest of the Steam client.
    pub fn parse_acf_value(content: &str, key: &str) -> (r: Option<String>)
        ensures
            opt_text(r) == acf_value(content@, key@),
    {
        let mut quoted = "\"".to_owned();
        quoted.append(key);
        quoted.append("\"");
        proof {
            reveal_strlit("\"");
            assert(quoted@ =~= seq!['"'] + key@ + seq!['"']);
        }
        let wanted = to_lowercase(quoted.as_str());
        let needle = chars_of(wanted.as_str());
        let chars = chars_of(content);
        let n = chars.len();
        let mut pos: usize = 0;
        proof {
            assert(chars@.skip(0) == chars@);
        }
        while pos < n
            invariant
                pos <= n == chars.len(),
                chars@ == content@,
                quoted@ == seq!['"'] + key@ + seq!['"'],
                needle@ == lowercase(quoted@),
                first_value(lines(chars@), quoted@) == first_value(
                    lines(chars@.skip(pos as int)),
                    quoted@,
                ),
            decreases n - pos,
        {
            let end = find_char_in(&chars, pos, n, '\n');
            let (a, b) = trim_range(&chars, pos, end);
            let ghost rest = chars@.skip(pos as int);
            let ghost raw = chars@.subrange(pos as int, end as int);
            let ghost next: int = if end < n {
                end + 1
            } else {
                end as int
            };
            proof {
                assert(rest == chars@.subrange(pos as int, n as int));
                assert(rest.take(end - pos) == raw);
                if end < n {
                    assert(rest.skip(end - pos + 1) == chars@.skip(next));
                } else {
                    assert(raw == rest);
                    assert(chars@.skip(next).len() == 0);
                    assert(lines(chars@.skip(next)) == Seq::<Seq<char>>::empty());
                }
                assert(lines(rest) == seq![raw] + lines(chars@.skip(next)));
                assert(lines(rest)[0] == raw);
                assert(lines(rest).skip(1) == lines(chars@.skip(next)));
            }
            let line = string_of(&chars, a, b);
            let lower = to_lowercase(line.as_str());
            let hay = chars_of(lower.as_str());
            let ghost shown = chars@.subrange(a as int, b as int);
            assert(shown == trim(raw));
            match find_text(&hay, &needle) {
                Some(at) => {
                    assert(occurs_at(hay@, needle@, at as int));
                    assert(contains_text(lowercase(shown), lowercase(quoted@)));
                    match nth_field(&chars, a, b, '"', 3) {
                        Some((from, to)) => {
                            assert(line_value(shown, quoted@) == Some(
                                chars@.subrange(from as int, to as int),
                            ));
                            return Some(string_of(&chars, from, to));
                        },
                        None => {
                            assert(line_value(shown, quoted@) is None);
                        },
                    }
                },
                None => {
                    assert(line_value(shown, quoted@) is None);
                },
            }
            pos = if end < n {
                end + 1
            } else {
                end
            };
        }
        proof {
            assert(lines(chars@.skip(pos as int)) == Seq::<Seq<char>>::empty());
        }
        None
    }

    fn game_is_listed(games: &Vec<SteamGame>, id: &String) -> (r: bool)
        ensures
            r == has_game(games.deep_view(), id@),
    {
        let mut i: usize = 0;
        while i < games.len()
            invariant
                i <= games.len(),
                forall|k: int| 0 <= k < i ==> (#[trigger] games.deep_view()[k]).game_id != id@,
            decreases games.len() - i,
        {
            assert(games.deep_view()[i as int] == games[i as int]@);
            if games[i].game_id == *id {
                return true;
            }
            i += 1;
        }
        false
    }

    /// The installed games, from the texts of the manifests that were
    /// found, each id once.
    pub fn get_owned_games(manifests: &[String]) -> (games: Vec<SteamGame>)
        ensures
            games.deep_view() == manifest_games(manifests.deep_view()),
    {
        let mut games: Vec<SteamGame> = Vec::new();
        let ghost all = manifests.deep_view();
        let mut i: usize = 0;
        while i < manifests.len()
            invariant
                i <= manifests.len(),
                all == manifests.deep_view(),
                games.deep_view() == manifest_games(all.take(i as int)),
            decreases manifests.len() - i,
        {
            let ghost before = games.deep_view();
            proof {
                assert(all.take(i + 1).drop_last() == all.take(i as int));
                assert(all.take(i + 1).last() == manifests[i as int]@);
            }
            let content = manifests[i].as_str();
            match Self::parse_acf_value(content, "appid") {
                Some(id) => match Self::parse_acf_value(content, "name") {
                    Some(name) => {
                        if !Self::game_is_listed(&games, &id) {
                            let game = SteamGame {
                                game_id: id,
                                name,
                                achievements_total: 0,
                                achievements_current: 0,
                                source: "steam".to_owned(),
                            };
                            games.push(game);
                            assert(games.deep_view() == before.push(game@));
                        }
                    },
                    None => {},
                },
                None => {},
            }
            i += 1;
        }
        assert(all.take(i as int) == all);
        games
    }

    /// The library folder that one line of the list of libraries names:
    /// the text between the third and the fourth quotation mark of a line
    /// that holds `"path"`.
    pub fn library_path_of_line(line: &str) -> (r: Option<String>)
        ensures
            opt_text(r) == if contains_text(line@, "\"path\""@) {
                split_field(line@, '"', 3)
            } else {
                None
            },
    {
        if !text_contains(line, "\"path\"") {
            return None;
        }
        let chars = chars_of(line);
        assert(chars@.subrange(0, chars.len() as int) == line@);
        match nth_field(&chars, 0, chars.len(), '"', 3) {
            Some((from, to)) => Some(string_of(&chars, from, to)),
            None => None,
        }
    }

    /// A library folder as the list of libraries writes it, made into a
    /// path: on Windows each doubled backslash stands for one.
    pub fn library_path(written: &str, windows: bool) -> (path: String)
        ensures
            path@ == if windows {
                replaced(written@, "\\\\"@, "\\"@)
            } else {
                written@
            },
    {
        if windows {
            replace_text(written, "\\\\", "\\")
        } else {
            written.to_owned()
        }
    }
}

} // verus!
