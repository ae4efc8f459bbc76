//! The Steam web service: the addresses to ask, and the reading of its
//! answers.

use crate::json::{
    json_content, json_document, json_from_str, model_get, model_i64, model_items, model_text,
    value_get, JsonModel,
};
use crate::models::{HydraAchievement, HydraAchievementModel};
use crate::parser::ParseError;
use crate::text::{
    decimal, lowercase, opt_text, push_decimal, text_equals, to_lowercase, trim, trimmed,
};
use serde_json::Value;
use vstd::prelude::*;
use vstd::string::*;

verus! {

/// One achievement as the Steam service describes it. The share of players
/// that have it is kept as the bit pattern of a double-precision number.
#[derive(Debug, PartialEq, Eq)]
pub struct SteamAchievement {
    pub apiname: String,
    pub achieved: i32,
    pub unlocktime: i64,
    pub name: Option<String>,
    pub description: Option<String>,
    pub icon: Option<String>,
    pub icongray: Option<String>,
    pub percent_bits: u64,
    pub hidden: bool,
}

/// What a `SteamAchievement` holds.
pub struct SteamAchievementModel {
    pub apiname: Seq<char>,
    pub achieved: i32,
    pub unlocktime: i64,
    pub name: Option<Seq<char>>,
    pub description: Option<Seq<char>>,
    pub icon: Option<Seq<char>>,
    pub icongray: Option<Seq<char>>,
    pub percent_bits: u64,
    pub hidden: bool,
}

impl View for SteamAchievement {
    type V = SteamAchievementModel;

    open spec fn view(&self) -> SteamAchievementModel {
        SteamAchievementModel {
            apiname: self.apiname@,
            achieved: self.achieved,
            unlocktime: self.unlocktime,
            name: opt_text(self.name),
            description: opt_text(self.description),
            icon: opt_text(self.icon),
            icongray: opt_text(self.icongray),
            percent_bits: self.percent_bits,
            hidden: self.hidden,
        }
    }
}

impl DeepView for SteamAchievement {
    type V = SteamAchievementModel;

    open spec fn deep_view(&self) -> SteamAchievementModel {
        self@
    }
}

/// The text of the member `key`, if the value is an object that has it as
/// a string.
pub open spec fn text_member(m: JsonModel, key: Seq<char>) -> Option<Seq<char>> {
    match model_get(m, key) {
        Some(v) => model_text(v),
        None => None,
    }
}

/// The integer of the member `key`, if the value is an object that has it
/// as an integer that fits `i64`.
pub open spec fn i64_member(m: JsonModel, key: Seq<char>) -> Option<i64> {
    match model_get(m, key) {
        Some(v) => model_i64(v),
        None => None,
    }
}

/// The items of the array that lies at `outer.inner` in a document; none
/// when there is no such array.
pub open spec fn nested_list(doc: JsonModel, outer: Seq<char>, inner: Seq<char>) -> Seq<JsonModel> {
    match model_get(doc, outer) {
        Some(o) => match model_get(o, inner) {
            Some(list) => match model_items(list) {
                Some(items) => items,
                None => Seq::empty(),
            },
            None => Seq::empty(),
        },
        None => Seq::empty(),
    }
}

/// The achievements of the schema of a game: the array at
/// `game.availableGameStats.achievements`.
pub open spec fn schema_items(doc: JsonModel) -> Seq<JsonModel> {
    match model_get(doc, "game"@) {
        Some(game) => nested_list(game, "availableGameStats"@, "achievements"@),
        None => Seq::empty(),
    }
}

/// One achievement of a schema. It is locked, with no share of players;
/// it is hidden when `hidden` is the integer 1.
pub open spec fn schema_achievement(m: JsonModel) -> SteamAchievementModel {
    SteamAchievementModel {
        apiname: match text_member(m, "name"@) {
            Some(s) => s,
            None => Seq::empty(),
        },
        achieved: 0,
        unlocktime: 0,
        name: text_member(m, "displayName"@),
        description: text_member(m, "description"@),
        icon: text_member(m, "icon"@),
        icongray: text_member(m, "icongray"@),
        percent_bits: 0,
        hidden: i64_member(m, "hidden"@) == Some(1i64),
    }
}

/// One achievement of a player: the name, whether it is achieved, and when.
pub open spec fn player_achievement(m: JsonModel) -> SteamAchievementModel {
    SteamAchievementModel {
        apiname: match text_member(m, "apiname"@) {
            Some(s) => s,
            None => Seq::empty(),
        },
        achieved: match i64_member(m, "achieved"@) {
            Some(n) => n as i32,
            None => 0,
        },
        unlocktime: match i64_member(m, "unlocktime"@) {
            Some(n) => n,
            None => 0,
        },
        name: None,
        description: None,
        icon: None,
        icongray: None,
        percent_bits: 0,
        hidden: false,
    }
}

/// The code of the Hydra service for a language name of Steam, in any case
/// of letters; `en` for a name that is not listed.
pub open spec fn hydra_code(steam_lang: Seq<char>) -> Seq<char> {
    let word = lowercase(steam_lang);
    if word == "english"@ {
        "en"@
    } else if word == "spanish"@ {
        "es"@
    } else if word == "russian"@ {
        "ru"@
    } else if word == "portuguese"@ || word == "brazilian"@ {
        "pt"@
    } else {
        "en"@
    }
}

/// The last of the achievements named `name`.
pub open spec fn last_hydra(list: Seq<HydraAchievementModel>, name: Seq<char>) -> Option<
    HydraAchievementModel,
>
    decreases list.len(),
{
    if list.len() == 0 {
        None
    } else if list.last().name == name {
        Some(list.last())
    } else {
        last_hydra(list.drop_last(), name)
    }
}

/// The last of the player's achievements named `name`.
pub open spec fn last_status(list: Seq<SteamAchievementModel>, name: Seq<char>) -> Option<
    SteamAchievementModel,
>
    decreases list.len(),
{
    if list.len() == 0 {
        None
    } else if list.last().apiname == name {
        Some(list.last())
    } else {
        last_status(list.drop_last(), name)
    }
}

/// Whether the player has an achievement, and since when.
#[derive(Debug, Clone, Copy, PartialEq, Eq, Structural)]
pub struct PlayerStatus {
    pub achieved: bool,
    pub unlock_time: i64,
}

/// The status of the achievement named `name` among the player's.
pub open spec fn status_of(player: Seq<SteamAchievementModel>, name: Seq<char>) -> Option<
    PlayerStatus,
> {
    match last_status(player, name) {
        Some(p) => Some(PlayerStatus { achieved: p.achieved > 0, unlock_time: p.unlocktime }),
        None => None,
    }
}

/// The names that are marked hidden, in order. Each pair is a name and its
/// mark.
pub open spec fn hidden_of(marks: Seq<(Seq<char>, bool)>) -> Seq<Seq<char>>
    decreases marks.len(),
{
    if marks.len() == 0 {
        Seq::empty()
    } else {
        let before = hidden_of(marks.drop_last());
        if marks.last().1 {
            before.push(marks.last().0)
        } else {
            before
        }
    }
}

/// Whether an achievement lacks a description: it has none, or a blank one.
pub open spec fn lacks_description(a: SteamAchievementModel) -> bool {
    match a.description {
        Some(d) => trim(d).len() == 0,
        None => true,
    }
}

/// An achievement with its description filled in from the Hydra service,
/// where it lacks one and the service knows the achievement.
pub open spec fn described(a: SteamAchievementModel, hydra: Seq<HydraAchievementModel>) -> SteamAchievementModel {
    if lacks_description(a) {
        match last_hydra(hydra, a.apiname) {
            Some(h) => SteamAchievementModel { description: Some(h.description), ..a },
            None => a,
        }
    } else {
        a
    }
}

/// An achievement of the schema with the status of the player, where the
/// player has a status for it.
pub open spec fn with_status(a: SteamAchievementModel, player: Seq<SteamAchievementModel>) -> SteamAchievementModel {
    match last_status(player, a.apiname) {
        Some(p) => SteamAchievementModel { achieved: p.achieved, unlocktime: p.unlocktime, ..a },
        None => a,
    }
}

/// The rules of the Steam web service.
pub struct SteamAPI;

impl SteamAPI {
    /// The address of the schema of a game.
    pub fn schema_url(base_url: &str, api_key: &str, app_id: u32, language: &str) -> (url: String)
        ensures
            url@ == base_url@ + "/ISteamUserStats/GetSchemaForGame/v2/?key="@ + api_key@
                + "&appid="@ + decimal(app_id as nat) + "&l="@ + language@,
    {
        let mut url = base_url.to_owned();
        url.append("/ISteamUserStats/GetSchemaForGame/v2/?key=");
        url.append(api_key);
        url.append("&appid=");
        push_decimal(&mut url, app_id as u64);
        url.append("&l=");
        url.append(language);
        url
    }

    /// The address of the achievements of a player.
    pub fn player_achievements_url(base_url: &str, api_key: &str, app_id: u32, steam_id: &str) -> (url:
        String)
        ensures
            url@ == base_url@ + "/ISteamUserStats/GetPlayerAchievements/v1/?key="@ + api_key@
                + "&appid="@ + decimal(app_id as nat) + "&steamid="@ + steam_id@,
    {
        let mut url = base_url.to_owned();
        url.append("/ISteamUserStats/GetPlayerAchievements/v1/?key=");
        url.append(api_key);
        url.append("&appid=");
        push_decimal(&mut url, app_id as u64);
        url.append("&steamid=");
        url.append(steam_id);
        url
    }

    /// The address of the shares of players that have each achievement.
    pub fn global_percentages_url(base_url: &str, app_id: u32) -> (url: String)
        ensures
            url@ == base_url@
                + "/ISteamUserStats/GetGlobalAchievementPercentagesForApp/v0002/?gameid="@
                + decimal(app_id as nat) + "&format=json"@,
    {
        let mut url = base_url.to_owned();
        url.append("/ISteamUserStats/GetGlobalAchievementPercentagesForApp/v0002/?gameid=");
        push_decimal(&mut url, app_id as u64);
        url.append("&format=json");
        url
    }

    /// The language code of the Hydra service for a language name of Steam.
    pub fn map_language(steam_lang: &str) -> (code: String)
        ensures
            code@ == hydra_code(steam_lang@),
    {
        let word = to_lowercase(steam_lang);
        let w = word.as_str();
        if text_equals(w, "english") {
            "en".to_owned()
        } else if text_equals(w, "spanish") {
            "es".to_owned()
        } else if text_equals(w, "russian") {
            "ru".to_owned()
        } else if text_equals(w, "portuguese") || text_equals(w, "brazilian") {
            "pt".to_owned()
        } else {
            "en".to_owned()
        }
    }

    fn text_of(value: &Value, key: &str) -> (r: Option<String>)
        ensures
            opt_text(r) == text_member(json_content(*value), key@),
    {
        match value_get(value, key) {
            Some(v) => match v.as_str() {
                Some(s) => Some(s.to_owned()),
                None => None,
            },
            None => None,
        }
    }

    fn i64_of(value: &Value, key: &str) -> (r: Option<i64>)
        ensures
            r == i64_member(json_content(*value), key@),
    {
        match value_get(value, key) {
            Some(v) => v.as_i64(),
            None => None,
        }
    }

    fn schema_entry(value: &Value) -> (a: SteamAchievement)
        ensures
            a@ == schema_achievement(json_content(*value)),
    {
        SteamAchievement {
            apiname: match Self::text_of(value, "name") {
                Some(s) => s,
                None => String::new(),
            },
            achieved: 0,
            unlocktime: 0,
            name: Self::text_of(value, "displayName"),
            description: Self::text_of(value, "description"),
            icon: Self::text_of(value, "icon"),
            icongray: Self::text_of(value, "icongray"),
            percent_bits: 0,
            hidden: match Self::i64_of(value, "hidden") {
                Some(n) => n == 1,
                None => false,
            },
        }
    }

    fn player_entry(value: &Value) -> (a: SteamAchievement)
        ensures
            a@ == player_achievement(json_content(*value)),
    {
        SteamAchievement {
            apiname: match Self::text_of(value, "apiname") {
                Some(s) => s,
                None => String::new(),
            },
            achieved: match Self::i64_of(value, "achieved") {
                Some(n) => #[verifier::truncate]
                (n as i32),
                None => 0,
            },
            unlocktime: match Self::i64_of(value, "unlocktime") {
                Some(n) => n,
                None => 0,
            },
            name: None,
            description: None,
            icon: None,
            icongray: None,
            percent_bits: 0,
            hidden: false,
        }
    }

    /// Reads the schema of a game from the answer of the service. An answer
    /// that is JSON but holds no list of achievements gives an empty list.
    pub fn parse_schema(body: &str) -> (r: Result<Vec<SteamAchievement>, ParseError>)
        ensures
            match r {
                Ok(list) => json_document(body@) matches Some(doc) && list.deep_view()
                    == schema_items(doc).map_values(|m: JsonModel| schema_achievement(m)),
                Err(e) => e == ParseError::InvalidJson && json_document(body@) is None,
            },
    {
        let document = match json_from_str(body) {
            Ok(v) => v,
            Err(_) => {
                return Err(ParseError::InvalidJson);
            },
        };
        let mut list: Vec<SteamAchievement> = Vec::new();
        let ghost want = schema_items(json_content(document)).map_values(
            |m: JsonModel| schema_achievement(m),
        );
        let found = match value_get(&document, "game") {
            Some(game) => match value_get(game, "availableGameStats") {
                Some(stats) => match value_get(stats, "achievements") {
                    Some(achievements) => achievements.as_array(),
                    None => None,
                },
                None => None,
            },
            None => None,
        };
        match found {
            Some(items) => {
                let mut i: usize = 0;
                while i < items.len()
                    invariant
                        i <= items.len() == want.len(),
                        list.len() == i,
                        forall|k: int|
                            0 <= k < items.len() ==> want[k] == schema_achievement(
                                json_content(#[trigger] items[k]),
                            ),
                        forall|k: int| 0 <= k < i ==> (#[trigger] list[k])@ == want[k],
                    decreases items.len() - i,
                {
                    list.push(Self::schema_entry(&items[i]));
                    i += 1;
                }
                assert(list.deep_view() =~= want);
            },
            None => {
                assert(list.deep_view() =~= want);
            },
        }
        Ok(list)
    }

    /// Reads the achievements of a player from the answer of the service:
    /// the array at `playerstats.achievements`.
    pub fn parse_player_achievements(body: &str) -> (r: Result<Vec<SteamAchievement>, ParseError>)
        ensures
            match r {
                Ok(list) => json_document(body@) matches Some(doc) && list.deep_view()
                    == nested_list(doc, "playerstats"@, "achievements"@).map_values(
                    |m: JsonModel| player_achievement(m),
                ),
                Err(e) => e == ParseError::InvalidJson && json_document(body@) is None,
            },
    {
        let document = match json_from_str(body) {
            Ok(v) => v,
            Err(_) => {
                return Err(ParseError::InvalidJson);
            },
        };
        let mut list: Vec<SteamAchievement> = Vec::new();
        let ghost want = nested_list(
            json_content(document),
            "playerstats"@,
            "achievements"@,
        ).map_values(|m: JsonModel| player_achievement(m));
        let found = match value_get(&document, "playerstats") {
            Some(stats) => match value_get(stats, "achievements") {
                Some(achievements) => achievements.as_array(),
                None => None,
            },
            None => None,
        };
        match found {
            Some(items) => {
                let mut i: usize = 0;
                while i < items.len()
                    invariant
                        i <= items.len() == want.len(),
                        list.len() == i,
                        forall|k: int|
                            0 <= k < items.len() ==> want[k] == player_achievement(
                                json_content(#[trigger] items[k]),
                            ),
                        forall|k: int| 0 <= k < i ==> (#[trigger] list[k])@ == want[k],
                    decreases items.len() - i,
                {
                    list.push(Self::player_entry(&items[i]));
                    i += 1;
                }
                assert(list.deep_view() =~= want);
            },
            None => {
                assert(list.deep_view() =~= want);
            },
        }
        Ok(list)
    }

    fn find_hydra(hydra: &[HydraAchievement], name: &String) -> (r: Option<usize>)
        ensures
            match r {
                Some(i) => i < hydra.len() && last_hydra(hydra.deep_view(), name@) == Some(
                    hydra[i as int]@,
                ),
                None => last_hydra(hydra.deep_view(), name@) is None,
            },
    {
        let ghost all = hydra.deep_view();
        let mut i: usize = hydra.len();
        proof {
            assert(all.take(i as int) == all);
        }
        while i > 0
            invariant
                i <= hydra.len(),
                all == hydra.deep_view(),
                last_hydra(all, name@) == last_hydra(all.take(i as int), name@),
            decreases i,
        {
            proof {
                assert(all.take(i as int).last() == hydra[i - 1]@);
                assert(all.take(i as int).drop_last() == all.take(i - 1));
            }
            if hydra[i - 1].name == *name {
                return Some(i - 1);
            }
            i -= 1;
        }
        None
    }

    fn find_status(player: &[SteamAchievement], name: &String) -> (r: Option<usize>)
        ensures
            match r {
                Some(i) => i < player.len() && last_status(player.deep_view(), name@) == Some(
                    player[i as int]@,
                ),
                None => last_status(player.deep_view(), name@) is None,
            },
    {
        let ghost all = player.deep_view();
        let mut i: usize = player.len();
        proof {
            assert(all.take(i as int) == all);
        }
        while i > 0
            invariant
                i <= player.len(),
                all == player.deep_view(),
                last_status(all, name@) == last_status(all.take(i as int), name@),
            decreases i,
        {
            proof {
                assert(all.take(i as int).last() == player[i - 1]@);
                assert(all.take(i as int).drop_last() == all.take(i - 1));
            }
            if player[i - 1].apiname == *name {
                return Some(i - 1);
            }
            i -= 1;
        }
        None
    }

    /// Whether the player has the achievement named `name`, and since when:
    /// by the last of the player's achievements of that name, if there is
    /// one. It counts as achieved when its mark is above 0.
    pub fn player_status(player: &[SteamAchievement], name: &String) -> (r: Option<PlayerStatus>)
        ensures
            r == status_of(player.deep_view(), name@),
    {
        match Self::find_status(player, name) {
            Some(at) => Some(
                PlayerStatus { achieved: player[at].achieved > 0, unlock_time: player[at].unlocktime },
            ),
            None => None,
        }
    }

    /// The names of the hidden achievements, in order.
    pub fn hidden_names(achievements: &[SteamAchievement]) -> (names: Vec<String>)
        ensures
            names.deep_view() == hidden_of(
                achievements.deep_view().map_values(
                    |a: SteamAchievementModel| (a.apiname, a.hidden),
                ),
            ),
    {
        let mut names: Vec<String> = Vec::new();
        let ghost all = achievements.deep_view().map_values(
            |a: SteamAchievementModel| (a.apiname, a.hidden),
        );
        let mut i: usize = 0;
        while i < achievements.len()
            invariant
                i <= achievements.len(),
                all == achievements.deep_view().map_values(
                    |a: SteamAchievementModel| (a.apiname, a.hidden),
                ),
                names.deep_view() == hidden_of(all.take(i as int)),
            decreases achievements.len() - i,
        {
            let ghost before = names.deep_view();
            proof {
                assert(all.take(i + 1).drop_last() == all.take(i as int));
                assert(all.take(i + 1).last() == (achievements[i as int]@.apiname, achievements[i as int]@.hidden));
            }
            if achievements[i].hidden {
                let name = achievements[i].apiname.clone();
                names.push(name);
                assert(names.deep_view() == before.push(name@));
            }
            i += 1;
        }
        assert(all.take(i as int) == all);
        names
    }

    /// Fills in, from the Hydra service, the description of each achievement
    /// that lacks one.
    pub fn fill_descriptions(achievements: &mut Vec<SteamAchievement>, hydra: &[HydraAchievement])
        ensures
            final(achievements).deep_view() == old(achievements).deep_view().map_values(
                |a: SteamAchievementModel| described(a, hydra.deep_view()),
            ),
    {
        let ghost start = achievements.deep_view();
        let mut i: usize = 0;
        while i < achievements.len()
            invariant
                i <= achievements.len() == start.len(),
                forall|k: int|
                    0 <= k < i ==> (#[trigger] achievements[k])@ == described(
                        start[k],
                        hydra.deep_view(),
                    ),
                forall|k: int| i <= k < achievements.len() ==> (#[trigger] achievements[k])@ == start[k],
            decreases achievements.len() - i,
        {
            let lacks = match &achievements[i].description {
                Some(d) => trimmed(d.as_str()).as_str().unicode_len() == 0,
                None => true,
            };
            if lacks {
                match Self::find_hydra(hydra, &achievements[i].apiname) {
                    Some(at) => {
                        achievements[i].description = Some(hydra[at].description.clone());
                    },
                    None => {},
                }
            }
            i += 1;
        }
        assert(achievements.deep_view() =~= start.map_values(
            |a: SteamAchievementModel| described(a, hydra.deep_view()),
        ));
    }

    /// Takes over the status of the player into the achievements of the
    /// schema.
    pub fn apply_player_status(achievements: &mut Vec<SteamAchievement>, player: &[SteamAchievement])
        ensures
            final(achievements).deep_view() == old(achievements).deep_view().map_values(
                |a: SteamAchievementModel| with_status(a, player.deep_view()),
            ),
    {
        let ghost start = achievements.deep_view();
        let mut i: usize = 0;
        while i < achievements.len()
            invariant
                i <= achievements.len() == start.len(),
                forall|k: int|
                    0 <= k < i ==> (#[trigger] achievements[k])@ == with_status(
                        start[k],
                        player.deep_view(),
                    ),
                forall|k: int| i <= k < achievements.len() ==> (#[trigger] achievements[k])@ == start[k],
            decreases achievements.len() - i,
        {
            match Self::find_status(player, &achievements[i].apiname) {
                Some(at) => {
                    achievements[i].achieved = player[at].achieved;
                    achievements[i].unlocktime = player[at].unlocktime;
                },
                None => {},
            }
            i += 1;
        }
        assert(achievements.deep_view() =~= start.map_values(
            |a: SteamAchievementModel| with_status(a, player.deep_view()),
        ));
    }
}

} // verus!
