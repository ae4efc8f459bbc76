//! The Hydra achievement service.

use crate::api::steam::{
    hidden_of, status_of, PlayerStatus, SteamAPI, SteamAchievement,
};
use crate::models::{HydraAchievement, HydraAchievementModel, HydraGameAchievements};
use crate::text::{opt_str, text_equals};
use vstd::prelude::*;
use vstd::string::*;

verus! {

/// The index of the first achievement named `name`, or the number of
/// achievements when none is.
pub open spec fn first_named(achievements: Seq<HydraAchievementModel>, name: Seq<char>) -> nat
    decreases achievements.len(),
{
    if achievements.len() == 0 || achievements[0].name == name {
        0
    } else {
        1 + first_named(achievements.skip(1), name)
    }
}

proof fn lemma_first_named_is(achievements: Seq<HydraAchievementModel>, name: Seq<char>, n: int)
    requires
        0 <= n <= achievements.len(),
        forall|j: int| 0 <= j < n ==> (#[trigger] achievements[j]).name != name,
        n == achievements.len() || achievements[n].name == name,
    ensures
        first_named(achievements, name) == n,
    decreases n,
{
    if n > 0 {
        let rest = achievements.skip(1);
        assert(achievements[0].name != name);
        assert forall|j: int| 0 <= j < n - 1 implies (#[trigger] rest[j]).name != name by {
            assert(rest[j] == achievements[j + 1]);
        }
        lemma_first_named_is(rest, name, n - 1);
    }
}

/// Whether the service knows the language code.
pub open spec fn is_hydra_language(language: Seq<char>) -> bool {
    language == "en"@ || language == "es"@ || language == "ru"@ || language == "pt"@
}

/// The address that lists the achievements of a game: the language is part
/// of it only when the service knows it.
pub open spec fn achievements_address(
    base_url: Seq<char>,
    game_id: Seq<char>,
    language: Option<Seq<char>>,
) -> Seq<char> {
    let plain = base_url + "/games/achievements?shop=steam&objectId="@ + game_id;
    match language {
        Some(code) => if is_hydra_language(code) {
            plain + "&language="@ + code
        } else {
            plain
        },
        None => plain,
    }
}

/// The rules of the Hydra achievement service.
pub struct HydraAPI;

impl HydraAPI {
    /// The address to ask for the achievements of `game_id`.
    pub fn achievements_url(base_url: &str, game_id: &str, language: Option<&str>) -> (url: String)
        ensures
            url@ == achievements_address(base_url@, game_id@, opt_str(language)),
    {
        let mut url = base_url.to_owned();
        url.append("/games/achievements?shop=steam&objectId=");
        url.append(game_id);
        match language {
            Some(code) => {
                if text_equals(code, "en") || text_equals(code, "es") || text_equals(code, "ru")
                    || text_equals(code, "pt") {
                    url.append("&language=");
                    url.append(code);
                }
            },
            None => {},
        }
        url
    }

    /// The status of each achievement among the player's, in order.
    pub fn player_statuses(achievements: &[HydraAchievement], player: &[SteamAchievement]) -> (r:
        Vec<Option<PlayerStatus>>)
        ensures
            r.len() == achievements.len(),
            forall|i: int|
                0 <= i < r.len() ==> #[trigger] r[i] == status_of(
                    player.deep_view(),
                    achievements[i].name@,
                ),
    {
        let mut r: Vec<Option<PlayerStatus>> = Vec::new();
        let mut i: usize = 0;
        while i < achievements.len()
            invariant
                i <= achievements.len(),
                r.len() == i,
                forall|k: int|
                    0 <= k < i ==> #[trigger] r[k] == status_of(
                        player.deep_view(),
                        achievements[k].name@,
                    ),
            decreases achievements.len() - i,
        {
            r.push(SteamAPI::player_status(player, &achievements[i].name));
            i += 1;
        }
        r
    }

    /// The names of the hidden achievements, in order.
    pub fn hidden_names(achievements: &[HydraAchievement]) -> (names: Vec<String>)
        ensures
            names.deep_view() == hidden_of(
                achievements.deep_view().map_values(|a: HydraAchievementModel| (a.name, a.hidden)),
            ),
    {
        let mut names: Vec<String> = Vec::new();
        let ghost all = achievements.deep_view().map_values(
            |a: HydraAchievementModel| (a.name, a.hidden),
        );
        let mut i: usize = 0;
        while i < achievements.len()
            invariant
                i <= achievements.len(),
                all == achievements.deep_view().map_values(
                    |a: HydraAchievementModel| (a.name, a.hidden),
                ),
                names.deep_view() == hidden_of(all.take(i as int)),
            decreases achievements.len() - i,
        {
            let ghost before = names.deep_view();
            proof {
                assert(all.take(i + 1).drop_last() == all.take(i as int));
                assert(all.take(i + 1).last() == (achievements[i as int]@.name, achievements[i as int]@.hidden));
            }
            if achievements[i].hidden {
                let name = achievements[i].name.clone();
                names.push(name);
                assert(names.deep_view() == before.push(name@));
            }
            i += 1;
        }
        assert(all.take(i as int) == all);
        names
    }

    /// The first achievement of the game with the given name.
    pub fn get_achievement_by_name(
        game_achievements: &HydraGameAchievements,
        achievement_name: &str,
    ) -> (r: Option<HydraAchievement>)
        ensures
            ({
                let all = game_achievements.achievements.deep_view();
                let at = first_named(all, achievement_name@) as int;
                match r {
                    Some(found) => at < all.len() && found@ == all[at],
                    None => at >= all.len(),
                }
            }),
    {
        let wanted = achievement_name.to_owned();
        let list = &game_achievements.achievements;
        let mut i: usize = 0;
        while i < list.len()
            invariant
                i <= list.len(),
                *list == game_achievements.achievements,
                wanted@ == achievement_name@,
                forall|j: int| 0 <= j < i ==> (#[trigger] list.deep_view()[j]).name != wanted@,
            decreases list.len() - i,
        {
            assert(list.deep_view()[i as int] == list[i as int]@);
            if list[i].name == wanted {
                proof {
                    lemma_first_named_is(list.deep_view(), wanted@, i as int);
                }
                return Some(list[i].clone());
            }
            i += 1;
        }
        proof {
            lemma_first_named_is(list.deep_view(), wanted@, i as int);
        }
        None
    }
}

} // verus!
