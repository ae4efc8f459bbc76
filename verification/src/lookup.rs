//! Looking games up in the Steam store: the addresses to ask, and the
//! reading of the answers.

use crate::api::steam::text_member;
use crate::json::{
    json_content, json_document, json_from_str, model_bool, model_get, model_items, model_u64, value_get, JsonModel,
};
use crate::models::SteamGameSearchResult;
use crate::parser::ParseError;
use crate::text::{opt_text, parse_u32, parse_u32_text, trim, trimmed};
use serde_json::Value;
use vstd::prelude::*;
use vstd::string::*;
use vstd::utf8::encode_utf8;

verus! {

/// The bytes that stay as they are in a percent-encoded text: ASCII letters
/// and digits, and `-`, `.`, `_`, `~`.
pub open spec fn is_unreserved(b: u8) -> bool {
    ||| 0x30 <= b <= 0x39
    ||| 0x41 <= b <= 0x5A
    ||| 0x61 <= b <= 0x7A
    ||| b == 0x2D
    ||| b == 0x2E
    ||| b == 0x5F
    ||| b == 0x7E
}

/// The upper-case hexadecimal digit for a value below 16.
pub open spec fn hex_digit(d: u8) -> char {
    if d < 10 {
        ((48 + d) as u8) as char
    } else {
        ((55 + d) as u8) as char
    }
}

/// The percent-encoding of a sequence of bytes: each byte that is not
/// unreserved becomes `%` and its two hexadecimal digits.
pub open spec fn percent_encoded(bytes: Seq<u8>) -> Seq<char>
    decreases bytes.len(),
{
    if bytes.len() == 0 {
        Seq::empty()
    } else {
        let b = bytes.last();
        percent_encoded(bytes.drop_last()) + if is_unreserved(b) {
            seq![b as char]
        } else {
            seq!['%', hex_digit(b / 16), hex_digit(b % 16)]
        }
    }
}

/// Not verified: `urlencoding::encode`. Claims that it percent-encodes
/// every byte of the UTF-8 form of the text except the unreserved ones,
/// with upper-case hexadecimal digits.
#[verifier::external_body]
fn url_encode(text: &str) -> (r: String)
    ensures
        r@ == percent_encoded(encode_utf8(text@)),
{
    urlencoding::encode(text).into_owned()
}

/// What a search result holds.
pub struct SearchResultModel {
    pub id: u32,
    pub name: Seq<char>,
    pub achievements_total: u32,
}

impl View for SteamGameSearchResult {
    type V = SearchResultModel;

    open spec fn view(&self) -> SearchResultModel {
        SearchResultModel {
            id: self.id,
            name: self.name@,
            achievements_total: self.achievements_total,
        }
    }
}

impl DeepView for SteamGameSearchResult {
    type V = SearchResultModel;

    open spec fn deep_view(&self) -> SearchResultModel {
        self@
    }
}

/// The name of a game in the answer to a request for its details: the
/// member of its id reports success and holds `data.name`.
pub open spec fn game_name_in(doc: JsonModel, game_id: Seq<char>) -> Option<Seq<char>> {
    match model_get(doc, game_id) {
        Some(game) => match model_get(game, "success"@) {
            Some(flag) => if model_bool(flag) == Some(true) {
                match model_get(game, "data"@) {
                    Some(data) => text_member(data, "name"@),
                    None => None,
                }
            } else {
                None
            },
            None => None,
        },
        None => None,
    }
}

/// The hit that one item of a search answer describes, if it has an id
/// and a name. The id is cut to 32 bits.
pub open spec fn search_hit(item: JsonModel) -> Option<SearchResultModel> {
    match model_get(item, "id"@) {
        Some(id) => match model_u64(id) {
            Some(n) => match text_member(item, "name"@) {
                Some(name) => Some(
                    SearchResultModel { id: n as u32, name, achievements_total: 0 },
                ),
                None => None,
            },
            None => None,
        },
        None => None,
    }
}

/// The hits of a list of items, in order.
pub open spec fn search_hits(items: Seq<JsonModel>) -> Seq<SearchResultModel>
    decreases items.len(),
{
    if items.len() == 0 {
        Seq::empty()
    } else {
        let before = search_hits(items.drop_last());
        match search_hit(items.last()) {
            Some(hit) => before.push(hit),
            None => before,
        }
    }
}

/// The items of a search answer.
pub open spec fn search_items(doc: JsonModel) -> Seq<JsonModel> {
    match model_get(doc, "items"@) {
        Some(list) => match model_items(list) {
            Some(items) => items,
            None => Seq::empty(),
        },
        None => Seq::empty(),
    }
}

/// Whether a result with the given id is listed.
pub open spec fn has_id(results: Seq<SearchResultModel>, id: u32) -> bool {
    exists|i: int| 0 <= i < results.len() && (#[trigger] results[i]).id == id
}

/// The results after the hits were added, each id once.
pub open spec fn with_hits(results: Seq<SearchResultModel>, hits: Seq<SearchResultModel>) -> Seq<
    SearchResultModel,
>
    decreases hits.len(),
{
    if hits.len() == 0 {
        results
    } else {
        let before = with_hits(results, hits.drop_last());
        if has_id(before, hits.last().id) {
            before
        } else {
            before.push(hits.last())
        }
    }
}

/// At most the first 15 of the results.
pub open spec fn first_fifteen(results: Seq<SearchResultModel>) -> Seq<SearchResultModel> {
    if results.len() > 15 {
        results.take(15)
    } else {
        results
    }
}

/// The address of the details of a game.
pub fn app_details_url(base_url: &str, game_id: &str, language: &str) -> (url: String)
    ensures
        url@ == base_url@ + "/appdetails?appids="@ + game_id@ + "&l="@ + language@,
{
    let mut url = base_url.to_owned();
    url.append("/appdetails?appids=");
    url.append(game_id);
    url.append("&l=");
    url.append(language);
    url
}

/// The address of a search for the trimmed query.
pub fn store_search_url(base_url: &str, query: &str, language: &str) -> (url: String)
    ensures
        url@ == base_url@ + "/storesearch/?term="@ + percent_encoded(encode_utf8(trim(query@)))
            + "&l="@ + language@ + "&cc=us&snr=1_4_4__12"@,
{
    let term = url_encode(trimmed(query).as_str());
    let mut url = base_url.to_owned();
    url.append("/storesearch/?term=");
    url.append(term.as_str());
    url.append("&l=");
    url.append(language);
    url.append("&cc=us&snr=1_4_4__12");
    url
}

/// The app id that a query names, when the trimmed query is a number.
pub fn direct_app_id(query: &str) -> (r: Option<u32>)
    ensures
        r == parse_u32(trim(query@)),
{
    parse_u32_text(trimmed(query).as_str())
}

/// Reads the name of a game from the answer to a request for its details.
pub fn parse_game_name(body: &str, game_id: &str) -> (r: Result<Option<String>, ParseError>)
    ensures
        match r {
            Ok(name) => json_document(body@) matches Some(doc) && opt_text(name) == game_name_in(
                doc,
                game_id@,
            ),
            Err(e) => e == ParseError::InvalidJson && json_document(body@) is None,
        },
{
    let document = match json_from_str(body) {
        Ok(v) => v,
        Err(_) => {
            return Err(ParseError::InvalidJson);
        },
    };
    let game = match value_get(&document, game_id) {
        Some(game) => game,
        None => {
            return Ok(None);
        },
    };
    let success = match value_get(game, "success") {
        Some(flag) => match flag.as_bool() {
            Some(b) => b,
            None => false,
        },
        None => false,
    };
    if !success {
        return Ok(None);
    }
    match value_get(game, "data") {
        Some(data) => match value_get(data, "name") {
            Some(name) => match name.as_str() {
                Some(s) => Ok(Some(s.to_owned())),
                None => Ok(None),
            },
            None => Ok(None),
        },
        None => Ok(None),
    }
}

fn hit_of(item: &Value) -> (r: Option<SteamGameSearchResult>)
    ensures
        match r {
            Some(hit) => search_hit(json_content(*item)) == Some(hit@),
            None => search_hit(json_content(*item)) is None,
        },
{
    let id = match value_get(item, "id") {
        Some(v) => match v.as_u64() {
            Some(n) => n,
            None => {
                return None;
            },
        },
        None => {
            return None;
        },
    };
    match value_get(item, "name") {
        Some(v) => match v.as_str() {
            Some(name) => Some(
                SteamGameSearchResult {
                    id: #[verifier::truncate]
                    (id as u32),
                    name: name.to_owned(),
                    achievements_total: 0,
                },
            ),
            None => None,
        },
        None => None,
    }
}

/// Reads the hits from the answer to a search.
pub fn parse_search_items(body: &str) -> (r: Result<Vec<SteamGameSearchResult>, ParseError>)
    ensures
        match r {
            Ok(hits) => json_document(body@) matches Some(doc) && hits.deep_view() == search_hits(
                search_items(doc),
            ),
            Err(e) => e == ParseError::InvalidJson && json_document(body@) is None,
        },
{
    let document = match json_from_str(body) {
        Ok(v) => v,
        Err(_) => {
            return Err(ParseError::InvalidJson);
        },
    };
    let mut hits: Vec<SteamGameSearchResult> = Vec::new();
    let ghost all = search_items(json_content(document));
    let found = match value_get(&document, "items") {
        Some(list) => list.as_array(),
        None => None,
    };
    match found {
        Some(items) => {
            let mut i: usize = 0;
            while i < items.len()
                invariant
                    i <= items.len() == all.len(),
                    forall|k: int| 0 <= k < items.len() ==> all[k] == json_content(#[trigger] items[k]),
                    hits.deep_view() == search_hits(all.take(i as int)),
                decreases items.len() - i,
            {
                let ghost before = hits.deep_view();
                proof {
                    assert(all.take(i + 1).drop_last() == all.take(i as int));
                    assert(all.take(i + 1).last() == json_content(items[i as int]));
                }
                match hit_of(&items[i]) {
                    Some(hit) => {
                        hits.push(hit);
                        assert(hits.deep_view() == before.push(hit@));
                    },
                    None => {},
                }
                i += 1;
            }
            assert(all.take(i as int) == all);
        },
        None => {},
    }
    Ok(hits)
}

fn id_is_listed(results: &Vec<SteamGameSearchResult>, id: u32) -> (r: bool)
    ensures
        r == has_id(results.deep_view(), id),
{
    let mut i: usize = 0;
    while i < results.len()
        invariant
            i <= results.len(),
            forall|k: int| 0 <= k < i ==> (#[trigger] results.deep_view()[k]).id != id,
        decreases results.len() - i,
    {
        assert(results.deep_view()[i as int] == results[i as int]@);
        if results[i].id == id {
            return true;
        }
        i += 1;
    }
    false
}

/// Puts the results of a search together: first the game that the query
/// names by its id, if any, then the hits of the search, each id once, and
/// of all these at most the first 15.
pub fn merge_search_results(direct: Vec<SteamGameSearchResult>, hits: Vec<SteamGameSearchResult>) -> (results:
    Vec<SteamGameSearchResult>)
    ensures
        results.deep_view() == first_fifteen(with_hits(direct.deep_view(), hits.deep_view())),
{
    let mut results = direct;
    let mut hits = hits;
    let ghost start = results.deep_view();
    let ghost all = hits.deep_view();
    let n = hits.len();
    // The hits are taken from the back into `queue`, which is then emptied
    // from its back, so that they are added in their order.
    let mut queue: Vec<SteamGameSearchResult> = Vec::new();
    while hits.len() > 0
        invariant
            hits.deep_view() + queue.deep_view().reverse() == all,
        decreases hits.len(),
    {
        let ghost rest = hits.deep_view();
        let ghost sofar = queue.deep_view();
        let hit = hits.pop().unwrap();
        queue.push(hit);
        proof {
            assert(hits.deep_view() =~= rest.drop_last());
            assert(queue.deep_view() =~= sofar.push(hit@));
            assert(sofar.push(hit@).reverse() =~= seq![hit@] + sofar.reverse());
            assert(rest.drop_last() + (seq![hit@] + sofar.reverse()) =~= rest + sofar.reverse());
        }
    }
    proof {
        assert(hits.deep_view() =~= Seq::<SearchResultModel>::empty());
        assert(queue.deep_view().reverse() =~= all);
    }
    let ghost mut done: int = 0;
    proof {
        assert(all.take(0) =~= Seq::<SearchResultModel>::empty());
    }
    while queue.len() > 0
        invariant
            0 <= done <= all.len(),
            queue.len() + done == all.len(),
            queue.deep_view().reverse() == all.skip(done),
            results.deep_view() == with_hits(start, all.take(done)),
        decreases queue.len(),
    {
        let ghost rest = queue.deep_view();
        let ghost before = results.deep_view();
        let hit = queue.pop().unwrap();
        proof {
            assert(queue.deep_view() =~= rest.drop_last());
            assert(rest.reverse()[0] == rest.last());
            assert(all[done] == hit@);
            assert(rest.drop_last().reverse() =~= rest.reverse().skip(1));
            assert(all.skip(done).skip(1) =~= all.skip(done + 1));
            assert(all.take(done + 1).drop_last() =~= all.take(done));
            assert(all.take(done + 1).last() == hit@);
        }
        if !id_is_listed(&results, hit.id) {
            results.push(hit);
            assert(results.deep_view() =~= before.push(hit@));
        }
        proof {
            done = done + 1;
        }
    }
    proof {
        assert(all.take(done) =~= all);
    }
    if results.len() > 15 {
        let ghost full = results.deep_view();
        results.truncate(15);
        assert(results.deep_view() =~= full.take(15));
    }
    results
}

} // verus!
