//! The metadata cache: one record per game, merged field by field, and
//! shrunk from its oldest records when its stored form outgrows a budget.
//!
//! Reading and writing the stored form is the caller's part. The cache takes
//! the time and the size of the stored form as plain numbers.

use crate::json::{json_document, json_from_str, model_bool, model_get, value_get};
use crate::text::{opt_str, opt_text};
use vstd::prelude::*;

verus! {

/// The size that the stored cache should not exceed: 128 MiB.
pub const MAX_CACHE_SIZE: u64 = 128 * 1024 * 1024;

/// How rare one achievement is. The percentage is kept as the bit pattern of
/// a double-precision number; the cache stores and returns it untouched.
#[derive(Debug, PartialEq, Eq)]
pub struct RarityEntry {
    pub name: String,
    pub percent_bits: u64,
}

/// What a `RarityEntry` holds.
pub struct RarityModel {
    pub name: Seq<char>,
    pub percent_bits: u64,
}

impl View for RarityEntry {
    type V = RarityModel;

    open spec fn view(&self) -> RarityModel {
        RarityModel { name: self.name@, percent_bits: self.percent_bits }
    }
}

impl DeepView for RarityEntry {
    type V = RarityModel;

    open spec fn deep_view(&self) -> RarityModel {
        self@
    }
}

/// That no name occurs twice in a rarity table.
pub open spec fn distinct_rarity_names(table: Seq<RarityModel>) -> bool {
    forall|i: int, j: int|
        0 <= i < j < table.len() ==> (#[trigger] table[i]).name != (#[trigger] table[j]).name
}

/// Where the entry named `name` stands in a table, or the length of the
/// table when there is none.
pub open spec fn rarity_index(table: Seq<RarityModel>, name: Seq<char>) -> nat
    decreases table.len(),
{
    if table.len() == 0 || table[0].name == name {
        0
    } else {
        1 + rarity_index(table.skip(1), name)
    }
}

/// The table after the rarity of `name` was set: the entry of that name
/// holds the new percentage where there was one, else a new entry stands at
/// the end.
pub open spec fn with_rarity(table: Seq<RarityModel>, name: Seq<char>, percent_bits: u64) -> Seq<
    RarityModel,
> {
    let at = rarity_index(table, name) as int;
    if at < table.len() {
        table.update(at, RarityModel { name, percent_bits })
    } else {
        table.push(RarityModel { name, percent_bits })
    }
}

proof fn lemma_rarity_index_is(table: Seq<RarityModel>, name: Seq<char>, n: int)
    requires
        0 <= n <= table.len(),
        forall|j: int| 0 <= j < n ==> (#[trigger] table[j]).name != name,
        n == table.len() || table[n].name == name,
    ensures
        rarity_index(table, name) == n,
    decreases n,
{
    if n > 0 {
        let rest = table.skip(1);
        assert(table[0].name != name);
        assert forall|j: int| 0 <= j < n - 1 implies (#[trigger] rest[j]).name != name by {
            assert(rest[j] == table[j + 1]);
        }
        lemma_rarity_index_is(rest, name, n - 1);
    }
}

/// How rare the achievements of a game are: at most one entry for each
/// name.
#[derive(Debug, PartialEq, Eq)]
pub struct RarityTable {
    entries: Vec<RarityEntry>,
}

impl View for RarityTable {
    type V = Seq<RarityModel>;

    closed spec fn view(&self) -> Seq<RarityModel> {
        self.entries.deep_view()
    }
}

impl DeepView for RarityTable {
    type V = Seq<RarityModel>;

    closed spec fn deep_view(&self) -> Seq<RarityModel> {
        self.entries.deep_view()
    }
}

impl RarityTable {
    #[verifier::type_invariant]
    spec fn distinct_names(&self) -> bool {
        distinct_rarity_names(self.entries.deep_view())
    }

    /// An empty table.
    pub fn new() -> (table: RarityTable)
        ensures
            table@.len() == 0,
    {
        RarityTable { entries: Vec::new() }
    }

    /// The number of entries.
    pub fn len(&self) -> (n: usize)
        ensures
            n == self@.len(),
            distinct_rarity_names(self@),
    {
        proof {
            use_type_invariant(self);
        }
        self.entries.len()
    }

    /// The entry at position `i`.
    pub fn entry_at(&self, i: usize) -> (entry: &RarityEntry)
        requires
            i < self@.len(),
        ensures
            entry@ == self@[i as int],
    {
        &self.entries[i]
    }

    /// Sets the rarity of the achievement named `name`.
    pub fn set(&mut self, name: String, percent_bits: u64)
        ensures
            final(self)@ == with_rarity(old(self)@, name@, percent_bits),
    {
        proof {
            use_type_invariant(&*self);
        }
        let mut entries: Vec<RarityEntry> = Vec::new();
        core::mem::swap(&mut self.entries, &mut entries);
        let ghost before = entries.deep_view();
        let mut at: usize = 0;
        while at < entries.len() && entries[at].name != name
            invariant
                at <= entries.len(),
                entries.deep_view() == before,
                forall|j: int| 0 <= j < at ==> (#[trigger] before[j]).name != name@,
            decreases entries.len() - at,
        {
            assert(before[at as int] == entries[at as int]@);
            at += 1;
        }
        proof {
            if at < entries.len() {
                assert(before[at as int] == entries[at as int]@);
            }
            lemma_rarity_index_is(before, name@, at as int);
        }
        let ghost model = RarityModel { name: name@, percent_bits };
        if at < entries.len() {
            entries[at].percent_bits = percent_bits;
            proof {
                assert(entries.deep_view() =~= before.update(at as int, model));
            }
        } else {
            entries.push(RarityEntry { name, percent_bits });
            proof {
                assert(entries.deep_view() =~= before.push(model));
            }
        }
        proof {
            let after = entries.deep_view();
            assert forall|i: int, j: int| 0 <= i < j < after.len() implies (#[trigger] after[i]).name
                != (#[trigger] after[j]).name by {
                if j < before.len() {
                    assert(after[i].name == before[i].name && after[j].name == before[j].name);
                } else {
                    assert(after[i].name == before[i].name);
                }
            }
        }
        core::mem::swap(&mut self.entries, &mut entries);
    }

    /// A copy of the table.
    pub fn duplicate(&self) -> (out: RarityTable)
        ensures
            out@ == self@,
    {
        proof {
            use_type_invariant(self);
        }
        RarityTable { entries: clone_rarity(&self.entries) }
    }
}

/// What is remembered of one game.
#[derive(Debug, PartialEq, Eq)]
pub struct CachedGame {
    pub name: Option<String>,
    pub achievements_total: Option<usize>,
    pub rarity: Option<RarityTable>,
    pub hidden: Option<Vec<String>>,
    pub last_updated: u64,
}

/// What a `CachedGame` holds.
pub struct CachedGameModel {
    pub name: Option<Seq<char>>,
    pub achievements_total: Option<usize>,
    pub rarity: Option<Seq<RarityModel>>,
    pub hidden: Option<Seq<Seq<char>>>,
    pub last_updated: u64,
}

/// The view of an optional rarity table.
pub open spec fn opt_rarity(o: Option<RarityTable>) -> Option<Seq<RarityModel>> {
    match o {
        Some(table) => Some(table@),
        None => None,
    }
}

/// The view of an optional list of names.
pub open spec fn opt_names(o: Option<Vec<String>>) -> Option<Seq<Seq<char>>> {
    match o {
        Some(v) => Some(v.deep_view()),
        None => None,
    }
}

impl View for CachedGame {
    type V = CachedGameModel;

    open spec fn view(&self) -> CachedGameModel {
        CachedGameModel {
            name: opt_text(self.name),
            achievements_total: self.achievements_total,
            rarity: opt_rarity(self.rarity),
            hidden: opt_names(self.hidden),
            last_updated: self.last_updated,
        }
    }
}

impl DeepView for CachedGame {
    type V = CachedGameModel;

    open spec fn deep_view(&self) -> CachedGameModel {
        self@
    }
}

/// A copy of a list of names.
pub fn clone_names(names: &Vec<String>) -> (out: Vec<String>)
    ensures
        out.deep_view() == names.deep_view(),
{
    let mut out: Vec<String> = Vec::new();
    let mut i: usize = 0;
    while i < names.len()
        invariant
            i <= names.len(),
            out.len() == i,
            forall|k: int| 0 <= k < i ==> out[k]@ == names[k]@,
        decreases names.len() - i,
    {
        out.push(names[i].clone());
        i += 1;
    }
    assert(out.deep_view() =~= names.deep_view());
    out
}

/// A copy of the entries of a rarity table.
fn clone_rarity(table: &Vec<RarityEntry>) -> (out: Vec<RarityEntry>)
    ensures
        out.deep_view() == table.deep_view(),
{
    let mut out: Vec<RarityEntry> = Vec::new();
    let mut i: usize = 0;
    while i < table.len()
        invariant
            i <= table.len(),
            out.len() == i,
            forall|k: int| 0 <= k < i ==> out[k]@ == table[k]@,
        decreases table.len() - i,
    {
        out.push(RarityEntry { name: table[i].name.clone(), percent_bits: table[i].percent_bits });
        i += 1;
    }
    assert(out.deep_view() =~= table.deep_view());
    out
}

impl CachedGame {
    /// The record of a game that nothing is known of yet.
    pub open spec fn blank() -> CachedGameModel {
        CachedGameModel {
            name: None,
            achievements_total: None,
            rarity: None,
            hidden: None,
            last_updated: 0,
        }
    }

    /// A copy of the record.
    pub fn duplicate(&self) -> (out: CachedGame)
        ensures
            out@ == self@,
    {
        CachedGame {
            name: match &self.name {
                Some(n) => Some(n.clone()),
                None => None,
            },
            achievements_total: self.achievements_total,
            rarity: match &self.rarity {
                Some(t) => Some(t.duplicate()),
                None => None,
            },
            hidden: match &self.hidden {
                Some(h) => Some(clone_names(h)),
                None => None,
            },
            last_updated: self.last_updated,
        }
    }
}

/// The fields that one update supplies. A field left out keeps what the
/// record held before.
pub struct GameUpdate {
    pub name: Option<Seq<char>>,
    pub achievements_total: Option<usize>,
    pub rarity: Option<Seq<RarityModel>>,
    pub hidden: Option<Seq<Seq<char>>>,
}

/// The record after an update at time `now`: each supplied field replaces
/// the stored one, each omitted field stays, and the time is set.
pub open spec fn merged(base: CachedGameModel, update: GameUpdate, now: u64) -> CachedGameModel {
    CachedGameModel {
        name: if update.name is Some {
            update.name
        } else {
            base.name
        },
        achievements_total: if update.achievements_total is Some {
            update.achievements_total
        } else {
            base.achievements_total
        },
        rarity: if update.rarity is Some {
            update.rarity
        } else {
            base.rarity
        },
        hidden: if update.hidden is Some {
            update.hidden
        } else {
            base.hidden
        },
        last_updated: now,
    }
}

/// What the cache held of `id` before an update: its record, or a blank one.
pub open spec fn record_or_blank(games: Map<Seq<char>, CachedGameModel>, id: Seq<char>) -> CachedGameModel {
    if games.contains_key(id) {
        games[id]
    } else {
        CachedGame::blank()
    }
}

/// The cache after an update of the record of `id` at time `now`. No other
/// record changes.
pub open spec fn updated(
    games: Map<Seq<char>, CachedGameModel>,
    id: Seq<char>,
    update: GameUpdate,
    now: u64,
) -> Map<Seq<char>, CachedGameModel> {
    games.insert(id, merged(record_or_blank(games, id), update, now))
}

/// Two updates of one record add up: each field holds what the later update
/// supplied, else what the earlier one supplied, else what was stored
/// before. An update that omits a field never clears it.
pub proof fn law_updates_accumulate(
    games: Map<Seq<char>, CachedGameModel>,
    id: Seq<char>,
    first: GameUpdate,
    t1: u64,
    second: GameUpdate,
    t2: u64,
)
    ensures
        ({
            let base = record_or_blank(games, id);
            let twice = updated(updated(games, id, first, t1), id, second, t2);
            &&& twice.dom() == games.dom().insert(id)
            &&& forall|other: Seq<char>|
                other != id && games.contains_key(other) ==> #[trigger] twice[other] == games[other]
            &&& twice[id].name == if second.name is Some {
                second.name
            } else if first.name is Some {
                first.name
            } else {
                base.name
            }
            &&& twice[id].achievements_total == if second.achievements_total is Some {
                second.achievements_total
            } else if first.achievements_total is Some {
                first.achievements_total
            } else {
                base.achievements_total
            }
            &&& twice[id].rarity == if second.rarity is Some {
                second.rarity
            } else if first.rarity is Some {
                first.rarity
            } else {
                base.rarity
            }
            &&& twice[id].hidden == if second.hidden is Some {
                second.hidden
            } else if first.hidden is Some {
                first.hidden
            } else {
                base.hidden
            }
            &&& twice[id].last_updated == t2
        }),
{
    let once = updated(games, id, first, t1);
    let twice = updated(once, id, second, t2);
    assert(twice.dom() =~= games.dom().insert(id));
}

/// An eviction from a cache that is not empty drops at least one record,
/// and never more than the cache holds.
pub proof fn law_eviction_count(count: nat)
    ensures
        eviction_count(count) <= count,
        count > 0 ==> eviction_count(count) > 0,
        5 * eviction_count(count) >= count,
        5 * eviction_count(count) < count + 5,
{
}

/// How many records leave a cache of `count` records when it is over
/// budget: a fifth of them, rounded up.
pub open spec fn eviction_count(count: nat) -> nat {
    (count + 4) / 5
}

/// That `after` is `before` without its oldest records: `after` holds
/// `dropped` records fewer, every record that stayed is unchanged, and no
/// record that left was updated later than one that stayed.
pub open spec fn oldest_dropped(
    before: Map<Seq<char>, CachedGameModel>,
    after: Map<Seq<char>, CachedGameModel>,
    dropped: nat,
) -> bool {
    &&& after.dom().finite()
    &&& before.dom().finite()
    &&& after.dom().len() + dropped == before.dom().len()
    &&& forall|id: Seq<char>| #[trigger]
        after.contains_key(id) ==> before.contains_key(id) && after[id] == before[id]
    &&& forall|gone: Seq<char>, kept: Seq<char>|
        #![trigger before.contains_key(gone), after.contains_key(kept)]
        before.contains_key(gone) && !after.contains_key(gone) && after.contains_key(kept)
            ==> before[gone].last_updated <= before[kept].last_updated
}

struct CacheEntry {
    id: String,
    game: CachedGame,
}

/// The cache: at most one record for each game id.
pub struct AppCache {
    entries: Vec<CacheEntry>,
}

/// The ids of a list of entries, in order.
spec fn ids_of(entries: Seq<CacheEntry>) -> Seq<Seq<char>> {
    Seq::new(entries.len(), |i: int| entries[i].id@)
}

/// The records of a list of entries, by id.
spec fn games_of(entries: Seq<CacheEntry>) -> Map<Seq<char>, CachedGameModel> {
    Map::new(
        |id: Seq<char>| ids_of(entries).contains(id),
        |id: Seq<char>| entries[ids_of(entries).index_of(id)].game@,
    )
}

/// With distinct ids, each entry is the record of its id.
proof fn lemma_games_of(entries: Seq<CacheEntry>)
    requires
        ids_of(entries).no_duplicates(),
    ensures
        games_of(entries).dom().finite(),
        games_of(entries).dom().len() == entries.len(),
        forall|i: int|
            0 <= i < entries.len() ==> games_of(entries).contains_key(#[trigger] entries[i].id@)
                && games_of(entries)[entries[i].id@] == entries[i].game@,
        forall|id: Seq<char>| #[trigger]
            games_of(entries).contains_key(id) ==> exists|i: int|
                0 <= i < entries.len() && entries[i].id@ == id,
{
    let ids = ids_of(entries);
    assert(games_of(entries).dom() =~= ids.to_set());
    ids.unique_seq_to_set();
    assert forall|i: int| 0 <= i < entries.len() implies games_of(entries).contains_key(
        #[trigger] entries[i].id@,
    ) && games_of(entries)[entries[i].id@] == entries[i].game@ by {
        let id = entries[i].id@;
        assert(ids[i] == id);
        assert(ids.contains(id));
        let j = ids.index_of(id);
        assert(ids[j] == id);
    }
    assert forall|id: Seq<char>| #[trigger] games_of(entries).contains_key(id) implies exists|
        i: int,
    |
        0 <= i < entries.len() && entries[i].id@ == id by {
        let j = ids.index_of(id);
        assert(ids[j] == id);
        assert(0 <= j < entries.len() && entries[j].id@ == id);
    }
}

impl View for AppCache {
    type V = Map<Seq<char>, CachedGameModel>;

    closed spec fn view(&self) -> Map<Seq<char>, CachedGameModel> {
        games_of(self.entries@)
    }
}

impl AppCache {
    #[verifier::type_invariant]
    spec fn distinct_ids(&self) -> bool {
        ids_of(self.entries@).no_duplicates()
    }

    /// The ids of the cached games, in the order in which `id_at` and
    /// `game_at` hand the records out.
    pub closed spec fn ids(&self) -> Seq<Seq<char>> {
        ids_of(self.entries@)
    }

    /// An empty cache.
    pub fn new() -> (cache: AppCache)
        ensures
            cache@ == Map::<Seq<char>, CachedGameModel>::empty(),
            cache.ids().len() == 0,
    {
        let cache = AppCache { entries: Vec::new() };
        assert(cache@ =~= Map::<Seq<char>, CachedGameModel>::empty());
        cache
    }

    /// The number of cached games.
    pub fn len(&self) -> (n: usize)
        ensures
            n == self.ids().len(),
            self.ids().no_duplicates(),
            self@.dom().finite(),
            n == self@.dom().len(),
    {
        proof {
            use_type_invariant(self);
            lemma_games_of(self.entries@);
        }
        self.entries.len()
    }

    /// The id of the record at position `i`.
    pub fn id_at(&self, i: usize) -> (id: &String)
        requires
            i < self.ids().len(),
        ensures
            id@ == self.ids()[i as int],
            self@.contains_key(id@),
    {
        proof {
            use_type_invariant(self);
            lemma_games_of(self.entries@);
        }
        &self.entries[i].id
    }

    /// The record at position `i`.
    pub fn game_at(&self, i: usize) -> (game: &CachedGame)
        requires
            i < self.ids().len(),
        ensures
            self@.contains_key(self.ids()[i as int]),
            game@ == self@[self.ids()[i as int]],
    {
        proof {
            use_type_invariant(self);
            lemma_games_of(self.entries@);
        }
        &self.entries[i].game
    }

    /// Where the record of `game_id` stands, if there is one.
    fn position(&self, game_id: &String) -> (r: Option<usize>)
        ensures
            match r {
                Some(i) => i < self.entries.len() && self.entries[i as int].id@ == game_id@,
                None => forall|i: int| 0 <= i < self.entries.len() ==> self.entries[i].id@ != game_id@,
            },
    {
        let mut i: usize = 0;
        while i < self.entries.len()
            invariant
                i <= self.entries.len(),
                forall|k: int| 0 <= k < i ==> self.entries[k].id@ != game_id@,
            decreases self.entries.len() - i,
        {
            if self.entries[i].id == *game_id {
                return Some(i);
            }
            i += 1;
        }
        None
    }

    /// The record of `game_id`, if the cache has one.
    pub fn get(&self, game_id: &str) -> (r: Option<&CachedGame>)
        ensures
            match r {
                Some(game) => self@.contains_key(game_id@) && self@[game_id@] == game@,
                None => !self@.contains_key(game_id@),
            },
    {
        proof {
            use_type_invariant(self);
            lemma_games_of(self.entries@);
        }
        let key = game_id.to_owned();
        match self.position(&key) {
            Some(i) => Some(&self.entries[i].game),
            None => None,
        }
    }

    /// Takes the entries out, leaving the cache empty for the moment.
    fn take_entries(&mut self) -> (entries: Vec<CacheEntry>)
        ensures
            entries@ == old(self).entries@,
            ids_of(entries@).no_duplicates(),
            final(self).entries@.len() == 0,
    {
        proof {
            use_type_invariant(&*self);
        }
        let mut entries: Vec<CacheEntry> = Vec::new();
        core::mem::swap(&mut self.entries, &mut entries);
        entries
    }

    /// Puts entries with distinct ids in place of the current ones.
    fn put_entries(&mut self, entries: Vec<CacheEntry>)
        requires
            ids_of(entries@).no_duplicates(),
        ensures
            final(self).entries@ == entries@,
    {
        let mut entries = entries;
        core::mem::swap(&mut self.entries, &mut entries);
    }

    /// Stores `game` as the record of `game_id`, in place of any record that
    /// the cache held for that id.
    pub fn insert(&mut self, game_id: String, game: CachedGame)
        ensures
            final(self)@ == old(self)@.insert(game_id@, game@),
    {
        let found = self.position(&game_id);
        let mut entries = self.take_entries();
        let ghost before = entries@;
        let ghost id = game_id@;
        let ghost model = game@;
        let ghost at: int = match found {
            Some(i) => i as int,
            None => before.len() as int,
        };
        proof {
            lemma_games_of(before);
        }
        match found {
            Some(i) => {
                entries.remove(i);
                entries.insert(i, CacheEntry { id: game_id, game });
                proof {
                    assert(ids_of(entries@) =~= ids_of(before));
                }
            },
            None => {
                entries.push(CacheEntry { id: game_id, game });
                proof {
                    assert(ids_of(entries@) =~= ids_of(before).push(id));
                }
            },
        }
        proof {
            let after = entries@;
            assert(after[at].id@ == id && after[at].game@ == model);
            assert(forall|k: int| 0 <= k < before.len() && k != at ==> after[k] == before[k]);
            lemma_games_of(after);
            let want = games_of(before).insert(id, model);
            assert forall|key: Seq<char>| #[trigger] want.contains_key(key) implies games_of(
                after,
            ).contains_key(key) && games_of(after)[key] == want[key] by {
                if key != id {
                    let k = choose|k: int| 0 <= k < before.len() && before[k].id@ == key;
                    assert(after[k] == before[k]);
                    assert(after[k].id@ == key);
                }
            }
            assert forall|key: Seq<char>| #[trigger]
                games_of(after).contains_key(key) implies want.contains_key(key) by {
                let k = choose|k: int| 0 <= k < after.len() && after[k].id@ == key;
                if k != at {
                    assert(after[k] == before[k]);
                    assert(before[k].id@ == key);
                }
            }
            assert(games_of(after) =~= want);
        }
        self.put_entries(entries);
    }

    /// Takes the record of `game_id` out of the cache, if it has one.
    pub fn remove(&mut self, game_id: &String) -> (r: Option<CachedGame>)
        ensures
            final(self)@ == old(self)@.remove(game_id@),
            match r {
                Some(game) => old(self)@.contains_key(game_id@) && old(self)@[game_id@] == game@,
                None => !old(self)@.contains_key(game_id@),
            },
    {
        let found = self.position(game_id);
        let mut entries = self.take_entries();
        let ghost before = entries@;
        proof {
            lemma_games_of(before);
        }
        let r = match found {
            Some(i) => {
                let entry = entries.remove(i);
                proof {
                    let after = entries@;
                    assert(ids_of(after) =~= ids_of(before).remove(i as int));
                    ids_of(before).remove_ensures(i as int);
                    lemma_no_duplicates_remove(ids_of(before), i as int);
                    lemma_games_of(after);
                    let want = games_of(before).remove(game_id@);
                    assert forall|key: Seq<char>| #[trigger] want.contains_key(key) implies games_of(
                        after,
                    ).contains_key(key) && games_of(after)[key] == want[key] by {
                        let k = choose|k: int| 0 <= k < before.len() && before[k].id@ == key;
                        if k < i {
                            assert(after[k] == before[k]);
                            assert(after[k].id@ == key);
                        } else {
                            assert(after[k - 1] == before[k]);
                            assert(after[k - 1].id@ == key);
                        }
                    }
                    assert forall|key: Seq<char>| #[trigger]
                        games_of(after).contains_key(key) implies want.contains_key(key) by {
                        let k = choose|k: int| 0 <= k < after.len() && after[k].id@ == key;
                        if k < i {
                            assert(after[k] == before[k]);
                        } else {
                            assert(after[k] == before[k + 1]);
                        }
                    }
                    assert(games_of(after) =~= want);
                }
                Some(entry.game)
            },
            None => {
                proof {
                    assert(games_of(before) =~= games_of(before).remove(game_id@));
                }
                None
            },
        };
        self.put_entries(entries);
        r
    }

    /// Merges the supplied fields into the record of `game_id`, which is
    /// created when the cache has none, and stamps it with the time `now`.
    /// A field that is not supplied keeps its stored value. No other record
    /// changes.
    pub fn update_game(
        &mut self,
        game_id: String,
        name: Option<String>,
        achievements_total: Option<usize>,
        rarity: Option<RarityTable>,
        hidden: Option<Vec<String>>,
        now: u64,
    )
        ensures
            final(self)@ == updated(
                old(self)@,
                game_id@,
                GameUpdate {
                    name: opt_text(name),
                    achievements_total,
                    rarity: opt_rarity(rarity),
                    hidden: opt_names(hidden),
                },
                now,
            ),
    {
        let base = match self.remove(&game_id) {
            Some(game) => game,
            None => CachedGame {
                name: None,
                achievements_total: None,
                rarity: None,
                hidden: None,
                last_updated: 0,
            },
        };
        let game = CachedGame {
            name: match name {
                Some(n) => Some(n),
                None => base.name,
            },
            achievements_total: match achievements_total {
                Some(t) => Some(t),
                None => base.achievements_total,
            },
            rarity: match rarity {
                Some(r) => Some(r),
                None => base.rarity,
            },
            hidden: match hidden {
                Some(h) => Some(h),
                None => base.hidden,
            },
            last_updated: now,
        };
        let ghost model = game@;
        self.insert(game_id, game);
        assert(final(self)@ =~= old(self)@.insert(game_id@, model));
    }

    /// Drops the oldest fifth of the records, rounded up, by the time of
    /// their last update. Among records of the same age, which of them leave
    /// is not fixed.
    pub fn evict_oldest(&mut self) -> (dropped: usize)
        ensures
            dropped == eviction_count(old(self)@.dom().len()),
            oldest_dropped(old(self)@, final(self)@, dropped as nat),
            old(self)@.dom().len() > 0 ==> final(self)@.dom().len() < old(self)@.dom().len(),
    {
        let mut entries = self.take_entries();
        let ghost start = entries@;
        let n = entries.len();
        let extra: usize = if n % 5 != 0 {
            1
        } else {
            0
        };
        let k: usize = n / 5 + extra;
        let mut removed: usize = 0;
        proof {
            lemma_games_of(start);
        }
        while removed < k
            invariant
                removed <= k <= n == start.len(),
                entries.len() + removed == n,
                ids_of(entries@).no_duplicates(),
                forall|j: int| 0 <= j < entries.len() ==> start.contains(#[trigger] entries@[j]),
                forall|i: int|
                    0 <= i < start.len() ==> entries@.contains(#[trigger] start[i]) || not_newer(
                        start[i],
                        entries@,
                    ),
            decreases k - removed,
        {
            let m = oldest_index(&entries);
            let ghost prev = entries@;
            entries.remove(m);
            proof {
                let cur = entries@;
                assert(ids_of(cur) =~= ids_of(prev).remove(m as int));
                lemma_no_duplicates_remove(ids_of(prev), m as int);
                assert forall|j: int| 0 <= j < cur.len() implies start.contains(
                    #[trigger] cur[j],
                ) by {
                    if j < m {
                        assert(cur[j] == prev[j]);
                    } else {
                        assert(cur[j] == prev[j + 1]);
                    }
                }
                assert forall|j: int| 0 <= j < cur.len() implies prev.contains(#[trigger] cur[j]) by {
                    if j < m {
                        assert(cur[j] == prev[j]);
                    } else {
                        assert(cur[j] == prev[j + 1]);
                    }
                }
                assert forall|i: int| 0 <= i < start.len() implies cur.contains(
                    #[trigger] start[i],
                ) || not_newer(start[i], cur) by {
                    if prev.contains(start[i]) {
                        let j = choose|j: int| 0 <= j < prev.len() && prev[j] == start[i];
                        if j < m {
                            assert(cur[j] == start[i]);
                        } else if j > m {
                            assert(cur[j - 1] == start[i]);
                        } else {
                            assert(not_newer(prev[m as int], prev));
                            assert(not_newer(start[i], cur));
                        }
                    } else {
                        assert(not_newer(start[i], prev));
                        assert(not_newer(start[i], cur));
                    }
                }
            }
            removed += 1;
        }
        proof {
            let cur = entries@;
            lemma_games_of(cur);
            let before = games_of(start);
            let after = games_of(cur);
            assert forall|id: Seq<char>| #[trigger] after.contains_key(id) implies before.contains_key(
                id,
            ) && after[id] == before[id] by {
                let j = choose|j: int| 0 <= j < cur.len() && cur[j].id@ == id;
                assert(start.contains(cur[j]));
                let i = choose|i: int| 0 <= i < start.len() && start[i] == cur[j];
                assert(start[i].id@ == id);
            }
            assert forall|gone: Seq<char>, kept: Seq<char>|
                #![trigger before.contains_key(gone), after.contains_key(kept)]
                before.contains_key(gone) && !after.contains_key(gone) && after.contains_key(
                    kept,
                ) implies before[gone].last_updated <= before[kept].last_updated by {
                let i = choose|i: int| 0 <= i < start.len() && start[i].id@ == gone;
                let j = choose|j: int| 0 <= j < cur.len() && cur[j].id@ == kept;
                if cur.contains(start[i]) {
                    let jj = choose|jj: int| 0 <= jj < cur.len() && cur[jj] == start[i];
                    assert(cur[jj].id@ == gone);
                    assert(false);
                }
                assert(not_newer(start[i], cur));
                assert(start[i].game.last_updated <= cur[j].game.last_updated);
                assert(after[kept] == cur[j].game@);
            }
        }
        self.put_entries(entries);
        k
    }

    /// Shrinks the cache when its stored form, `stored_len` bytes long, is
    /// over the budget: then the oldest fifth of the records leave. Within
    /// the budget nothing changes.
    pub fn enforce_budget(&mut self, stored_len: u64) -> (dropped: usize)
        ensures
            stored_len <= MAX_CACHE_SIZE ==> dropped == 0 && final(self)@ == old(self)@,
            stored_len > MAX_CACHE_SIZE ==> dropped == eviction_count(old(self)@.dom().len())
                && oldest_dropped(old(self)@, final(self)@, dropped as nat),
            stored_len > MAX_CACHE_SIZE && old(self)@.dom().len() > 0 ==> final(self)@.dom().len()
                < old(self)@.dom().len(),
    {
        if stored_len > MAX_CACHE_SIZE {
            self.evict_oldest()
        } else {
            0
        }
    }
}

/// That no entry of `entries` was updated before `e`.
spec fn not_newer(e: CacheEntry, entries: Seq<CacheEntry>) -> bool {
    forall|j: int|
        0 <= j < entries.len() ==> e.game.last_updated <= (#[trigger] entries[j]).game.last_updated
}

proof fn lemma_no_duplicates_remove(ids: Seq<Seq<char>>, at: int)
    requires
        ids.no_duplicates(),
        0 <= at < ids.len(),
    ensures
        ids.remove(at).no_duplicates(),
        !ids.remove(at).contains(ids[at]),
{
    let r = ids.remove(at);
    assert forall|i: int, j: int| 0 <= i < r.len() && 0 <= j < r.len() && i != j implies r[i]
        != r[j] by {
        let a = if i < at { i } else { i + 1 };
        let b = if j < at { j } else { j + 1 };
        assert(r[i] == ids[a] && r[j] == ids[b]);
    }
    if r.contains(ids[at]) {
        let i = choose|i: int| 0 <= i < r.len() && r[i] == ids[at];
        let a = if i < at { i } else { i + 1 };
        assert(r[i] == ids[a]);
    }
}

/// The position of a record that no other record is older than.
fn oldest_index(entries: &Vec<CacheEntry>) -> (m: usize)
    requires
        entries.len() > 0,
    ensures
        m < entries.len(),
        not_newer(entries[m as int], entries@),
{
    let mut m: usize = 0;
    let mut i: usize = 1;
    while i < entries.len()
        invariant
            m < i <= entries.len(),
            forall|j: int|
                0 <= j < i ==> entries[m as int].game.last_updated <= (
                #[trigger] entries[j]).game.last_updated,
        decreases entries.len() - i,
    {
        if entries[i].game.last_updated < entries[m].game.last_updated {
            m = i;
        }
        i += 1;
    }
    m
}

/// Whether caching is switched on by a settings document: it is, unless the
/// document is a JSON object whose member `enableCache` is the boolean
/// `false`. With no settings, or settings that do not parse, it is on.
pub open spec fn cache_enabled(settings: Option<Seq<char>>) -> bool {
    match settings {
        None => true,
        Some(text) => match json_document(text) {
            None => true,
            Some(document) => match model_get(document, "enableCache"@) {
                Some(v) => match model_bool(v) {
                    Some(b) => b,
                    None => true,
                },
                None => true,
            },
        },
    }
}

/// The rules of the cache around its storage: the caching switch, and what
/// is done with a cache that was or was not found in storage.
pub struct CacheManager;

impl CacheManager {
    /// Reads the caching switch from the text of the settings document, if
    /// there is one.
    pub fn is_cache_enabled(settings: Option<&str>) -> (r: bool)
        ensures
            r == cache_enabled(opt_str(settings)),
    {
        let text = match settings {
            Some(text) => text,
            None => {
                return true;
            },
        };
        let document = match json_from_str(text) {
            Ok(v) => v,
            Err(_) => {
                return true;
            },
        };
        match value_get(&document, "enableCache") {
            Some(v) => match v.as_bool() {
                Some(b) => b,
                None => true,
            },
            None => true,
        }
    }

    /// The cache to work on: the stored one, or an empty one when nothing
    /// usable is stored.
    pub fn load(stored: Option<AppCache>) -> (cache: AppCache)
        ensures
            match stored {
                Some(c) => cache@ == c@,
                None => cache@ == Map::<Seq<char>, CachedGameModel>::empty(),
            },
    {
        match stored {
            Some(c) => c,
            None => AppCache::new(),
        }
    }

    /// A copy of the record of `game_id`. With caching switched off there is
    /// never one.
    pub fn get_game(cache: &AppCache, enabled: bool, game_id: &str) -> (r: Option<CachedGame>)
        ensures
            match r {
                Some(game) => enabled && cache@.contains_key(game_id@) && cache@[game_id@] == game@,
                None => !enabled || !cache@.contains_key(game_id@),
            },
    {
        if !enabled {
            return None;
        }
        match cache.get(game_id) {
            Some(game) => Some(game.duplicate()),
            None => None,
        }
    }

    /// Merges an update into the cache. The caching switch is of no account
    /// here: it gates reading alone, and every update is to be stored.
    pub fn update_game(
        cache: &mut AppCache,
        game_id: String,
        name: Option<String>,
        achievements_total: Option<usize>,
        rarity: Option<RarityTable>,
        hidden: Option<Vec<String>>,
        now: u64,
    )
        ensures
            final(cache)@ == updated(
                old(cache)@,
                game_id@,
                GameUpdate {
                    name: opt_text(name),
                    achievements_total,
                    rarity: opt_rarity(rarity),
                    hidden: opt_names(hidden),
                },
                now,
            ),
    {
        cache.update_game(game_id, name, achievements_total, rarity, hidden, now);
    }
}

} // verus!
