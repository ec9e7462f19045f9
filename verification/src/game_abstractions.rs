use crate::messages::{same_text, PlayerMove, PlayerMoveResult};
use crate::messages::texts_of;
use crate::quoridor_match::{QuoridorMatch, QuoridorMatchView};
use vstd::prelude::*;

verus! {

/// The games a match can be of.
#[derive(Debug, Clone, Copy, PartialEq, Eq, Structural)]
pub enum MatchType {
    Quoridor,
    Unknown,
}

impl MatchType {
    /// The number of players a match of this type is played by: 2 for
    /// Quoridor, 0 for an unknown game.
    pub fn get_expected_players(&self) -> (players: usize)
        ensures
            players == self.expected_players(),
    {
        match self {
            Self::Quoridor => 2,
            _ => 0,
        }
    }

    /// The number of players a match of this type is played by.
    pub open spec fn expected_players(&self) -> usize {
        match self {
            MatchType::Quoridor => 2,
            MatchType::Unknown => 0,
        }
    }
}

/// What a look-up of a match gives: the match, or the word that there is
/// none.
#[derive(Debug)]
pub enum Match {
    ActiveQuoridor(QuoridorMatch),
    NotFound,
}

impl Match {
    /// The state of the match that was found.
    pub open spec fn state(&self) -> QuoridorMatchView
        recommends
            self is ActiveQuoridor,
    {
        self->ActiveQuoridor_0@
    }

    /// A match of the type `match_type` between the players of
    /// `player_list`, begun at the time `now`; `None` for an unknown game.
    pub fn new(player_list: &Vec<String>, match_type: MatchType, now: i64) -> (made: Option<Self>)
        requires
            player_list@.len() >= 1,
        ensures
            made is Some == (match_type == MatchType::Quoridor),
            made matches Some(found) ==> found is ActiveQuoridor && found.state().begins(
                texts_of(player_list@),
                now,
            ) && found.state().inv(),
    {
        match match_type {
            MatchType::Quoridor => Some(Self::ActiveQuoridor(QuoridorMatch::new_at(player_list, now))),
            _ => None,
        }
    }

    /// The match that was found, to read.
    pub fn expose(&self) -> (game: &QuoridorMatch)
        requires
            self is ActiveQuoridor,
        ensures
            game@ == self.state(),
    {
        match self {
            Match::ActiveQuoridor(game) => game,
            Match::NotFound => vstd::pervasive::unreached(),
        }
    }

    /// Whether `player` plays in the match that was found.
    pub fn contains_player(&self, player: &str) -> (plays: bool)
        requires
            self is ActiveQuoridor,
        ensures
            plays == (player@ == self.state().up_player || player@ == self.state().down_player),
    {
        self.expose().contains_player(player)
    }

    /// The winner of the match that was found, once it is over.
    pub fn get_winner(&self) -> (winner: Option<String>)
        requires
            self is ActiveQuoridor,
        ensures
            winner is Some == self.state().winner is Some,
            winner is Some ==> winner->0@ == self.state().winner->0,
    {
        self.expose().get_winner()
    }
}

impl Clone for Match {
    fn clone(&self) -> (copy: Self)
        ensures
            copy is ActiveQuoridor == self is ActiveQuoridor,
            self is ActiveQuoridor ==> copy.state() == self.state(),
    {
        match self {
            Match::ActiveQuoridor(game) => Match::ActiveQuoridor(game.clone()),
            Match::NotFound => Match::NotFound,
        }
    }
}


impl Match {
    /// The match that was found, to change.
    pub fn unwrap(&mut self) -> (game: &mut QuoridorMatch)
        requires
            *old(self) is ActiveQuoridor,
        ensures
            *game == (*old(self))->ActiveQuoridor_0,
            *final(self) == Match::ActiveQuoridor(*final(game)),
    {
        match self {
            Match::ActiveQuoridor(game) => game,
            Match::NotFound => vstd::pervasive::unreached(),
        }
    }
}

/// The states of a list of matches.
pub open spec fn states_of(matchs: Seq<Match>) -> Seq<QuoridorMatchView> {
    matchs.map_values(|found: Match| found.state())
}

/// Some index at which `id` stands in `ids`, where it stands in it.
pub open spec fn slot_of(ids: Seq<Seq<char>>, id: Seq<char>) -> int {
    choose|i: int| 0 <= i < ids.len() && ids[i] == id
}

/// Whether no two entries of `ids` are the same.
pub open spec fn distinct(ids: Seq<Seq<char>>) -> bool {
    forall|i: int, j: int| 0 <= i < j < ids.len() ==> ids[i] != ids[j]
}

/// Whether a match stays in the store at the time `now`: it has no winner
/// and has not been silent for longer than the grace window.
pub open spec fn survives(game: QuoridorMatchView, now: i64) -> bool {
    game.winner is None && !game.timed_out(now)
}

/// The identifiers of the matches that stay in the store at the time `now`,
/// in their order.
pub open spec fn swept_ids(ids: Seq<Seq<char>>, games: Seq<QuoridorMatchView>, now: i64) -> Seq<Seq<char>>
    decreases ids.len(),
{
    if ids.len() == 0 || games.len() == 0 {
        Seq::empty()
    } else {
        let rest = swept_ids(ids.drop_last(), games.drop_last(), now);
        if survives(games.last(), now) {
            rest.push(ids.last())
        } else {
            rest
        }
    }
}

/// The matches that stay in the store at the time `now`, in their order.
pub open spec fn swept_games(games: Seq<QuoridorMatchView>, now: i64) -> Seq<QuoridorMatchView>
    decreases games.len(),
{
    if games.len() == 0 {
        Seq::empty()
    } else {
        let rest = swept_games(games.drop_last(), now);
        if survives(games.last(), now) {
            rest.push(games.last())
        } else {
            rest
        }
    }
}

/// The identifiers of the matches that leave the store at the time `now`, in
/// their order.
pub open spec fn evicted_ids(ids: Seq<Seq<char>>, games: Seq<QuoridorMatchView>, now: i64) -> Seq<Seq<char>>
    decreases ids.len(),
{
    if ids.len() == 0 || games.len() == 0 {
        Seq::empty()
    } else {
        let rest = evicted_ids(ids.drop_last(), games.drop_last(), now);
        if survives(games.last(), now) {
            rest
        } else {
            rest.push(ids.last())
        }
    }
}

/// The matches that leave the store at the time `now`, in their order, each
/// as the look at the clock leaves it: where it was silent for too long, the
/// player to move has given up.
pub open spec fn evicted_games(games: Seq<QuoridorMatchView>, now: i64) -> Seq<QuoridorMatchView>
    decreases games.len(),
{
    if games.len() == 0 {
        Seq::empty()
    } else {
        let rest = evicted_games(games.drop_last(), now);
        if survives(games.last(), now) {
            rest
        } else {
            rest.push(games.last().guarded(now))
        }
    }
}

/// A sweep leaves as many identifiers as matches, and no more than there
/// were.
pub proof fn lemma_swept_len(ids: Seq<Seq<char>>, games: Seq<QuoridorMatchView>, now: i64)
    requires
        ids.len() == games.len(),
    ensures
        swept_ids(ids, games, now).len() == swept_games(games, now).len(),
        swept_ids(ids, games, now).len() <= ids.len(),
    decreases ids.len(),
{
    if ids.len() > 0 {
        lemma_swept_len(ids.drop_last(), games.drop_last(), now);
    }
}

/// A sweep of matches in order under distinct identifiers leaves matches in
/// order under distinct identifiers.
pub proof fn lemma_swept_in_order(ids: Seq<Seq<char>>, games: Seq<QuoridorMatchView>, now: i64)
    requires
        ids.len() == games.len(),
        distinct(ids),
        forall|i: int| 0 <= i < games.len() ==> (#[trigger] games[i]).inv(),
    ensures
        distinct(swept_ids(ids, games, now)),
        forall|i: int|
            0 <= i < swept_games(games, now).len() ==> (#[trigger] swept_games(games, now)[i]).inv(),
        forall|i: int|
            0 <= i < swept_ids(ids, games, now).len() ==> ids.contains(#[trigger] swept_ids(ids, games, now)[i]),
    decreases ids.len(),
{
    if ids.len() > 0 {
        let short_ids = ids.drop_last();
        let short_games = games.drop_last();
        lemma_swept_in_order(short_ids, short_games, now);
        lemma_swept_len(short_ids, short_games, now);
        let rest = swept_ids(short_ids, short_games, now);
        let all = swept_ids(ids, games, now);
        assert forall|i: int| 0 <= i < all.len() implies ids.contains(#[trigger] all[i]) by {
            if i < rest.len() {
                assert(short_ids.contains(rest[i]));
                let k = choose|k: int| 0 <= k < short_ids.len() && short_ids[k] == rest[i];
                assert(ids[k] == rest[i]);
            } else {
                assert(ids[ids.len() - 1] == all[i]);
            }
        }
        assert forall|i: int, j: int| 0 <= i < j < all.len() implies all[i] != all[j] by {
            if j >= rest.len() {
                assert(short_ids.contains(rest[i]));
                let k = choose|k: int| 0 <= k < short_ids.len() && short_ids[k] == rest[i];
                assert(ids[k] == rest[i]);
            }
        }
        let kept = swept_games(games, now);
        assert forall|i: int| 0 <= i < kept.len() implies (#[trigger] kept[i]).inv() by {
            if i >= swept_games(short_games, now).len() {
                assert(kept[i] == games[games.len() - 1]);
            }
        }
    }
}

/// The store of the live matches, each under its identifier.
///
/// The store reads no clock and draws no identifiers: the time and the
/// identifier come with each call.
pub struct ActiveMatchs {
    owners: Vec<String>,
    matchs: Vec<Match>,
}

impl ActiveMatchs {
    /// The identifiers of the matches, in the order in which they entered.
    pub closed spec fn ids(&self) -> Seq<Seq<char>> {
        texts_of(self.owners@)
    }

    /// The states of the matches, in the order in which they entered.
    pub closed spec fn games(&self) -> Seq<QuoridorMatchView> {
        states_of(self.matchs@)
    }

    /// Whether each entry holds a match.
    pub closed spec fn all_active(&self) -> bool {
        forall|i: int| 0 <= i < self.matchs@.len() ==> (#[trigger] self.matchs@[i]) is ActiveQuoridor
    }

    /// A store in order: every identifier names one match, no identifier
    /// stands twice, and every match is in order.
    pub open spec fn inv(&self) -> bool {
        &&& self.all_active()
        &&& self.ids().len() == self.games().len()
        &&& distinct(self.ids())
        &&& forall|i: int| 0 <= i < self.games().len() ==> (#[trigger] self.games()[i]).inv()
    }

    /// Whether a match stands under `id`.
    pub open spec fn has(&self, id: Seq<char>) -> bool {
        self.ids().contains(id)
    }

    /// The state of the match that stands under `id`.
    pub open spec fn game_of(&self, id: Seq<char>) -> QuoridorMatchView
        recommends
            self.has(id),
    {
        self.games()[slot_of(self.ids(), id)]
    }

    /// An empty store.
    pub fn new() -> (store: Self)
        ensures
            store.ids().len() == 0,
            store.games().len() == 0,
            store.inv(),
    {
        Self { owners: Vec::new(), matchs: Vec::new() }
    }

    /// The number of matches in the store.
    pub fn len(&self) -> (n: usize)
        requires
            self.inv(),
        ensures
            n == self.ids().len(),
    {
        self.owners.len()
    }

    /// The index of the match that stands under `owner`, if there is one.
    pub fn find_owner(&self, owner: &str) -> (found: Option<usize>)
        requires
            self.inv(),
        ensures
            found matches Some(i) ==> i < self.ids().len() && self.ids()[i as int] == owner@ && i == slot_of(
                self.ids(),
                owner@,
            ),
            found is Some == self.has(owner@),
    {
        let mut i: usize = 0;
        while i < self.owners.len()
            invariant
                i <= self.owners@.len(),
                self.inv(),
                forall|j: int| 0 <= j < i ==> self.ids()[j] != owner@,
            decreases self.owners@.len() - i,
        {
            if same_text(self.owners[i].as_str(), owner) {
                proof {
                    assert(self.ids()[i as int] == owner@);
                    let chosen = slot_of(self.ids(), owner@);
                    assert(chosen == i as int);
                }
                return Some(i);
            }
            i += 1;
        }
        None
    }

    /// The index of the first match in which `player` plays, if there is one.
    pub fn find_player(&self, player: &str) -> (found: Option<usize>)
        requires
            self.inv(),
        ensures
            found matches Some(i) ==> i < self.games().len() && plays_in(self.games()[i as int], player@)
                && forall|j: int| 0 <= j < i ==> !plays_in(#[trigger] self.games()[j], player@),
            found is None ==> forall|j: int|
                0 <= j < self.games().len() ==> !plays_in(#[trigger] self.games()[j], player@),
    {
        let mut i: usize = 0;
        while i < self.matchs.len()
            invariant
                i <= self.matchs@.len(),
                self.inv(),
                forall|j: int| 0 <= j < i ==> !plays_in(#[trigger] self.games()[j], player@),
            decreases self.matchs@.len() - i,
        {
            proof {
                assert(self.matchs@[i as int] is ActiveQuoridor);
                assert(self.games()[i as int] == self.matchs@[i as int].state());
            }
            if self.matchs[i].contains_player(player) {
                return Some(i);
            }
            i += 1;
        }
        None
    }

    /// Puts a match of the type `match_type` between the players of
    /// `player_list` into the store under the identifier `owner`, begun at
    /// the time `now`, and says whether it did. Nothing is stored for an
    /// unknown game, for an empty list of players, or under an identifier
    /// that is taken.
    pub fn append(&mut self, player_list: &Vec<String>, owner: &str, match_type: MatchType, now: i64) -> (stored:
        bool)
        requires
            old(self).inv(),
        ensures
            final(self).inv(),
            Self::appended(old(self), final(self), texts_of(player_list@), owner@, match_type, now, stored),
    {
        if player_list.len() == 0 || self.find_owner(owner).is_some() {
            return false;
        }
        let new_match = Match::new(player_list, match_type, now);
        match new_match {
            Some(found) => {
                self.matchs.push(found);
                self.owners.push(owner.to_owned());
                proof {
                    let n = old(self).matchs@.len() as int;
                    assert(self.ids() =~= old(self).ids().push(owner@));
                    assert(self.games().drop_last() =~= old(self).games());
                    assert(self.games().last() == found.state());
                    assert forall|i: int| 0 <= i < self.matchs@.len() implies (#[trigger] self.matchs@[i])
                        is ActiveQuoridor by {
                        if i < n {
                            assert(self.matchs@[i] == old(self).matchs@[i]);
                        }
                    }
                    assert forall|i: int| 0 <= i < self.games().len() implies (#[trigger] self.games()[i]).inv() by {
                        if i < n {
                            assert(self.games()[i] == old(self).games()[i]);
                        }
                    }
                    assert forall|i: int, j: int| 0 <= i < j < self.ids().len() implies self.ids()[i]
                        != self.ids()[j] by {
                        assert(self.ids()[i] == old(self).ids()[i]);
                        if j < n {
                            assert(self.ids()[j] == old(self).ids()[j]);
                        }
                    }
                }
                true
            },
            None => false,
        }
    }

    /// Puts a match between `player` and the computer into the store under
    /// the identifier `id`, begun at the time `now`, and gives the
    /// identifier back where it did.
    pub fn create_cpu_game(&mut self, player: &str, game_type: MatchType, id: String, now: i64) -> (created: Option<
        String,
    >)
        requires
            old(self).inv(),
        ensures
            final(self).inv(),
            Self::appended(old(self), final(self), seq![player@], id@, game_type, now, created is Some),
            created matches Some(given) ==> given@ == id@,
    {
        let mut player_list: Vec<String> = Vec::new();
        player_list.push(player.to_owned());
        proof {
            assert(texts_of(player_list@) =~= seq![player@]);
        }
        if self.append(&player_list, id.as_str(), game_type, now) {
            Some(id)
        } else {
            None
        }
    }

    /// A copy of the match that stands under `owner`, if there is one.
    pub fn get_match(&self, owner: &str) -> (found: Option<Match>)
        requires
            self.inv(),
        ensures
            found is Some == self.has(owner@),
            found matches Some(copy) ==> copy is ActiveQuoridor && copy.state() == self.game_of(owner@),
    {
        match self.find_owner(owner) {
            Some(i) => {
                proof {
                    assert(self.matchs@[i as int] is ActiveQuoridor);
                    assert(self.games()[i as int] == self.matchs@[i as int].state());
                }
                Some(self.matchs[i].clone())
            },
            None => None,
        }
    }

    /// Plays the move that `player` submits to the match under `owner` at
    /// the time `now`, with the computer's answer where it is due; `None`
    /// where no match stands under `owner`.
    pub fn make_move(&mut self, owner: &str, player_move: PlayerMove, player: &str, now: i64) -> (result: Option<
        PlayerMoveResult,
    >)
        requires
            old(self).inv(),
        ensures
            final(self).inv(),
            Self::moved(old(self), final(self), owner@, player_move, player@, now, result),
    {
        match self.find_owner(owner) {
            Some(i) => {
                proof {
                    assert(self.matchs@[i as int] is ActiveQuoridor);
                    assert(self.games()[i as int] == self.matchs@[i as int].state());
                }
                let mut entry = self.matchs.remove(i);
                let game = entry.unwrap();
                let answer = game.make_move_at(player_move, player, now);
                self.matchs.insert(i, entry);
                proof {
                    let before = old(self).matchs@;
                    let after = self.matchs@;
                    assert(after.len() == before.len());
                    assert forall|j: int| 0 <= j < after.len() && j != i implies after[j] == before[j] by {}
                    assert(after[i as int] == entry);
                    assert(self.games() =~= old(self).games().update(i as int, entry.state()));
                    assert forall|j: int| 0 <= j < after.len() implies (#[trigger] after[j]) is ActiveQuoridor by {
                        if j != i {
                            assert(after[j] == before[j]);
                        }
                    }
                    assert forall|j: int| 0 <= j < self.games().len() implies (#[trigger] self.games()[j]).inv() by {
                        if j != i {
                            assert(self.games()[j] == old(self).games()[j]);
                        }
                    }
                }
                Some(answer)
            },
            None => None,
        }
    }

    /// Takes the match under `owner` out of the store, if there is one.
    pub fn drop(&mut self, owner: &str)
        requires
            old(self).inv(),
        ensures
            final(self).inv(),
            !old(self).has(owner@) ==> final(self).ids() == old(self).ids() && final(self).games() == old(self).games(),
            old(self).has(owner@) ==> final(self).ids() == old(self).ids().remove(slot_of(old(self).ids(), owner@))
                && final(self).games() == old(self).games().remove(slot_of(old(self).ids(), owner@)),
            !final(self).has(owner@),
    {
        match self.find_owner(owner) {
            Some(i) => {
                self.matchs.remove(i);
                self.owners.remove(i);
                proof {
                    let before = old(self).matchs@;
                    let after = self.matchs@;
                    assert(self.ids() =~= old(self).ids().remove(i as int));
                    assert(self.games() =~= old(self).games().remove(i as int));
                    assert forall|j: int| 0 <= j < after.len() implies (#[trigger] after[j]) is ActiveQuoridor by {
                        let k = if j < i { j } else { j + 1 };
                        assert(after[j] == before[k]);
                    }
                    assert forall|j: int| 0 <= j < self.games().len() implies (#[trigger] self.games()[j]).inv() by {
                        let k = if j < i { j } else { j + 1 };
                        assert(self.games()[j] == old(self).games()[k]);
                    }
                    assert forall|a: int, b: int| 0 <= a < b < self.ids().len() implies self.ids()[a]
                        != self.ids()[b] by {
                        let ka = if a < i { a } else { a + 1 };
                        let kb = if b < i { b } else { b + 1 };
                        assert(self.ids()[a] == old(self).ids()[ka]);
                        assert(self.ids()[b] == old(self).ids()[kb]);
                    }
                    if self.has(owner@) {
                        let a = choose|a: int| 0 <= a < self.ids().len() && self.ids()[a] == owner@;
                        let ka = if a < i { a } else { a + 1 };
                        assert(self.ids()[a] == old(self).ids()[ka]);
                    }
                }
            },
            None => {},
        }
    }

    /// Takes out of the store every match that is over or has been silent
    /// for longer than the grace window at the time `now`, and gives back the
    /// identifiers of the matches it took out and the matches themselves as
    /// they ended. A match that has been silent for that long ends with the
    /// player to move giving up.
    pub fn sweep_at(&mut self, now: i64) -> (dropped: (Vec<String>, Vec<Match>))
        requires
            old(self).inv(),
        ensures
            final(self).inv(),
            Self::swept(old(self), final(self), now, texts_of(dropped.0@), states_of(dropped.1@)),
            forall|j: int| 0 <= j < dropped.1@.len() ==> (#[trigger] dropped.1@[j]) is ActiveQuoridor,
    {
        let mut kept_owners: Vec<String> = Vec::new();
        let mut kept: Vec<Match> = Vec::new();
        let mut dropped: Vec<String> = Vec::new();
        let mut ended: Vec<Match> = Vec::new();
        let ghost all_ids = self.ids();
        let ghost all_games = self.games();
        let mut i: usize = 0;
        while i < self.matchs.len()
            invariant
                i <= self.matchs@.len(),
                self.inv(),
                self.ids() == all_ids,
                self.games() == all_games,
                texts_of(kept_owners@) == swept_ids(all_ids.subrange(0, i as int), all_games.subrange(0, i as int), now),
                states_of(kept@) == swept_games(all_games.subrange(0, i as int), now),
                texts_of(dropped@) == evicted_ids(
                    all_ids.subrange(0, i as int),
                    all_games.subrange(0, i as int),
                    now,
                ),
                states_of(ended@) == evicted_games(all_games.subrange(0, i as int), now),
                forall|j: int| 0 <= j < kept@.len() ==> (#[trigger] kept@[j]) is ActiveQuoridor,
                forall|j: int| 0 <= j < ended@.len() ==> (#[trigger] ended@[j]) is ActiveQuoridor,
            decreases self.matchs@.len() - i,
        {
            proof {
                assert(self.matchs@[i as int] is ActiveQuoridor);
                assert(self.games()[i as int] == self.matchs@[i as int].state());
                assert(all_ids.subrange(0, i + 1).drop_last() =~= all_ids.subrange(0, i as int));
                assert(all_games.subrange(0, i + 1).drop_last() =~= all_games.subrange(0, i as int));
            }
            let game = self.matchs[i].expose();
            let over = game.get_winner().is_some() || crate::clock::is_elapsed_over(
                game.get_timestamp(),
                now,
                crate::clock::AFK_CC_TIMER,
            );
            if over {
                let ghost dropped_before = dropped@;
                let ghost ended_before = ended@;
                let mut gone = self.matchs[i].clone();
                gone.unwrap().timeout_guard_at(now);
                dropped.push(self.owners[i].clone());
                ended.push(gone);
                proof {
                    assert(texts_of(dropped@) =~= texts_of(dropped_before).push(all_ids[i as int]));
                    assert(states_of(ended@) =~= states_of(ended_before).push(all_games[i as int].guarded(now)));
                }
            } else {
                let ghost kept_before = kept@;
                let ghost owners_before = kept_owners@;
                kept.push(self.matchs[i].clone());
                kept_owners.push(self.owners[i].clone());
                proof {
                    assert(texts_of(kept_owners@) =~= texts_of(owners_before).push(all_ids[i as int]));
                    assert(states_of(kept@) =~= states_of(kept_before).push(all_games[i as int]));
                }
            }
            i += 1;
        }
        proof {
            assert(all_ids.subrange(0, i as int) =~= all_ids);
            assert(all_games.subrange(0, i as int) =~= all_games);
            lemma_swept_in_order(all_ids, all_games, now);
            lemma_swept_len(all_ids, all_games, now);
        }
        self.matchs = kept;
        self.owners = kept_owners;
        (dropped, ended)
    }
}

impl ActiveMatchs {
    /// Whether `after` is what a look at the clock at the time `now` makes of
    /// the match under `owner` in `before`: where that match has been silent
    /// for longer than the grace window, the player to move has given up.
    /// Nothing else changes.
    pub open spec fn guarded(before: &ActiveMatchs, after: &ActiveMatchs, owner: Seq<char>, now: i64) -> bool {
        &&& after.ids() == before.ids()
        &&& if before.has(owner) {
            after.games() == before.games().update(
                slot_of(before.ids(), owner),
                before.game_of(owner).guarded(now),
            )
        } else {
            after.games() == before.games()
        }
    }

    /// Whether `after` and `result` are what the move that `player` submits
    /// to the match under `owner` at the time `now` makes of `before`: the
    /// match plays the move, with the computer's answer where it is due, and
    /// nothing else changes; `None` where no match stands under `owner`.
    pub open spec fn moved(
        before: &ActiveMatchs,
        after: &ActiveMatchs,
        owner: Seq<char>,
        player_move: PlayerMove,
        player: Seq<char>,
        now: i64,
        result: Option<PlayerMoveResult>,
    ) -> bool {
        &&& after.ids() == before.ids()
        &&& result is Some == before.has(owner)
        &&& result is None ==> after.games() == before.games()
        &&& result matches Some(answer) ==> before.game_of(owner).made_move(
            player_move,
            player,
            now,
            after.game_of(owner),
            answer,
        ) && after.games() == before.games().update(slot_of(before.ids(), owner), after.game_of(owner))
    }

    /// Whether `after` is what a match between `players` makes of `before`
    /// when it begins at the time `now` and enters under `id`, `stored`
    /// saying whether it did: it enters behind the others where the game is
    /// known, there is a player, and the identifier is free.
    pub open spec fn appended(
        before: &ActiveMatchs,
        after: &ActiveMatchs,
        players: Seq<Seq<char>>,
        id: Seq<char>,
        match_type: MatchType,
        now: i64,
        stored: bool,
    ) -> bool {
        &&& stored == (match_type == MatchType::Quoridor && players.len() >= 1 && !before.has(id))
        &&& stored ==> after.ids() == before.ids().push(id) && after.games().len() == before.games().len() + 1
            && after.games().last().begins(players, now) && after.games().drop_last() == before.games()
        &&& !stored ==> after.ids() == before.ids() && after.games() == before.games()
    }

    /// Whether `after`, `dropped` and `ended` are what a sweep at the time
    /// `now` makes of `before`: the matches that are over or have been silent
    /// for longer than the grace window leave, `dropped` names them, and
    /// `ended` holds them as they ended.
    pub open spec fn swept(
        before: &ActiveMatchs,
        after: &ActiveMatchs,
        now: i64,
        dropped: Seq<Seq<char>>,
        ended: Seq<QuoridorMatchView>,
    ) -> bool {
        &&& after.ids() == swept_ids(before.ids(), before.games(), now)
        &&& after.games() == swept_games(before.games(), now)
        &&& dropped == evicted_ids(before.ids(), before.games(), now)
        &&& ended == evicted_games(before.games(), now)
    }

    /// Looks at the clock for the match under `owner`: where it has been
    /// silent for longer than the grace window at the time `now`, the player
    /// to move concedes.
    pub fn timeout_guard(&mut self, owner: &str, now: i64)
        requires
            old(self).inv(),
        ensures
            final(self).inv(),
            Self::guarded(old(self), final(self), owner@, now),
    {
        match self.find_owner(owner) {
            Some(i) => {
                proof {
                    assert(self.matchs@[i as int] is ActiveQuoridor);
                    assert(self.games()[i as int] == self.matchs@[i as int].state());
                }
                let mut entry = self.matchs.remove(i);
                let game = entry.unwrap();
                game.timeout_guard_at(now);
                self.matchs.insert(i, entry);
                proof {
                    let before = old(self).matchs@;
                    let after = self.matchs@;
                    assert forall|j: int| 0 <= j < after.len() && j != i implies after[j] == before[j] by {}
                    assert(after[i as int] == entry);
                    assert(self.games() =~= old(self).games().update(i as int, entry.state()));
                    assert forall|j: int| 0 <= j < after.len() implies (#[trigger] after[j]) is ActiveQuoridor by {
                        if j != i {
                            assert(after[j] == before[j]);
                        }
                    }
                    assert forall|j: int| 0 <= j < self.games().len() implies (#[trigger] self.games()[j]).inv() by {
                        if j != i {
                            assert(self.games()[j] == old(self).games()[j]);
                        }
                    }
                }
            },
            None => {},
        }
    }

    /// The identifier of the first match in which `player` plays, if there
    /// is one.
    pub fn get_id_by_player(&self, player: &str) -> (id: Option<String>)
        requires
            self.inv(),
        ensures
            id matches Some(name) ==> exists|i: int|
                0 <= i < self.ids().len() && self.ids()[i] == name@ && plays_in(#[trigger] self.games()[i], player@)
                    && forall|j: int| 0 <= j < i ==> !plays_in(#[trigger] self.games()[j], player@),
            id is None ==> forall|j: int|
                0 <= j < self.games().len() ==> !plays_in(#[trigger] self.games()[j], player@),
    {
        match self.find_player(player) {
            Some(i) => {
                proof {
                    assert(self.ids()[i as int] == self.owners@[i as int]@);
                }
                Some(self.owners[i].clone())
            },
            None => None,
        }
    }
}

/// What a list of the live matches says of each: its identifier and who
/// plays it.
#[derive(Debug)]
pub struct QuoridorMatchMeta {
    pub id: String,
    pub up_player: String,
    pub down_player: String,
}

impl QuoridorMatchMeta {
    /// Whether this is the entry for the match `game` under the identifier
    /// `id`.
    pub open spec fn describes(&self, id: Seq<char>, game: QuoridorMatchView) -> bool {
        self.id@ == id && self.up_player@ == game.up_player && self.down_player@ == game.down_player
    }
}

impl ActiveMatchs {
    /// The identifier and the players of every match in the store, in the
    /// order in which the matches entered.
    pub fn get_matches(&self) -> (list: Vec<QuoridorMatchMeta>)
        requires
            self.inv(),
        ensures
            list@.len() == self.ids().len(),
            forall|i: int|
                0 <= i < list@.len() ==> (#[trigger] list@[i]).describes(self.ids()[i], self.games()[i]),
    {
        let mut list: Vec<QuoridorMatchMeta> = Vec::new();
        let mut i: usize = 0;
        while i < self.matchs.len()
            invariant
                i <= self.matchs@.len(),
                self.inv(),
                list@.len() == i,
                forall|j: int| 0 <= j < i ==> (#[trigger] list@[j]).describes(self.ids()[j], self.games()[j]),
            decreases self.matchs@.len() - i,
        {
            proof {
                assert(self.matchs@[i as int] is ActiveQuoridor);
                assert(self.games()[i as int] == self.matchs@[i as int].state());
                assert(self.ids()[i as int] == self.owners@[i as int]@);
            }
            let game = self.matchs[i].expose();
            list.push(
                QuoridorMatchMeta {
                    id: self.owners[i].clone(),
                    up_player: game.get_up_player().clone(),
                    down_player: game.get_down_player().clone(),
                },
            );
            i += 1;
        }
        list
    }
}

/// Whether `player` plays in the match `game`.
pub open spec fn plays_in(game: QuoridorMatchView, player: Seq<char>) -> bool {
    player == game.up_player || player == game.down_player
}

} // verus!
