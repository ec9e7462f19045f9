use crate::clock::current_timestamp;
use crate::game_abstractions::{
    plays_in, slot_of, states_of, ActiveMatchs, Match, MatchType, QuoridorMatchMeta,
};
use crate::game_lobbies::{
    lobbies_without, open_lobbies, opened_lobby, taken_lobby, views_of, Lobby, LobbyBase, LobbyView, MatchLobbies,
};
use crate::messages::{PlayerMove, PlayerMoveResult};
use crate::messages::texts_of;
use crate::quoridor_match::{QuoridorMatch, QuoridorMatchView};
use rand::distributions::Alphanumeric;
use rand::Rng;
use vstd::prelude::*;

verus! {

/// The length of a match identifier.
pub const ID_LEN: usize = 8;

/// How often a new identifier is drawn before the registry gives up on
/// finding a free one.
pub const ID_TRIES: usize = 64;

/// Whether `c` is an ASCII letter or digit.
pub open spec fn is_alphanumeric(c: char) -> bool {
    ||| ('0' <= c && c <= '9')
    ||| ('A' <= c && c <= 'Z')
    ||| ('a' <= c && c <= 'z')
}

/// Draws one character with `rand::Rng::sample` on `rand::thread_rng()`,
/// from the distribution `rand::distributions::Alphanumeric`, which picks
/// among the ASCII letters and digits. Of the result only that is known: it
/// differs from call to call. On a machine that cannot seed the generator the
/// call does not return.
#[verifier::external_body]
fn random_alphanumeric() -> (c: char)
    ensures
        is_alphanumeric(c),
{
    char::from(rand::thread_rng().sample(Alphanumeric))
}

/// A random string of `len` ASCII letters and digits.
pub fn generate_rand_string(len: usize) -> (s: String)
    ensures
        s@.len() == len,
        forall|i: int| 0 <= i < s@.len() ==> is_alphanumeric(#[trigger] s@[i]),
{
    let mut s = String::new();
    let mut i: usize = 0;
    while i < len
        invariant
            i <= len,
            s@.len() == i,
            forall|j: int| 0 <= j < s@.len() ==> is_alphanumeric(#[trigger] s@[j]),
        decreases len - i,
    {
        let c = random_alphanumeric();
        s.push(c);
        i += 1;
    }
    s
}

/// Whether `id` has the form of a match identifier: `ID_LEN` ASCII letters
/// and digits.
pub open spec fn is_identifier(id: Seq<char>) -> bool {
    id.len() == ID_LEN && forall|i: int| 0 <= i < id.len() ==> is_alphanumeric(#[trigger] id[i])
}

/// Whether `drawn` and `found` are the course and the outcome of a search for
/// an identifier that is not among `taken`. Identifiers are drawn one after
/// the other, and the search ends with the first one that is free. So where
/// one was found, it is the last one drawn and every one before it was taken.
/// Where none was found, `ID_TRIES` were drawn and all of them were taken.
pub open spec fn drawn_for(taken: Seq<Seq<char>>, drawn: Seq<Seq<char>>, found: Option<Seq<char>>) -> bool {
    &&& forall|i: int| 0 <= i < drawn.len() ==> is_identifier(#[trigger] drawn[i])
    &&& match found {
        Some(id) => {
            &&& 1 <= drawn.len() <= ID_TRIES
            &&& drawn.last() == id
            &&& !taken.contains(id)
            &&& forall|i: int| 0 <= i < drawn.len() - 1 ==> taken.contains(#[trigger] drawn[i])
        },
        None => {
            &&& drawn.len() == ID_TRIES
            &&& forall|i: int| 0 <= i < drawn.len() ==> taken.contains(#[trigger] drawn[i])
        },
    }
}

/// What a look-up in the registry gives: a copy of the match as it stands,
/// or the word that there is none.
#[derive(Debug)]
pub enum GenericGame {
    ActiveQuoridor(QuoridorMatch),
    NotFound,
}

impl GenericGame {
    /// The state of the match that was found.
    pub open spec fn state(&self) -> QuoridorMatchView
        recommends
            self is ActiveQuoridor,
    {
        self->ActiveQuoridor_0@
    }

    /// A match of the type `match_type` between the players of
    /// `player_list`, begun now; `None` for an unknown game.
    pub fn new(player_list: &Vec<String>, match_type: MatchType) -> (made: Option<Self>)
        requires
            player_list@.len() >= 1,
        ensures
            made is Some == (match_type == MatchType::Quoridor),
            made matches Some(found) ==> found is ActiveQuoridor && found.state().inv() && exists|now: i64| #[trigger]
                found.state().begins(texts_of(player_list@), now),
    {
        match match_type {
            MatchType::Quoridor => {
                let now = current_timestamp();
                let game = QuoridorMatch::new_at(player_list, now);
                proof {
                    assert(game@.begins(texts_of(player_list@), now));
                }
                Some(Self::ActiveQuoridor(game))
            },
            _ => None,
        }
    }

    /// Plays the move that `player` submits to the match, at the current
    /// time, with the computer's answer where it is due.
    pub fn make_move(&mut self, player_move: PlayerMove, player: &str) -> (result: PlayerMoveResult)
        requires
            *old(self) is ActiveQuoridor,
            old(self).state().inv(),
        ensures
            *final(self) is ActiveQuoridor,
            final(self).state().inv(),
            exists|now: i64| #[trigger]
                old(self).state().made_move(player_move, player@, now, final(self).state(), result),
    {
        match self {
            GenericGame::ActiveQuoridor(game) => game.make_move(player_move, player),
            GenericGame::NotFound => vstd::pervasive::unreached(),
        }
    }

    /// Whether `player` plays in the match.
    pub fn contains_player(&self, player: &str) -> (plays: bool)
        requires
            self is ActiveQuoridor,
        ensures
            plays == (player@ == self.state().up_player || player@ == self.state().down_player),
    {
        match self {
            GenericGame::ActiveQuoridor(game) => game.contains_player(player),
            GenericGame::NotFound => vstd::pervasive::unreached(),
        }
    }

    /// Whether the match has been silent for longer than the grace window and
    /// the buffer after it, as of now.
    pub fn is_expaired(&self) -> (expired: bool)
        requires
            self is ActiveQuoridor,
        ensures
            exists|now: i64| expired == #[trigger] self.state().expired(now),
    {
        match self {
            GenericGame::ActiveQuoridor(game) => {
                let now = current_timestamp();
                let expired = game.is_expired_at(now);
                proof {
                    assert(expired == self.state().expired(now));
                }
                expired
            },
            GenericGame::NotFound => vstd::pervasive::unreached(),
        }
    }

    /// The winner of the match, once it is over.
    pub fn get_winner(&self) -> (winner: Option<String>)
        requires
            self is ActiveQuoridor,
        ensures
            winner is Some == self.state().winner is Some,
            winner is Some ==> winner->0@ == self.state().winner->0,
    {
        match self {
            GenericGame::ActiveQuoridor(game) => game.get_winner(),
            GenericGame::NotFound => vstd::pervasive::unreached(),
        }
    }

    /// Looks at the clock: where the match has been silent for longer than
    /// the grace window, the player to move concedes.
    pub fn timeout_guard(&mut self)
        requires
            *old(self) is ActiveQuoridor,
            old(self).state().inv(),
        ensures
            *final(self) is ActiveQuoridor,
            final(self).state().inv(),
            exists|now: i64| final(self).state() == #[trigger] old(self).state().guarded(now),
    {
        match self {
            GenericGame::ActiveQuoridor(game) => game.timeout_guard(),
            GenericGame::NotFound => vstd::pervasive::unreached(),
        }
    }
}

/// The answer to a look-up, as the registry gives it, for what the store
/// found.
fn answer_of(found: Option<Match>) -> (answer: Option<GenericGame>)
    requires
        found matches Some(game) ==> game is ActiveQuoridor,
    ensures
        answer is Some == found is Some,
        answer matches Some(game) ==> game is ActiveQuoridor && game.state() == found->0.state(),
{
    match found {
        Some(Match::ActiveQuoridor(game)) => Some(GenericGame::ActiveQuoridor(game)),
        _ => None,
    }
}

/// The registry of the live matches and of the players who wait for one.
///
/// It reads the clock and draws the identifiers itself, and leaves the rest
/// to the store of matches and to the lobbies.
pub struct ActiveGames {
    list_of_games: ActiveMatchs,
    waiting: MatchLobbies,
}

impl ActiveGames {
    /// The store of the matches.
    pub closed spec fn store(&self) -> &ActiveMatchs {
        &self.list_of_games
    }

    /// The lobbies of the players who wait for a match, oldest first.
    pub closed spec fn queue(&self) -> Seq<LobbyView> {
        self.waiting@
    }

    /// A registry in order: its store is.
    pub open spec fn inv(&self) -> bool {
        self.store().inv()
    }

    /// An empty registry.
    pub fn new() -> (registry: Self)
        ensures
            registry.inv(),
            registry.store().ids().len() == 0,
            registry.queue().len() == 0,
    {
        Self { list_of_games: ActiveMatchs::new(), waiting: MatchLobbies::new() }
    }

    /// An identifier of `ID_LEN` letters and digits under which no match
    /// stands: random ones are drawn until one is free, `ID_TRIES` at most.
    fn fresh_id(&self) -> (id: Option<String>)
        requires
            self.inv(),
        ensures
            id matches Some(name) ==> name@.len() == ID_LEN && !self.store().has(name@),
            exists|drawn: Seq<Seq<char>>| #[trigger] drawn_for(self.store().ids(), drawn, name_of(id)),
    {
        let mut tries: usize = 0;
        let ghost mut drawn: Seq<Seq<char>> = Seq::empty();
        while tries < ID_TRIES
            invariant
                self.inv(),
                tries <= ID_TRIES,
                drawn.len() == tries,
                forall|i: int| 0 <= i < drawn.len() ==> is_identifier(#[trigger] drawn[i]),
                forall|i: int| 0 <= i < drawn.len() ==> self.store().ids().contains(#[trigger] drawn[i]),
            decreases ID_TRIES - tries,
        {
            let id = generate_rand_string(ID_LEN);
            let ghost before = drawn;
            proof {
                drawn = drawn.push(id@);
                assert(is_identifier(id@));
                assert forall|i: int| 0 <= i < drawn.len() implies is_identifier(#[trigger] drawn[i]) by {
                    if i < before.len() {
                        assert(drawn[i] == before[i]);
                    }
                }
            }
            if self.list_of_games.find_owner(id.as_str()).is_none() {
                proof {
                    assert forall|i: int| 0 <= i < drawn.len() - 1 implies self.store().ids().contains(
                        #[trigger] drawn[i],
                    ) by {
                        assert(drawn[i] == before[i]);
                    }
                    assert(drawn_for(self.store().ids(), drawn, Some(id@)));
                }
                return Some(id);
            }
            proof {
                assert forall|i: int| 0 <= i < drawn.len() implies self.store().ids().contains(
                    #[trigger] drawn[i],
                ) by {
                    if i < before.len() {
                        assert(drawn[i] == before[i]);
                    }
                }
            }
            tries += 1;
        }
        proof {
            assert(drawn_for(self.store().ids(), drawn, None));
        }
        None
    }

    /// Whether `after` and `created` are what beginning a match of the type
    /// `match_type` between `players` makes of `before`, when the search for
    /// a free identifier took the course `drawn` with the outcome `found` and
    /// the clock showed `now`. Where no free identifier was found, nothing
    /// changes and there is no match. Where one was found, the match enters
    /// the store under it if the game is known and there is a player, and
    /// `created` is that identifier; else nothing changes and there is no
    /// match.
    pub open spec fn began(
        before: &ActiveGames,
        after: &ActiveGames,
        players: Seq<Seq<char>>,
        match_type: MatchType,
        drawn: Seq<Seq<char>>,
        found: Option<Seq<char>>,
        now: i64,
        created: Option<Seq<char>>,
    ) -> bool {
        &&& drawn_for(before.store().ids(), drawn, found)
        &&& match found {
            Some(id) => {
                &&& ActiveMatchs::appended(
                    before.store(),
                    after.store(),
                    players,
                    id,
                    match_type,
                    now,
                    created is Some,
                )
                &&& created is Some ==> created == found
            },
            None => {
                &&& created is None
                &&& after.store().ids() == before.store().ids()
                &&& after.store().games() == before.store().games()
            },
        }
    }

    /// Begins a match between `player` and the computer, now and under a new
    /// identifier, and gives the identifier back; `None` for an unknown game,
    /// or where no free identifier was drawn.
    pub fn create_cpu_game(&mut self, player: &str, game_type: MatchType) -> (created: Option<String>)
        requires
            old(self).inv(),
        ensures
            final(self).inv(),
            final(self).queue() == old(self).queue(),
            exists|drawn: Seq<Seq<char>>, found: Option<Seq<char>>, now: i64| #[trigger]
                Self::began(old(self), final(self), seq![player@], game_type, drawn, found, now, name_of(created)),
    {
        let now = current_timestamp();
        let id = self.fresh_id();
        let ghost found = name_of(id);
        let ghost drawn = choose|drawn: Seq<Seq<char>>| #[trigger] drawn_for(self.store().ids(), drawn, found);
        let created = match id {
            Some(id) => self.list_of_games.create_cpu_game(player, game_type, id, now),
            None => None,
        };
        proof {
            assert(Self::began(old(self), self, seq![player@], game_type, drawn, found, now, name_of(created)));
        }
        created
    }

    /// Begins the match of the players of `lobby`, now and under a new
    /// identifier, and gives the identifier back; `None` for an unknown game,
    /// for a lobby without players, or where no free identifier was drawn.
    pub fn append(&mut self, lobby: &Lobby) -> (created: Option<String>)
        requires
            old(self).inv(),
        ensures
            final(self).inv(),
            final(self).queue() == old(self).queue(),
            exists|drawn: Seq<Seq<char>>, found: Option<Seq<char>>, now: i64| #[trigger]
                Self::began(
                    old(self),
                    final(self),
                    lobby@.player_list,
                    lobby@.match_type,
                    drawn,
                    found,
                    now,
                    name_of(created),
                ),
    {
        let now = current_timestamp();
        let id = self.fresh_id();
        let ghost found = name_of(id);
        let ghost drawn = choose|drawn: Seq<Seq<char>>| #[trigger] drawn_for(self.store().ids(), drawn, found);
        let created = match id {
            Some(id) => {
                if self.list_of_games.append(lobby.get_players(), id.as_str(), lobby.get_match_type(), now) {
                    Some(id)
                } else {
                    None
                }
            },
            None => None,
        };
        proof {
            assert(Self::began(
                old(self),
                self,
                lobby@.player_list,
                lobby@.match_type,
                drawn,
                found,
                now,
                name_of(created),
            ));
        }
        created
    }

    /// A copy of the match under `owner` as it stands now, after a look at
    /// the clock: where the match has been silent for longer than the grace
    /// window, the player to move has given up. `None` where no match stands
    /// under `owner`.
    pub fn get_game_by_owner(&mut self, owner: &str) -> (found: Option<GenericGame>)
        requires
            old(self).inv(),
        ensures
            final(self).inv(),
            final(self).queue() == old(self).queue(),
            exists|now: i64| #[trigger] ActiveMatchs::guarded(old(self).store(), final(self).store(), owner@, now),
            found is Some == old(self).store().has(owner@),
            found matches Some(game) ==> game is ActiveQuoridor && game.state() == final(self).store().game_of(owner@),
    {
        let now = current_timestamp();
        self.list_of_games.timeout_guard(owner, now);
        proof {
            assert(ActiveMatchs::guarded(old(self).store(), self.store(), owner@, now));
        }
        answer_of(self.list_of_games.get_match(owner))
    }

    /// A copy of the first match in which `player` plays, as it stands now
    /// after a look at the clock: where that match has been silent for longer
    /// than the grace window, the player to move has given up. No other match
    /// changes. `None`, with nothing changed, where the player is in no
    /// match.
    pub fn get_game_by_player(&mut self, player: &str) -> (found: Option<GenericGame>)
        requires
            old(self).inv(),
        ensures
            final(self).inv(),
            final(self).queue() == old(self).queue(),
            final(self).store().ids() == old(self).store().ids(),
            found is Some == exists|i: int|
                0 <= i < old(self).store().games().len() && plays_in(
                    #[trigger] old(self).store().games()[i],
                    player@,
                ),
            found matches Some(game) ==> game is ActiveQuoridor && plays_in(game.state(), player@) && exists|
                i: int,
                now: i64,
            |
                0 <= i < old(self).store().games().len() && plays_in(old(self).store().games()[i], player@) && (
                forall|j: int| 0 <= j < i ==> !plays_in(#[trigger] old(self).store().games()[j], player@))
                    && game.state() == #[trigger] old(self).store().games()[i].guarded(now) && final(self).store().games() == old(self).store().games().update(i, game.state()),
            found is None ==> final(self).store().games() == old(self).store().games(),
    {
        match self.list_of_games.get_id_by_player(player) {
            Some(id) => {
                let now = current_timestamp();
                let ghost games = self.store().games();
                let ghost ids = self.store().ids();
                let ghost first = choose|i: int|
                    0 <= i < ids.len() && ids[i] == id@ && plays_in(#[trigger] games[i], player@) && forall|j: int|
                        0 <= j < i ==> !plays_in(#[trigger] games[j], player@);
                proof {
                    assert(ids.contains(id@));
                    assert(slot_of(ids, id@) == first);
                }
                self.list_of_games.timeout_guard(id.as_str(), now);
                let found = answer_of(self.list_of_games.get_match(id.as_str()));
                proof {
                    assert(self.store().ids().contains(id@));
                    assert(slot_of(self.store().ids(), id@) == first);
                    assert(found->0.state() == games[first].guarded(now));
                    assert(plays_in(games[first].guarded(now), player@));
                }
                found
            },
            None => None,
        }
    }

    /// Plays the move that `player` submits to the match under `owner`, at
    /// the current time, with the computer's answer where it is due; `None`
    /// where no match stands under `owner`.
    pub fn make_move(&mut self, owner: &str, player_move: PlayerMove, player: &str) -> (result: Option<
        PlayerMoveResult,
    >)
        requires
            old(self).inv(),
        ensures
            final(self).inv(),
            final(self).queue() == old(self).queue(),
            exists|now: i64| #[trigger]
                ActiveMatchs::moved(old(self).store(), final(self).store(), owner@, player_move, player@, now, result),
    {
        let now = current_timestamp();
        let result = self.list_of_games.make_move(owner, player_move, player, now);
        proof {
            assert(ActiveMatchs::moved(old(self).store(), self.store(), owner@, player_move, player@, now, result));
        }
        result
    }

    /// Takes the match under `owner` out of the registry, if there is one.
    pub fn drop_by_owner(&mut self, owner: &str)
        requires
            old(self).inv(),
        ensures
            final(self).inv(),
            final(self).queue() == old(self).queue(),
            !final(self).store().has(owner@),
            !old(self).store().has(owner@) ==> final(self).store().ids() == old(self).store().ids() && final(self).store().games() == old(self).store().games(),
            old(self).store().has(owner@) ==> final(self).store().ids() == old(self).store().ids().remove(
                slot_of(old(self).store().ids(), owner@),
            ) && final(self).store().games() == old(self).store().games().remove(
                slot_of(old(self).store().ids(), owner@),
            ),
    {
        self.list_of_games.drop(owner)
    }

    /// The identifier and the players of every match in the registry, in the
    /// order in which the matches began.
    pub fn get_matches(&self) -> (list: Vec<QuoridorMatchMeta>)
        requires
            self.inv(),
        ensures
            list@.len() == self.store().ids().len(),
            forall|i: int|
                0 <= i < list@.len() ==> (#[trigger] list@[i]).describes(
                    self.store().ids()[i],
                    self.store().games()[i],
                ),
    {
        self.list_of_games.get_matches()
    }

    /// The identifier of the first match in which `player` plays, if there
    /// is one.
    pub fn get_id_by_player(&self, player: &str) -> (id: Option<String>)
        requires
            self.inv(),
        ensures
            id matches Some(name) ==> exists|i: int|
                0 <= i < self.store().ids().len() && self.store().ids()[i] == name@ && plays_in(
                    #[trigger] self.store().games()[i],
                    player@,
                ) && forall|j: int| 0 <= j < i ==> !plays_in(#[trigger] self.store().games()[j], player@),
            id is None ==> forall|j: int|
                0 <= j < self.store().games().len() ==> !plays_in(#[trigger] self.store().games()[j], player@),
    {
        self.list_of_games.get_id_by_player(player)
    }

    /// The lobbies of the players who wait for a match now, oldest first,
    /// after those that have run out have been closed.
    pub fn get_waiting(&mut self) -> (all: Vec<Lobby>)
        requires
            old(self).inv(),
        ensures
            final(self).inv(),
            final(self).store() == old(self).store(),
            exists|now: i64| final(self).queue() == #[trigger] open_lobbies(old(self).queue(), now),
            views_of(all@) == final(self).queue(),
    {
        let now = current_timestamp();
        let all = self.waiting.get_all_at(now);
        proof {
            assert(self.queue() == open_lobbies(old(self).queue(), now));
        }
        all
    }

    /// Takes `player` off the queue of those who wait for a match.
    pub fn leave_queue(&mut self, player: &str)
        requires
            old(self).inv(),
        ensures
            final(self).inv(),
            final(self).store() == old(self).store(),
            final(self).queue() == lobbies_without(old(self).queue(), player@),
    {
        self.waiting.drop(player)
    }

    /// Takes out of the registry every match that is over or has been silent
    /// for longer than the grace window, as of now, and gives back the
    /// identifiers of the matches it took out and the matches themselves as
    /// they ended.
    pub fn sweep(&mut self) -> (dropped: (Vec<String>, Vec<Match>))
        requires
            old(self).inv(),
        ensures
            final(self).inv(),
            final(self).queue() == old(self).queue(),
            exists|now: i64| #[trigger]
                ActiveMatchs::swept(
                    old(self).store(),
                    final(self).store(),
                    now,
                    texts_of(dropped.0@),
                    states_of(dropped.1@),
                ),
            forall|j: int| 0 <= j < dropped.1@.len() ==> (#[trigger] dropped.1@[j]) is ActiveQuoridor,
    {
        let now = current_timestamp();
        let dropped = self.list_of_games.sweep_at(now);
        proof {
            assert(ActiveMatchs::swept(
                old(self).store(),
                self.store(),
                now,
                texts_of(dropped.0@),
                states_of(dropped.1@),
            ));
        }
        dropped
    }

    /// Begins a match between the players of `player_list`, now and under a
    /// new identifier, and gives the identifier back; `None` for an empty
    /// list, or where no free identifier was drawn.
    pub fn create_match(&mut self, player_list: &Vec<String>) -> (created: Option<String>)
        requires
            old(self).inv(),
        ensures
            final(self).inv(),
            final(self).queue() == old(self).queue(),
            exists|drawn: Seq<Seq<char>>, found: Option<Seq<char>>, now: i64| #[trigger]
                Self::began(
                    old(self),
                    final(self),
                    texts_of(player_list@),
                    MatchType::Quoridor,
                    drawn,
                    found,
                    now,
                    name_of(created),
                ),
    {
        let now = current_timestamp();
        let id = self.fresh_id();
        let ghost found = name_of(id);
        let ghost drawn = choose|drawn: Seq<Seq<char>>| #[trigger] drawn_for(self.store().ids(), drawn, found);
        let created = match id {
            Some(id) => {
                if self.list_of_games.append(player_list, id.as_str(), MatchType::Quoridor, now) {
                    Some(id)
                } else {
                    None
                }
            },
            None => None,
        };
        proof {
            assert(Self::began(
                old(self),
                self,
                texts_of(player_list@),
                MatchType::Quoridor,
                drawn,
                found,
                now,
                name_of(created),
            ));
        }
        created
    }

    /// Puts `player` among those who wait for a match of Quoridor, as of
    /// now, and says whether it did; it does not where the player waits
    /// already.
    pub fn enqueue(&mut self, player: &str) -> (waits: bool)
        requires
            old(self).inv(),
        ensures
            final(self).inv(),
            final(self).store() == old(self).store(),
            exists|now: i64| #[trigger]
                opened_lobby(old(self).queue(), player@, MatchType::Quoridor, now, final(self).queue(), waits),
    {
        let now = current_timestamp();
        let opened = self.waiting.new_lobby_at(LobbyBase { owner: player.to_owned(), game: MatchType::Quoridor }, now);
        proof {
            assert(opened_lobby(old(self).queue(), player@, MatchType::Quoridor, now, self.queue(), opened is Some));
        }
        opened.is_some()
    }

    /// Whether this registry and `paired` are what pairing `player` at the
    /// time `now` under the identifier `id` makes of `before`.
    ///
    /// The lobbies that have run out or started are closed. Where no
    /// identifier is given, or a match stands under it, nothing else happens.
    /// Else the lobby that has waited longest without `player` leaves the
    /// queue, and the match of its players and `player` begins under `id`
    /// where the lobby's game is known; `paired` is `id` where a match has
    /// begun.
    pub open spec fn paired(
        &self,
        before: &ActiveGames,
        player: Seq<char>,
        id: Option<Seq<char>>,
        now: i64,
        paired: Option<Seq<char>>,
    ) -> bool {
        let unchanged = self.store().ids() == before.store().ids() && self.store().games() == before.store().games();
        if id is None || before.store().has(id->0) {
            paired is None && unchanged && self.queue() == open_lobbies(before.queue(), now)
        } else {
            exists|taken: Option<LobbyView>| #[trigger]
                taken_lobby(before.queue(), player, now, self.queue(), taken) && match taken {
                    None => paired is None && unchanged,
                    Some(lobby) => ActiveMatchs::appended(
                        before.store(),
                        self.store(),
                        lobby.player_list,
                        id->0,
                        lobby.match_type,
                        now,
                        paired is Some,
                    ) && (paired is Some ==> paired == id),
                }
        }
    }

    /// Whether this registry and `paired` are what pairing `player` at the
    /// time `now` makes of `before`, when the search for a free identifier
    /// took the course `drawn` with the outcome `id`: the search is one for
    /// an identifier under which no match of `before` stands, and the pairing
    /// goes by its outcome.
    pub open spec fn paired_after(
        &self,
        before: &ActiveGames,
        player: Seq<char>,
        drawn: Seq<Seq<char>>,
        id: Option<Seq<char>>,
        now: i64,
        paired: Option<Seq<char>>,
    ) -> bool {
        &&& drawn_for(before.store().ids(), drawn, id)
        &&& self.paired(before, player, id, now, paired)
    }

    /// Pairs `player` with the player who has waited longest, as of now:
    /// their match begins under a new identifier, which comes back, and the
    /// one who waited waits no more. `None` where nobody else waits, where
    /// the waiting lobby is for an unknown game, or where no free identifier
    /// was drawn.
    pub fn try_pair(&mut self, player: &str) -> (paired: Option<String>)
        requires
            old(self).inv(),
        ensures
            final(self).inv(),
            exists|drawn: Seq<Seq<char>>, id: Option<Seq<char>>, now: i64| #[trigger]
                final(self).paired_after(old(self), player@, drawn, id, now, name_of(paired)),
    {
        let now = current_timestamp();
        let id = self.fresh_id();
        let ghost found = name_of(id);
        let ghost drawn = choose|drawn: Seq<Seq<char>>| #[trigger] drawn_for(self.store().ids(), drawn, found);
        let paired = self.try_pair_at(player, id, now);
        proof {
            assert(self.paired_after(old(self), player@, drawn, found, now, name_of(paired)));
        }
        paired
    }

    /// Pairs `player` with the player who has waited longest at the time
    /// `now`, under the identifier `id` where one is given.
    pub fn try_pair_at(&mut self, player: &str, id: Option<String>, now: i64) -> (paired: Option<String>)
        requires
            old(self).inv(),
        ensures
            final(self).inv(),
            final(self).paired(old(self), player@, name_of(id), now, name_of(paired)),
    {
        let id = match id {
            Some(id) => id,
            None => {
                self.waiting.drop_expaired_and_started_at(now);
                return None;
            },
        };
        if self.list_of_games.find_owner(id.as_str()).is_some() {
            self.waiting.drop_expaired_and_started_at(now);
            return None;
        }
        let ghost name = id@;
        let taken = self.waiting.take_first_waiting_at(player, now);
        let ghost taken_view = crate::game_lobbies::view_of(taken);
        match taken {
            Some(lobby) => {
                let begun = self.begin(&lobby, id, now);
                proof {
                    assert(taken_lobby(old(self).queue(), player@, now, self.queue(), taken_view));
                }
                begun
            },
            None => {
                proof {
                    assert(taken_lobby(old(self).queue(), player@, now, self.queue(), taken_view));
                }
                None
            },
        }
    }

    /// Begins the match of the players of `lobby` at the time `now` under the
    /// identifier `id`, and gives the identifier back where it did.
    fn begin(&mut self, lobby: &Lobby, id: String, now: i64) -> (begun: Option<String>)
        requires
            old(self).inv(),
        ensures
            final(self).inv(),
            final(self).queue() == old(self).queue(),
            ActiveMatchs::appended(
                old(self).store(),
                final(self).store(),
                lobby@.player_list,
                id@,
                lobby@.match_type,
                now,
                begun is Some,
            ),
            begun matches Some(name) ==> name@ == id@,
    {
        if self.list_of_games.append(lobby.get_players(), id.as_str(), lobby.get_match_type(), now) {
            Some(id)
        } else {
            None
        }
    }
}

/// The text of a name that may be there.
pub open spec fn name_of(name: Option<String>) -> Option<Seq<char>> {
    match name {
        Some(text) => Some(text@),
        None => None,
    }
}

} // verus!
