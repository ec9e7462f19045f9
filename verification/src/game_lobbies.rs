use crate::clock::current_timestamp;
use crate::game_abstractions::MatchType;
use crate::messages::same_text;
use crate::messages::texts_of;
use vstd::prelude::*;

verus! {

/// Seconds a lobby stays open.
pub const LOBBY_LIFETIME: i64 = 600;

/// The time at which a lobby that opens at `now` closes, kept within the
/// range of the clock.
pub open spec fn lifetime_end(now: i64) -> i64 {
    if now > i64::MAX - 600 {
        i64::MAX
    } else {
        (now + 600) as i64
    }
}

/// A copy of a list of names.
pub fn copy_names(names: &Vec<String>) -> (copy: Vec<String>)
    ensures
        copy@ == names@,
{
    let mut copy: Vec<String> = Vec::new();
    let mut i: usize = 0;
    while i < names.len()
        invariant
            i <= names@.len(),
            copy@ == names@.subrange(0, i as int),
        decreases names@.len() - i,
    {
        copy.push(names[i].clone());
        proof {
            assert(copy@ =~= names@.subrange(0, i + 1));
        }
        i += 1;
    }
    proof {
        assert(names@.subrange(0, i as int) =~= names@);
    }
    copy
}

/// Whether `name` is among `names`.
pub fn has_name(names: &Vec<String>, name: &str) -> (found: bool)
    ensures
        found == texts_of(names@).contains(name@),
{
    let mut i: usize = 0;
    while i < names.len()
        invariant
            i <= names@.len(),
            forall|j: int| 0 <= j < i ==> texts_of(names@)[j] != name@,
        decreases names@.len() - i,
    {
        if same_text(names[i].as_str(), name) {
            proof {
                assert(texts_of(names@)[i as int] == name@);
            }
            return true;
        }
        i += 1;
    }
    false
}

/// The request to open a lobby: who opens it, and for which game.
#[derive(Debug)]
pub struct LobbyBase {
    pub owner: String,
    pub game: MatchType,
}

/// A lobby as plain values.
pub struct LobbyView {
    pub owner: Seq<char>,
    pub match_type: MatchType,
    pub player_list: Seq<Seq<char>>,
    pub game_started: Option<Seq<char>>,
    pub time_stamp: i64,
}

impl LobbyView {
    /// Whether the lobby still waits for players at the time `now`: it has
    /// not run out and its match has not started.
    pub open spec fn is_open(self, now: i64) -> bool {
        !self.run_out(now) && self.game_started is None
    }

    /// Whether the lobby has run out at the time `now`.
    pub open spec fn run_out(self, now: i64) -> bool {
        self.time_stamp < now
    }

    /// The lobby that `owner` opens at the time `now` for a match of the type
    /// `match_type`: the owner is its only player.
    pub open spec fn fresh(owner: Seq<char>, match_type: MatchType, now: i64) -> LobbyView {
        LobbyView {
            owner,
            match_type,
            player_list: seq![owner],
            game_started: None,
            time_stamp: lifetime_end(now),
        }
    }

    /// Whether `player` can join the lobby of `owner`: this is that lobby and
    /// the player is not in it.
    pub open spec fn joinable(self, owner: Seq<char>, player: Seq<char>) -> bool {
        self.owner == owner && !self.player_list.contains(player)
    }

    /// The lobby after `player` has joined: where it has as many players as
    /// its game takes, its match has started under the owner's name.
    pub open spec fn joined(self, player: Seq<char>) -> LobbyView {
        LobbyView {
            player_list: self.player_list.push(player),
            game_started: if self.match_type.expected_players() == self.player_list.len() + 1 {
                Some(self.owner)
            } else {
                self.game_started
            },
            ..self
        }
    }
}

/// The lobbies of `lobbies` that still wait for players at the time `now`, in
/// their order.
pub open spec fn open_lobbies(lobbies: Seq<LobbyView>, now: i64) -> Seq<LobbyView>
    decreases lobbies.len(),
{
    if lobbies.len() == 0 {
        Seq::empty()
    } else {
        let rest = open_lobbies(lobbies.drop_last(), now);
        if lobbies.last().is_open(now) {
            rest.push(lobbies.last())
        } else {
            rest
        }
    }
}

/// The lobbies of `lobbies` that `owner` does not own, in their order.
pub open spec fn lobbies_without(lobbies: Seq<LobbyView>, owner: Seq<char>) -> Seq<LobbyView>
    decreases lobbies.len(),
{
    if lobbies.len() == 0 {
        Seq::empty()
    } else {
        let rest = lobbies_without(lobbies.drop_last(), owner);
        if lobbies.last().owner != owner {
            rest.push(lobbies.last())
        } else {
            rest
        }
    }
}

/// A lobby: players who wait for a match of one game to begin.
#[derive(Debug)]
pub struct Lobby {
    pub owner: String,
    match_type: MatchType,
    player_list: Vec<String>,
    game_started: Option<String>,
    time_stamp: i64,
}

impl View for Lobby {
    type V = LobbyView;

    closed spec fn view(&self) -> LobbyView {
        LobbyView {
            owner: self.owner@,
            match_type: self.match_type,
            player_list: texts_of(self.player_list@),
            game_started: match self.game_started {
                Some(name) => Some(name@),
                None => None,
            },
            time_stamp: self.time_stamp,
        }
    }
}

impl Clone for Lobby {
    fn clone(&self) -> (copy: Self)
        ensures
            copy@ == self@,
    {
        let game_started = match &self.game_started {
            Some(name) => Some(name.clone()),
            None => None,
        };
        Lobby {
            owner: self.owner.clone(),
            match_type: self.match_type,
            player_list: copy_names(&self.player_list),
            game_started,
            time_stamp: self.time_stamp,
        }
    }
}

impl Lobby {
    /// The lobby that the owner named in `lobby_base` opens now.
    pub fn new(lobby_base: &LobbyBase) -> (lobby: Self)
        ensures
            exists|now: i64| lobby@ == #[trigger] LobbyView::fresh(lobby_base.owner@, lobby_base.game, now),
    {
        let now = current_timestamp();
        let lobby = Self::new_at(lobby_base, now);
        proof {
            assert(lobby@ == LobbyView::fresh(lobby_base.owner@, lobby_base.game, now));
        }
        lobby
    }

    /// The lobby that the owner named in `lobby_base` opens at the time
    /// `now`.
    pub fn new_at(lobby_base: &LobbyBase, now: i64) -> (lobby: Self)
        ensures
            lobby@ == LobbyView::fresh(lobby_base.owner@, lobby_base.game, now),
    {
        let mut player_list: Vec<String> = Vec::new();
        player_list.push(lobby_base.owner.clone());
        let time_stamp = if now > i64::MAX - LOBBY_LIFETIME {
            i64::MAX
        } else {
            now + LOBBY_LIFETIME
        };
        proof {
            assert(texts_of(player_list@) =~= seq![lobby_base.owner@]);
        }
        Self { owner: lobby_base.owner.clone(), match_type: lobby_base.game, player_list, game_started: None, time_stamp }
    }

    /// Whether the lobby's match has started.
    pub fn is_ready(&self) -> (ready: bool)
        ensures
            ready == self@.game_started is Some,
    {
        self.game_started.is_some()
    }

    /// The players in the lobby, the owner first.
    pub fn get_players(&self) -> (players: &Vec<String>)
        ensures
            texts_of(players@) == self@.player_list,
    {
        &self.player_list
    }

    /// The game the lobby is for.
    pub fn get_match_type(&self) -> (match_type: MatchType)
        ensures
            match_type == self@.match_type,
    {
        self.match_type
    }

    /// Starts the lobby's match where it has as many players as its game
    /// takes.
    fn prepare(&mut self)
        ensures
            final(self)@ == (LobbyView {
                game_started: if old(self)@.match_type.expected_players() == old(self)@.player_list.len() {
                    Some(old(self)@.owner)
                } else {
                    old(self)@.game_started
                },
                ..old(self)@
            }),
    {
        if self.match_type.get_expected_players() == self.player_list.len() {
            self.game_started = Some(self.owner.clone())
        }
    }

    /// Lets `player` into the lobby.
    fn join(&mut self, player: &str)
        ensures
            final(self)@ == old(self)@.joined(player@),
    {
        self.player_list.push(player.to_owned());
        proof {
            assert(texts_of(self.player_list@) =~= texts_of(old(self).player_list@).push(player@));
        }
        self.prepare();
    }

    /// Whether the lobby has run out now.
    pub fn expaired(&self) -> (over: bool)
        ensures
            exists|now: i64| over == #[trigger] self@.run_out(now),
    {
        let now = current_timestamp();
        let over = self.is_expired_at(now);
        proof {
            assert(over == self@.run_out(now));
        }
        over
    }

    /// Whether the lobby has run out at the time `now`.
    pub fn is_expired_at(&self, now: i64) -> (over: bool)
        ensures
            over == self@.run_out(now),
    {
        self.time_stamp < now
    }

    /// Whether the lobby still waits for players at the time `now`.
    pub fn is_open_at(&self, now: i64) -> (open: bool)
        ensures
            open == self@.is_open(now),
    {
        !self.is_expired_at(now) && self.game_started.is_none()
    }
}

/// The view of a lobby that may be there.
pub open spec fn view_of(lobby: Option<Lobby>) -> Option<LobbyView> {
    match lobby {
        Some(found) => Some(found@),
        None => None,
    }
}

/// The views of a list of lobbies.
pub open spec fn views_of(lobbies: Seq<Lobby>) -> Seq<LobbyView> {
    lobbies.map_values(|lobby: Lobby| lobby@)
}

/// The lobbies in which players wait for their matches, oldest first.
pub struct MatchLobbies {
    lobbies: Vec<Lobby>,
}

impl View for MatchLobbies {
    type V = Seq<LobbyView>;

    closed spec fn view(&self) -> Seq<LobbyView> {
        views_of(self.lobbies@)
    }
}

impl MatchLobbies {
    /// No lobbies.
    pub fn new() -> (lobbies: Self)
        ensures
            lobbies@.len() == 0,
    {
        Self { lobbies: Vec::new() }
    }

    /// Closes the lobbies that have run out or whose match has started, as
    /// of now.
    fn drop_expaired_and_started(&mut self)
        ensures
            exists|now: i64| final(self)@ == #[trigger] open_lobbies(old(self)@, now),
    {
        let now = current_timestamp();
        self.drop_expaired_and_started_at(now);
        proof {
            assert(self@ == open_lobbies(old(self)@, now));
        }
    }

    /// Closes the lobbies that have run out or whose match has started, as
    /// of the time `now`.
    pub fn drop_expaired_and_started_at(&mut self, now: i64)
        ensures
            final(self)@ == open_lobbies(old(self)@, now),
    {
        let mut kept: Vec<Lobby> = Vec::new();
        let mut i: usize = 0;
        while i < self.lobbies.len()
            invariant
                i <= self.lobbies@.len(),
                self.lobbies == old(self).lobbies,
                views_of(kept@) == open_lobbies(self@.subrange(0, i as int), now),
            decreases self.lobbies@.len() - i,
        {
            proof {
                assert(self@.subrange(0, i + 1).drop_last() =~= self@.subrange(0, i as int));
                assert(self@.subrange(0, i + 1).last() == self.lobbies@[i as int]@);
            }
            if self.lobbies[i].is_open_at(now) {
                let ghost kept_before = kept@;
                kept.push(self.lobbies[i].clone());
                proof {
                    assert(views_of(kept@) =~= views_of(kept_before).push(self.lobbies@[i as int]@));
                }
            }
            i += 1;
        }
        proof {
            assert(self@.subrange(0, i as int) =~= self@);
        }
        self.lobbies = kept;
    }

    /// The lobbies that wait for players now, after those that have run out
    /// or started have been closed.
    pub fn get_all(&mut self) -> (all: Vec<Lobby>)
        ensures
            exists|now: i64| final(self)@ == #[trigger] open_lobbies(old(self)@, now),
            views_of(all@) == final(self)@,
    {
        let now = current_timestamp();
        let all = self.get_all_at(now);
        proof {
            assert(self@ == open_lobbies(old(self)@, now));
        }
        all
    }

    /// The lobbies that wait for players at the time `now`, after those that
    /// have run out or started have been closed.
    pub fn get_all_at(&mut self, now: i64) -> (all: Vec<Lobby>)
        ensures
            final(self)@ == open_lobbies(old(self)@, now),
            views_of(all@) == final(self)@,
    {
        self.drop_expaired_and_started_at(now);
        let mut all: Vec<Lobby> = Vec::new();
        let mut i: usize = 0;
        while i < self.lobbies.len()
            invariant
                i <= self.lobbies@.len(),
                views_of(all@) == self@.subrange(0, i as int),
            decreases self.lobbies@.len() - i,
        {
            let ghost all_before = all@;
            all.push(self.lobbies[i].clone());
            proof {
                assert(views_of(all@) =~= views_of(all_before).push(self.lobbies@[i as int]@));
                assert(views_of(all@) =~= self@.subrange(0, i + 1));
            }
            i += 1;
        }
        proof {
            assert(self@.subrange(0, i as int) =~= self@);
        }
        all
    }

    /// The index of the first lobby that `owner` owns, if there is one.
    pub fn find_owner(&self, owner: &str) -> (found: Option<usize>)
        ensures
            found matches Some(i) ==> i < self@.len() && self@[i as int].owner == owner@ && forall|j: int|
                0 <= j < i ==> (#[trigger] self@[j]).owner != owner@,
            found is None ==> forall|j: int| 0 <= j < self@.len() ==> (#[trigger] self@[j]).owner != owner@,
    {
        let mut i: usize = 0;
        while i < self.lobbies.len()
            invariant
                i <= self.lobbies@.len(),
                forall|j: int| 0 <= j < i ==> (#[trigger] self@[j]).owner != owner@,
            decreases self.lobbies@.len() - i,
        {
            proof {
                assert(self@[i as int] == self.lobbies@[i as int]@);
            }
            if same_text(self.lobbies[i].owner.as_str(), owner) {
                return Some(i);
            }
            i += 1;
        }
        None
    }

    /// Opens a lobby for the owner named in `lobby_base`, as of now, and
    /// gives the owner's name back; `None` where the owner has an open lobby
    /// already.
    pub fn new_lobby(&mut self, lobby_base: LobbyBase) -> (opened: Option<String>)
        ensures
            exists|now: i64| #[trigger]
                opened_lobby(old(self)@, lobby_base.owner@, lobby_base.game, now, final(self)@, opened is Some),
            opened matches Some(name) ==> name@ == lobby_base.owner@,
    {
        let now = current_timestamp();
        let ghost owner = lobby_base.owner@;
        let ghost game = lobby_base.game;
        let opened = self.new_lobby_at(lobby_base, now);
        proof {
            assert(opened_lobby(old(self)@, owner, game, now, self@, opened is Some));
        }
        opened
    }

    /// Opens a lobby for the owner named in `lobby_base` at the time `now`,
    /// and gives the owner's name back; `None` where the owner has an open
    /// lobby already. The lobbies that have run out or started are closed
    /// first.
    pub fn new_lobby_at(&mut self, lobby_base: LobbyBase, now: i64) -> (opened: Option<String>)
        ensures
            opened_lobby(old(self)@, lobby_base.owner@, lobby_base.game, now, final(self)@, opened is Some),
            opened matches Some(name) ==> name@ == lobby_base.owner@,
    {
        self.drop_expaired_and_started_at(now);
        if self.find_owner(lobby_base.owner.as_str()).is_some() {
            return None;
        }
        let ghost before = self@;
        self.lobbies.push(Lobby::new_at(&lobby_base, now));
        proof {
            assert(self@ =~= before.push(LobbyView::fresh(lobby_base.owner@, lobby_base.game, now)));
        }
        Some(lobby_base.owner)
    }

    /// Lets `player` into the lobby of `lobby_owner`, as of now, and gives a
    /// copy of the lobby back; `None` where no open lobby of that owner is
    /// without the player.
    pub fn add_player_to_lobby(&mut self, lobby_owner: &str, player: &str) -> (joined: Option<Lobby>)
        ensures
            exists|now: i64| #[trigger]
                joined_lobby(old(self)@, lobby_owner@, player@, now, final(self)@, view_of(joined)),
    {
        let now = current_timestamp();
        let joined = self.add_player_to_lobby_at(lobby_owner, player, now);
        proof {
            assert(joined_lobby(old(self)@, lobby_owner@, player@, now, self@, view_of(joined)));
        }
        joined
    }

    /// Lets `player` into the lobby of `lobby_owner` at the time `now`, and
    /// gives a copy of the lobby back; `None` where no open lobby of that
    /// owner is without the player. The lobbies that have run out or started
    /// are closed first.
    pub fn add_player_to_lobby_at(&mut self, lobby_owner: &str, player: &str, now: i64) -> (joined: Option<Lobby>)
        ensures
            joined_lobby(old(self)@, lobby_owner@, player@, now, final(self)@, view_of(joined)),
    {
        self.drop_expaired_and_started_at(now);
        let ghost open = self@;
        let mut i: usize = 0;
        while i < self.lobbies.len()
            invariant
                i <= self.lobbies@.len(),
                self@ == open,
                open == open_lobbies(old(self)@, now),
                forall|j: int| 0 <= j < i ==> !(#[trigger] open[j]).joinable(lobby_owner@, player@),
            decreases self.lobbies@.len() - i,
        {
            proof {
                assert(self@[i as int] == self.lobbies@[i as int]@);
            }
            if same_text(self.lobbies[i].owner.as_str(), lobby_owner) && !has_name(&self.lobbies[i].player_list, player) {
                let mut lobby = self.lobbies.remove(i);
                lobby.join(player);
                let copy = lobby.clone();
                self.lobbies.insert(i, lobby);
                proof {
                    assert(open[i as int].joinable(lobby_owner@, player@));
                    assert(copy@ == open[i as int].joined(player@));
                    assert(self@ =~= open.update(i as int, copy@));
                }
                return Some(copy);
            }
            i += 1;
        }
        None
    }

    /// Closes every lobby that `lobby_owner` owns.
    pub fn drop(&mut self, lobby_owner: &str)
        ensures
            final(self)@ == lobbies_without(old(self)@, lobby_owner@),
    {
        let mut kept: Vec<Lobby> = Vec::new();
        let mut i: usize = 0;
        while i < self.lobbies.len()
            invariant
                i <= self.lobbies@.len(),
                self.lobbies == old(self).lobbies,
                views_of(kept@) == lobbies_without(self@.subrange(0, i as int), lobby_owner@),
            decreases self.lobbies@.len() - i,
        {
            proof {
                assert(self@.subrange(0, i + 1).drop_last() =~= self@.subrange(0, i as int));
                assert(self@.subrange(0, i + 1).last() == self.lobbies@[i as int]@);
            }
            if !same_text(self.lobbies[i].owner.as_str(), lobby_owner) {
                let ghost kept_before = kept@;
                kept.push(self.lobbies[i].clone());
                proof {
                    assert(views_of(kept@) =~= views_of(kept_before).push(self.lobbies@[i as int]@));
                }
            }
            i += 1;
        }
        proof {
            assert(self@.subrange(0, i as int) =~= self@);
        }
        self.lobbies = kept;
    }

    /// Takes the first lobby in which `player` is not, the one that has
    /// waited longest, out of the queue at the time `now`, and gives it back
    /// with `player` in it; `None` where there is no such lobby. The lobbies
    /// that have run out or started are closed first.
    pub fn take_first_waiting_at(&mut self, player: &str, now: i64) -> (taken: Option<Lobby>)
        ensures
            taken_lobby(old(self)@, player@, now, final(self)@, view_of(taken)),
    {
        self.drop_expaired_and_started_at(now);
        let ghost open = self@;
        let mut i: usize = 0;
        while i < self.lobbies.len()
            invariant
                i <= self.lobbies@.len(),
                self@ == open,
                open == open_lobbies(old(self)@, now),
                forall|j: int| 0 <= j < i ==> (#[trigger] open[j]).player_list.contains(player@),
            decreases self.lobbies@.len() - i,
        {
            proof {
                assert(self@[i as int] == self.lobbies@[i as int]@);
            }
            if !has_name(&self.lobbies[i].player_list, player) {
                let mut lobby = self.lobbies.remove(i);
                lobby.join(player);
                proof {
                    assert(!open[i as int].player_list.contains(player@));
                    assert(lobby@ == open[i as int].joined(player@));
                    assert(self@ =~= open.remove(i as int));
                }
                return Some(lobby);
            }
            i += 1;
        }
        None
    }
}

/// Whether `after` and `taken` are what taking the longest-waiting lobby for
/// `player` at the time `now` makes of `before`: of the lobbies that still
/// wait, the first one in which the player is not leaves the queue, and
/// `taken` is that lobby with the player in it; where the player is in all of
/// them, none is taken.
pub open spec fn taken_lobby(
    before: Seq<LobbyView>,
    player: Seq<char>,
    now: i64,
    after: Seq<LobbyView>,
    taken: Option<LobbyView>,
) -> bool {
    let open = open_lobbies(before, now);
    match taken {
        Some(lobby) => exists|i: int|
            0 <= i < open.len() && !(#[trigger] open[i]).player_list.contains(player) && (forall|j: int|
                0 <= j < i ==> (#[trigger] open[j]).player_list.contains(player)) && lobby == open[i].joined(player)
                && after == open.remove(i),
        None => after == open && forall|j: int|
            0 <= j < open.len() ==> (#[trigger] open[j]).player_list.contains(player),
    }
}

/// Whether `owner` owns one of `lobbies`.
pub open spec fn owner_waits(lobbies: Seq<LobbyView>, owner: Seq<char>) -> bool {
    exists|i: int| 0 <= i < lobbies.len() && (#[trigger] lobbies[i]).owner == owner
}

/// Whether `after` is what opening a lobby for `owner` at the time `now`
/// makes of `before`, `opened` saying whether a lobby was opened: the lobbies
/// that still wait, and behind them the new lobby unless the owner has one
/// among them.
pub open spec fn opened_lobby(
    before: Seq<LobbyView>,
    owner: Seq<char>,
    match_type: MatchType,
    now: i64,
    after: Seq<LobbyView>,
    opened: bool,
) -> bool {
    let open = open_lobbies(before, now);
    &&& opened == !owner_waits(open, owner)
    &&& after == if opened {
        open.push(LobbyView::fresh(owner, match_type, now))
    } else {
        open
    }
}

/// Whether `after` and `joined` are what letting `player` into the lobby of
/// `owner` at the time `now` makes of `before`: of the lobbies that still
/// wait, the first one that the player can join has the player in it; where
/// there is none, nothing changes but that the other lobbies are closed.
pub open spec fn joined_lobby(
    before: Seq<LobbyView>,
    owner: Seq<char>,
    player: Seq<char>,
    now: i64,
    after: Seq<LobbyView>,
    joined: Option<LobbyView>,
) -> bool {
    let open = open_lobbies(before, now);
    match joined {
        Some(lobby) => exists|i: int|
            0 <= i < open.len() && (#[trigger] open[i]).joinable(owner, player) && (forall|j: int|
                0 <= j < i ==> !(#[trigger] open[j]).joinable(owner, player)) && lobby == open[i].joined(player)
                && after == open.update(i, lobby),
        None => after == open && forall|j: int| 0 <= j < open.len() ==> !(#[trigger] open[j]).joinable(owner, player),
    }
}

} // verus!
