//! The broker: the single owner of the session registry and the room
//! directory. Every operation returns the text pushes it causes, as
//! `Delivery` values, which the transport layer hands to the sessions.

use std::collections::hash_map::RandomState;
use std::collections::HashMap;
use vstd::prelude::*;
use vstd::std_specs::hash::{builds_valid_hashers, obeys_key_model};

use crate::ids::{codes_of, random_usize, MAX_ATTEMPTS};
use crate::GameId;

verus! {

broadcast use vstd::std_specs::hash::group_hash_axioms;

/// Text that the broker pushes to a session.
#[derive(Debug, PartialEq, Eq)]
pub struct Message(pub String);

/// One push of a message to one session.
#[derive(Debug, PartialEq, Eq)]
pub struct Delivery {
    pub to: usize,
    pub msg: Message,
}

/// The pushes, as pairs of recipient and text.
pub open spec fn deliveries_view(ds: Seq<Delivery>) -> Seq<(usize, Seq<char>)> {
    ds.map_values(|d: Delivery| (d.to, d.msg.0@))
}

/// The same text pushed to each of `ids`, in order.
pub open spec fn notices(ids: Seq<usize>, text: Seq<char>) -> Seq<(usize, Seq<char>)> {
    ids.map_values(|i: usize| (i, text))
}

/// The members of `ids`, in order, that are registered and are not `skip`.
pub open spec fn recipients(ids: Seq<usize>, skip: usize, reg: Set<usize>) -> Seq<usize>
    decreases ids.len(),
{
    if ids.len() == 0 {
        Seq::empty()
    } else {
        let rest = recipients(ids.drop_last(), skip, reg);
        let x = ids.last();
        if x != skip && reg.contains(x) {
            rest.push(x)
        } else {
            rest
        }
    }
}

/// A new session registers itself, with the handle that reaches it.
pub struct Connect<A> {
    pub addr: A,
}

/// A session is gone.
pub struct Disconnect {
    pub id: usize,
}

/// Text from a session, to be relayed to the other members of its room.
pub struct ClientMessage {
    /// Id of the sending session
    pub id: usize,
    /// The text
    pub msg: String,
    /// The sender's room, if it has one
    pub game_id: Option<GameId>,
}

/// Move a session into a room, creating the room if the code is unused.
pub struct Join {
    /// Id of the session
    pub id: usize,
    /// Code of the room
    pub game_id: GameId,
}

/// Ask whether a room exists.
pub struct CheckGameExists {
    pub game_id: GameId,
}

/// Ask for the codes of all rooms.
pub struct ListGames {}

/// A player declares itself ready; no rule acts on it yet.
pub struct Ready {}

/// Where a room's game stands; nothing acts on it yet.
#[derive(Debug)]
pub enum GameStatus {
    Waiting,
    Starting,
    /// `current_number` is never zero.
    InProcess { current_number: u128 },
}

/// A member's data within a room.
#[derive(Debug)]
pub struct Player {
    /// Set by the client through `/name`.
    pub name: String,
}

/// A room: its members, keyed by session id, and its game state.
#[derive(Debug)]
pub struct Game {
    /// Members with their data; each id occurs once.
    pub players: Vec<(usize, Player)>,
    /// The member whose turn it is
    pub turn_id: usize,
    /// For checking whether a game action is valid at a given time
    pub status: GameStatus,
}

/// The entries of `ps`, in order, but those of member `id`.
pub open spec fn without(ps: Seq<(usize, Player)>, id: usize) -> Seq<(usize, Player)>
    decreases ps.len(),
{
    if ps.len() == 0 {
        ps
    } else {
        let rest = without(ps.drop_last(), id);
        if ps.last().0 == id {
            rest
        } else {
            rest.push(ps.last())
        }
    }
}

proof fn lemma_without_absent(ps: Seq<(usize, Player)>, id: usize)
    requires
        forall|i: int| 0 <= i < ps.len() ==> (#[trigger] ps[i]).0 != id,
    ensures
        without(ps, id) == ps,
    decreases ps.len(),
{
    if ps.len() > 0 {
        lemma_without_absent(ps.drop_last(), id);
        assert(ps.drop_last().push(ps.last()) =~= ps);
    }
}

proof fn lemma_without_remove(ps: Seq<(usize, Player)>, k: int, id: usize)
    requires
        0 <= k < ps.len(),
        ps[k].0 == id,
        forall|i: int, j: int|
            0 <= i < ps.len() && 0 <= j < ps.len() && (#[trigger] ps[i]).0 == (#[trigger] ps[j]).0
                ==> i == j,
    ensures
        without(ps, id) == ps.remove(k),
    decreases ps.len(),
{
    let init = ps.drop_last();
    if k == ps.len() - 1 {
        assert forall|i: int| 0 <= i < init.len() implies (#[trigger] init[i]).0 != id by {
            assert(ps[i] == init[i]);
        }
        lemma_without_absent(init, id);
        assert(ps.remove(k) =~= init);
    } else {
        assert(ps.last().0 != id) by {
            assert(ps[ps.len() - 1] == ps.last());
        }
        assert forall|i: int, j: int|
            0 <= i < init.len() && 0 <= j < init.len() && (#[trigger] init[i]).0 == (
            #[trigger] init[j]).0 implies i == j by {
            assert(ps[i] == init[i]);
            assert(ps[j] == init[j]);
        }
        lemma_without_remove(init, k, id);
        assert(init.remove(k).push(ps.last()) =~= ps.remove(k));
    }
}

/// Ids in a list of members, taken one by one, are distinct.
proof fn lemma_ids_distinct(g: Game)
    requires
        g.wf(),
    ensures
        forall|i: int, j: int|
            0 <= i < g.players@.len() && 0 <= j < g.players@.len() && (#[trigger] g.players@[i]).0
                == (#[trigger] g.players@[j]).0 ==> i == j,
{
    assert forall|i: int, j: int|
        0 <= i < g.players@.len() && 0 <= j < g.players@.len() && (#[trigger] g.players@[i]).0
            == (#[trigger] g.players@[j]).0 implies i == j by {
        assert(g.member_ids()[i] == g.players@[i].0);
        assert(g.member_ids()[j] == g.players@[j].0);
    }
}

impl Game {
    /// The ids of the members, in the order they joined.
    pub open spec fn member_ids(&self) -> Seq<usize> {
        self.players@.map_values(|p: (usize, Player)| p.0)
    }

    pub open spec fn has_member(&self, id: usize) -> bool {
        self.member_ids().contains(id)
    }

    pub open spec fn wf(&self) -> bool {
        &&& self.member_ids().no_duplicates()
        &&& (self.status matches GameStatus::InProcess { current_number } ==> current_number != 0)
    }

    /// A room with no members, waiting.
    pub fn new() -> (g: Game)
        ensures
            g.wf(),
            g.member_ids() == Seq::<usize>::empty(),
            g.players@.len() == 0,
            g.turn_id == 0,
            g.status is Waiting,
    {
        let g = Game { players: Vec::new(), turn_id: 0, status: GameStatus::Waiting };
        assert(g.member_ids() =~= Seq::<usize>::empty());
        g
    }

    /// The position of member `id`, if it is one.
    pub fn find_player(&self, id: usize) -> (r: Option<usize>)
        ensures
            r matches Some(k) ==> k < self.players@.len() && self.member_ids()[k as int] == id,
            r is None ==> !self.has_member(id),
    {
        let mut k: usize = 0;
        while k < self.players.len()
            invariant
                k <= self.players@.len(),
                forall|j: int| 0 <= j < k ==> self.member_ids()[j] != id,
            decreases self.players@.len() - k,
        {
            if self.players[k].0 == id {
                return Some(k);
            }
            k = k + 1;
        }
        proof {
            if self.has_member(id) {
                let j = self.member_ids().index_of(id);
                assert(self.member_ids()[j] == id);
            }
        }
        None
    }

    /// Removes member `id`, if it is one, keeping the order of the others.
    pub fn remove_player(&mut self, id: usize) -> (r: bool)
        requires
            old(self).wf(),
        ensures
            final(self).wf(),
            r == old(self).has_member(id),
            r ==> exists|k: int|
                0 <= k < old(self).member_ids().len() && old(self).member_ids()[k] == id
                    && final(self).member_ids() == old(self).member_ids().remove(k),
            !r ==> final(self).member_ids() == old(self).member_ids(),
            final(self).players@ == without(old(self).players@, id),
            forall|x: usize| #[trigger]
                final(self).has_member(x) <==> (old(self).has_member(x) && x != id),
            final(self).turn_id == old(self).turn_id,
            final(self).status == old(self).status,
    {
        proof {
            lemma_ids_distinct(*self);
        }
        match self.find_player(id) {
            None => {
                proof {
                    assert forall|i: int| 0 <= i < self.players@.len() implies (
                    #[trigger] self.players@[i]).0 != id by {
                        assert(self.member_ids()[i] == self.players@[i].0);
                    }
                    lemma_without_absent(self.players@, id);
                }
                false
            },
            Some(k) => {
                let ghost before = self.member_ids();
                let ghost old_players = self.players@;
                proof {
                    assert(old_players[k as int].0 == before[k as int]);
                    lemma_without_remove(old_players, k as int, id);
                }
                self.players.remove(k);
                proof {
                    assert(self.member_ids() =~= before.remove(k as int));
                    assert forall|x: usize| #[trigger]
                        self.has_member(x) <==> (before.contains(x) && x != id) by {
                        if self.has_member(x) {
                            let j = self.member_ids().index_of(x);
                            if j < k {
                                assert(before[j] == x);
                            } else {
                                assert(before[j + 1] == x);
                            }
                            assert(x != id);
                        }
                        if before.contains(x) && x != id {
                            let j = before.index_of(x);
                            assert(j != k);
                            if j < k {
                                assert(self.member_ids()[j] == x);
                            } else {
                                assert(self.member_ids()[j - 1] == x);
                            }
                        }
                    }
                }
                true
            },
        }
    }

    /// Adds `id` as the newest member, with display name `name`.
    pub fn add_player(&mut self, id: usize, name: String) -> (r: ())
        requires
            old(self).wf(),
            !old(self).has_member(id),
        ensures
            final(self).wf(),
            final(self).member_ids() == old(self).member_ids().push(id),
            final(self).players@.drop_last() == old(self).players@,
            final(self).players@.last().0 == id,
            final(self).players@.last().1.name@ == name@,
            forall|x: usize| #[trigger]
                final(self).has_member(x) <==> (old(self).has_member(x) || x == id),
            final(self).turn_id == old(self).turn_id,
            final(self).status == old(self).status,
    {
        let ghost before = self.member_ids();
        let ghost old_players = self.players@;
        self.players.push((id, Player { name }));
        proof {
            assert(self.players@.drop_last() =~= old_players);
            assert(self.member_ids() =~= before.push(id));
            assert forall|x: usize| #[trigger]
                self.has_member(x) <==> (before.contains(x) || x == id) by {
                if self.has_member(x) {
                    let j = self.member_ids().index_of(x);
                    if j < before.len() {
                        assert(before[j] == x);
                    }
                }
                if before.contains(x) {
                    let j = before.index_of(x);
                    assert(self.member_ids()[j] == x);
                }
                if x == id {
                    assert(self.member_ids()[before.len() as int] == x);
                }
            }
        }
    }
}

/// Each registered session is found in `recipients` exactly when it is a
/// member of `ids` other than `skip`.
pub proof fn lemma_recipients_contains(ids: Seq<usize>, skip: usize, reg: Set<usize>, x: usize)
    ensures
        recipients(ids, skip, reg).contains(x) <==> (ids.contains(x) && x != skip && reg.contains(x)),
    decreases ids.len(),
{
    if ids.len() > 0 {
        let init = ids.drop_last();
        lemma_recipients_contains(init, skip, reg, x);
        assert(ids =~= init.push(ids.last()));
        if init.contains(x) {
            let j = init.index_of(x);
            assert(ids[j] == x);
        }
        if ids.contains(x) && x != ids.last() {
            let j = ids.index_of(x);
            assert(j < ids.len() - 1);
            assert(init[j] == x);
        }
        if ids.contains(x) && x == ids.last() {
            let r = recipients(ids, skip, reg);
            if x != skip && reg.contains(x) {
                assert(r[r.len() - 1] == x);
            }
        }
        let r = recipients(ids, skip, reg);
        let ri = recipients(init, skip, reg);
        if ri.contains(x) {
            let j = ri.index_of(x);
            if ids.last() != skip && reg.contains(ids.last()) {
                assert(r[j] == x);
            }
        }
        if r.contains(x) && ids.last() != skip && reg.contains(ids.last()) && x != ids.last() {
            let j = r.index_of(x);
            assert(ri[j] == x);
        }
    }
}

/// Taking out an occurrence of `skip` does not change who receives.
proof fn lemma_recipients_remove_skip(ids: Seq<usize>, k: int, skip: usize, reg: Set<usize>)
    requires
        0 <= k < ids.len(),
        ids[k] == skip,
    ensures
        recipients(ids.remove(k), skip, reg) == recipients(ids, skip, reg),
    decreases ids.len(),
{
    if k == ids.len() - 1 {
        assert(ids.remove(k) =~= ids.drop_last());
    } else {
        let rem = ids.remove(k);
        lemma_recipients_remove_skip(ids.drop_last(), k, skip, reg);
        assert(rem.drop_last() =~= ids.drop_last().remove(k));
        assert(rem.last() == ids.last());
    }
}

/// The broker's state: the registry of live sessions, each with the handle
/// that reaches it, and the rooms with their members. A room is created by
/// the first join to its code and is never reclaimed, even when its last
/// member leaves: its code stays taken for the life of the broker.
pub struct GameServer<A> {
    sessions: HashMap<usize, A>,
    games: Vec<(GameId, Game)>,
}

impl<A> GameServer<A> {
    /// The registered sessions, by id.
    pub closed spec fn registry(&self) -> Map<usize, A> {
        self.sessions@
    }

    /// The rooms, with their codes, in the order they were created.
    pub closed spec fn room_list(&self) -> Seq<(GameId, Game)> {
        self.games@
    }

    pub open spec fn is_registered(&self, id: usize) -> bool {
        self.registry().contains_key(id)
    }

    /// The codes of the rooms, in the order they were created.
    pub open spec fn codes(&self) -> Seq<Seq<char>> {
        self.room_list().map_values(|e: (GameId, Game)| e.0@)
    }

    pub open spec fn has_game(&self, code: Seq<char>) -> bool {
        self.codes().contains(code)
    }

    /// Session `id` is a member of the room with code `code`.
    pub open spec fn in_room(&self, code: Seq<char>, id: usize) -> bool {
        exists|i: int|
            0 <= i < self.room_list().len() && #[trigger] self.room_list()[i].0@ == code
                && self.room_list()[i].1.has_member(id)
    }

    /// The room that session `id` is a member of, if any.
    pub open spec fn current_room(&self, id: usize) -> Option<Seq<char>> {
        if exists|c: Seq<char>| self.in_room(c, id) {
            Some(choose|c: Seq<char>| self.in_room(c, id))
        } else {
            None
        }
    }

    /// The position of the room with code `code`.
    pub open spec fn game_index(&self, code: Seq<char>) -> int {
        choose|i: int| 0 <= i < self.room_list().len() && self.room_list()[i].0@ == code
    }

    /// The members of the room with code `code`, in the order they joined.
    pub open spec fn members_of(&self, code: Seq<char>) -> Seq<usize> {
        self.room_list()[self.game_index(code)].1.member_ids()
    }

    /// Who receives a text sent to room `code` by `skip`: every registered
    /// member but `skip`, and no one if there is no such room.
    pub open spec fn room_recipients(&self, code: Seq<char>, skip: usize) -> Seq<usize> {
        if self.has_game(code) {
            recipients(self.members_of(code), skip, self.registry().dom())
        } else {
            Seq::empty()
        }
    }

    /// The departure notices that the other members of `id`'s room receive
    /// when `id` leaves it; none when `id` is in no room.
    pub open spec fn departure_notices(&self, id: usize) -> Seq<(usize, Seq<char>)> {
        match self.current_room(id) {
            Some(c) => notices(self.room_recipients(c, id), "Someone disconnected"@),
            None => Seq::empty(),
        }
    }

    /// How leaving changes the rooms, from `self` to `post`, for session
    /// `id`: the same rooms in the same order, each with its code, turn and
    /// status, and its members but `id` in the same order and with the same
    /// names. Rooms stay even when they become empty: none is ever reclaimed.
    pub open spec fn rooms_left(self, post: Self, id: usize) -> bool {
        &&& post.room_list().len() == self.room_list().len()
        &&& forall|i: int|
            0 <= i < self.room_list().len() ==> {
                &&& (#[trigger] post.room_list()[i]).0 == self.room_list()[i].0
                &&& post.room_list()[i].1.players@ == without(self.room_list()[i].1.players@, id)
                &&& post.room_list()[i].1.turn_id == self.room_list()[i].1.turn_id
                &&& post.room_list()[i].1.status == self.room_list()[i].1.status
            }
    }

    /// How `join` changes the rooms, from `self` to `post`, for registered
    /// session `id` and room `code`: `id` ends in room `code` and in no
    /// other; every other session keeps its room; the room is created if
    /// the code was unused, with `id` alone; `id` is its newest member, named
    /// "Anon".
    pub open spec fn joined(self, post: Self, id: usize, code: Seq<char>) -> bool {
        &&& forall|c: Seq<char>| #[trigger] post.in_room(c, id) <==> c == code
        &&& forall|c: Seq<char>, x: usize|
            x != id ==> (#[trigger] post.in_room(c, x) <==> self.in_room(c, x))
        &&& post.codes() == if self.has_game(code) {
            self.codes()
        } else {
            self.codes().push(code)
        }
        &&& post.members_of(code).last() == id
        &&& !self.has_game(code) ==> post.members_of(code) == seq![id]
        &&& post.room_list()[post.game_index(code)].1.players@.last().1.name@ == "Anon"@
        &&& post.room_list().len() == if self.has_game(code) {
            self.room_list().len()
        } else {
            self.room_list().len() + 1
        }
        &&& forall|i: int|
            0 <= i < self.room_list().len() ==> {
                &&& (#[trigger] post.room_list()[i]).0 == self.room_list()[i].0
                &&& post.room_list()[i].1.turn_id == self.room_list()[i].1.turn_id
                &&& post.room_list()[i].1.status == self.room_list()[i].1.status
                &&& self.room_list()[i].0@ != code ==> post.room_list()[i].1.players@ == without(
                    self.room_list()[i].1.players@,
                    id,
                )
                &&& self.room_list()[i].0@ == code ==> post.room_list()[i].1.players@.drop_last()
                    == without(self.room_list()[i].1.players@, id)
            }
        &&& !self.has_game(code) ==> {
            let last = post.room_list()[self.room_list().len() as int];
            &&& last.0@ == code
            &&& last.1.players@.len() == 1
            &&& last.1.turn_id == 0
            &&& last.1.status is Waiting
        }
    }

    /// The broker's invariant: room codes are unique, each room is well
    /// formed, every member is a registered session, and no session is a
    /// member of two rooms.
    pub open spec fn wf(&self) -> bool {
        &&& obeys_key_model::<usize>()
        &&& builds_valid_hashers::<RandomState>()
        &&& self.codes().no_duplicates()
        &&& forall|i: int| 0 <= i < self.room_list().len() ==> (#[trigger] self.room_list()[i]).1.wf()
        &&& forall|i: int, x: usize|
            0 <= i < self.room_list().len() && #[trigger] self.room_list()[i].1.has_member(x)
                ==> self.is_registered(x)
        &&& forall|i: int, j: int, x: usize|
            0 <= i < self.room_list().len() && 0 <= j < self.room_list().len()
                && #[trigger] self.room_list()[i].1.has_member(x)
                && #[trigger] self.room_list()[j].1.has_member(x) ==> i == j
    }

    /// Under the invariant, the room at position `i` is the one its code names.
    pub proof fn lemma_game_index(&self, i: int)
        requires
            self.wf(),
            0 <= i < self.room_list().len(),
        ensures
            self.has_game(self.room_list()[i].0@),
            self.game_index(self.room_list()[i].0@) == i,
    {
        let code = self.room_list()[i].0@;
        assert(self.codes()[i] == code);
        let j = self.game_index(code);
        assert(self.codes()[j] == code);
    }

    /// Under the invariant, a member of the room at position `i` is in that
    /// room and no other.
    pub proof fn lemma_current_room(&self, i: int, id: usize)
        requires
            self.wf(),
            0 <= i < self.room_list().len(),
            self.room_list()[i].1.has_member(id),
        ensures
            self.current_room(id) == Some(self.room_list()[i].0@),
            forall|c: Seq<char>| #[trigger] self.in_room(c, id) <==> c == self.room_list()[i].0@,
    {
        assert(self.in_room(self.room_list()[i].0@, id));
        assert forall|c: Seq<char>| #[trigger] self.in_room(c, id) implies c
            == self.room_list()[i].0@ by {
            let j = choose|j: int|
                0 <= j < self.room_list().len() && #[trigger] self.room_list()[j].0@ == c
                    && self.room_list()[j].1.has_member(id);
            assert(self.room_list()[j].1.has_member(id));
        }
    }

    /// An empty broker.
    pub fn new() -> (s: Self)
        ensures
            s.wf(),
            s.registry() == Map::<usize, A>::empty(),
            s.codes() == Seq::<Seq<char>>::empty(),
    {
        let s = GameServer { sessions: HashMap::new(), games: Vec::new() };
        assert(s.codes() =~= Seq::<Seq<char>>::empty());
        s
    }

    /// The position of the room with code `code`, if there is one.
    fn find_game(&self, code: &GameId) -> (r: Option<usize>)
        requires
            self.wf(),
        ensures
            r matches Some(i) ==> i < self.room_list().len() && self.room_list()[i as int].0@
                == code@ && self.game_index(code@) == i,
            r is None ==> !self.has_game(code@),
    {
        let mut i: usize = 0;
        while i < self.games.len()
            invariant
                self.wf(),
                i <= self.games@.len(),
                forall|j: int| 0 <= j < i ==> self.codes()[j] != code@,
            decreases self.games@.len() - i,
        {
            if self.games[i].0 == *code {
                proof {
                    self.lemma_game_index(i as int);
                }
                return Some(i);
            }
            i = i + 1;
        }
        proof {
            if self.has_game(code@) {
                let j = self.codes().index_of(code@);
                assert(self.codes()[j] == code@);
            }
        }
        None
    }

    /// The position of the room that session `id` is a member of, if any.
    fn room_of(&self, id: usize) -> (r: Option<usize>)
        requires
            self.wf(),
        ensures
            r matches Some(i) ==> i < self.room_list().len() && self.room_list()[i as int].1.has_member(id),
            r is None ==> self.current_room(id) is None,
    {
        let mut i: usize = 0;
        while i < self.games.len()
            invariant
                self.wf(),
                i <= self.games@.len(),
                forall|j: int| 0 <= j < i ==> !self.room_list()[j].1.has_member(id),
            decreases self.games@.len() - i,
        {
            if self.games[i].1.find_player(id).is_some() {
                return Some(i);
            }
            i = i + 1;
        }
        proof {
            assert forall|c: Seq<char>| !self.in_room(c, id) by {
                if self.in_room(c, id) {
                    let j = choose|j: int|
                        0 <= j < self.room_list().len() && #[trigger] self.room_list()[j].0@ == c
                            && self.room_list()[j].1.has_member(id);
                    assert(!self.room_list()[j].1.has_member(id));
                }
            }
        }
        None
    }

    /// The pushes that carry `message` to every registered member of room
    /// `room` except `skip_id`, in the order the members joined; none when
    /// `room` is absent or names no room.
    pub fn send_message(&self, room: Option<&GameId>, message: &str, skip_id: usize) -> (r: Vec<Delivery>)
        requires
            self.wf(),
        ensures
            deliveries_view(r@) == notices(
                match room {
                    Some(code) => self.room_recipients(code@, skip_id),
                    None => Seq::empty(),
                },
                message@,
            ),
    {
        let mut out: Vec<Delivery> = Vec::new();
        if let Some(code) = room {
            if let Some(gi) = self.find_game(code) {
                let game = &self.games[gi].1;
                let ghost ids = game.member_ids();
                let ghost reg = self.registry().dom();
                let mut i: usize = 0;
                while i < game.players.len()
                    invariant
                        self.wf(),
                        ids == game.member_ids(),
                        reg == self.registry().dom(),
                        i <= ids.len(),
                        deliveries_view(out@) == notices(recipients(ids.take(i as int), skip_id, reg), message@),
                    decreases ids.len() - i,
                {
                    let id = game.players[i].0;
                    let ghost prev = out@;
                    assert(ids.take(i + 1).drop_last() =~= ids.take(i as int));
                    assert(ids.take(i + 1).last() == id);
                    if id != skip_id && self.sessions.contains_key(&id) {
                        out.push(Delivery { to: id, msg: Message(message.to_owned()) });
                        assert(deliveries_view(out@) =~= deliveries_view(prev).push((id, message@)));
                        assert(notices(recipients(ids.take(i + 1), skip_id, reg), message@) =~= notices(
                            recipients(ids.take(i as int), skip_id, reg), message@).push((id, message@)));
                    }
                    i = i + 1;
                }
                assert(ids.take(ids.len() as int) =~= ids);
                proof {
                    self.lemma_game_index(gi as int);
                }
                assert(self.members_of(code@) == ids);
                return out;
            }
        }
        assert(deliveries_view(out@) =~= notices(Seq::empty(), message@));
        out
    }

    /// Takes session `id` out of the room it is a member of, if any, and
    /// returns the departure notices to the room's other members.
    fn leave_room(&mut self, id: usize) -> (r: Vec<Delivery>)
        requires
            old(self).wf(),
        ensures
            final(self).wf(),
            final(self).registry() == old(self).registry(),
            final(self).codes() == old(self).codes(),
            forall|c: Seq<char>, x: usize| #[trigger]
                final(self).in_room(c, x) <==> (old(self).in_room(c, x) && x != id),
            deliveries_view(r@) == old(self).departure_notices(id),
            old(self).rooms_left(*final(self), id),
            old(self).current_room(id) is None ==> final(self).room_list() == old(self).room_list(),
    {
        let ghost os = *self;
        match self.room_of(id) {
            None => {
                let r: Vec<Delivery> = Vec::new();
                assert(deliveries_view(r@) =~= os.departure_notices(id));
                assert forall|i: int| 0 <= i < os.room_list().len() implies without(
                    (#[trigger] os.room_list()[i]).1.players@,
                    id,
                ) == os.room_list()[i].1.players@ by {
                    let g = os.room_list()[i].1;
                    assert forall|j: int| 0 <= j < g.players@.len() implies (
                    #[trigger] g.players@[j]).0 != id by {
                        assert(g.member_ids()[j] == g.players@[j].0);
                        if g.players@[j].0 == id {
                            assert(os.in_room(os.room_list()[i].0@, id));
                        }
                    }
                    lemma_without_absent(g.players@, id);
                }
                assert forall|c: Seq<char>, x: usize| #[trigger]
                    self.in_room(c, x) <==> (os.in_room(c, x) && x != id) by {
                    if x == id && os.in_room(c, x) {
                        assert(os.current_room(id) is Some);
                    }
                }
                r
            },
            Some(gi) => {
                proof {
                    os.lemma_current_room(gi as int, id);
                }
                let (code, mut game) = self.games.remove(gi);
                let ghost old_members = game.member_ids();
                game.remove_player(id);
                let name = code.clone();
                self.games.insert(gi, (code, game));
                proof {
                    assert(self.games@ =~= os.games@.update(gi as int, (name, game)));
                    assert(self.codes() =~= os.codes());
                    assert forall|i: int| 0 <= i < os.room_list().len() && i != gi implies without(
                        (#[trigger] os.room_list()[i]).1.players@,
                        id,
                    ) == os.room_list()[i].1.players@ by {
                        let g = os.room_list()[i].1;
                        assert forall|j: int| 0 <= j < g.players@.len() implies (
                        #[trigger] g.players@[j]).0 != id by {
                            assert(g.member_ids()[j] == g.players@[j].0);
                            if g.players@[j].0 == id {
                                assert(g.has_member(id));
                                assert(os.room_list()[gi as int].1.has_member(id));
                            }
                        }
                        lemma_without_absent(g.players@, id);
                    }
                    assert forall|i: int, x: usize|
                        0 <= i < self.room_list().len() && #[trigger] self.room_list()[i].1.has_member(
                            x,
                        ) implies self.is_registered(x) && x != id by {
                        if i == gi {
                            assert(os.room_list()[i].1.has_member(x));
                        } else {
                            assert(os.room_list()[i] == self.room_list()[i]);
                            if x == id {
                                assert(os.room_list()[gi as int].1.has_member(x));
                            }
                        }
                    }
                    assert forall|i: int, j: int, x: usize|
                        0 <= i < self.room_list().len() && 0 <= j < self.room_list().len()
                            && #[trigger] self.room_list()[i].1.has_member(x)
                            && #[trigger] self.room_list()[j].1.has_member(x) implies i == j by {
                        assert(os.room_list()[i].1.has_member(x));
                        assert(os.room_list()[j].1.has_member(x));
                    }
                    assert forall|c: Seq<char>, x: usize| #[trigger]
                        self.in_room(c, x) <==> (os.in_room(c, x) && x != id) by {
                        if self.in_room(c, x) {
                            let i = choose|i: int|
                                0 <= i < self.room_list().len() && #[trigger] self.room_list()[i].0@
                                    == c && self.room_list()[i].1.has_member(x);
                            assert(os.room_list()[i].1.has_member(x));
                            assert(os.room_list()[i].0@ == c);
                        }
                        if os.in_room(c, x) && x != id {
                            let i = choose|i: int|
                                0 <= i < os.room_list().len() && #[trigger] os.room_list()[i].0@ == c
                                    && os.room_list()[i].1.has_member(x);
                            assert(self.room_list()[i].0@ == c);
                            assert(self.room_list()[i].1.has_member(x));
                        }
                    }
                    self.lemma_game_index(gi as int);
                    os.lemma_game_index(gi as int);
                    let k = choose|k: int|
                        0 <= k < old_members.len() && old_members[k] == id
                            && game.member_ids() == old_members.remove(k);
                    lemma_recipients_remove_skip(old_members, k, id, os.registry().dom());
                }
                self.send_message(Some(&name), "Someone disconnected", id)
            },
        }
    }

    /// Removes session `id` from the registry and from its room, and returns
    /// the departure notices to the room's other members. An unknown id
    /// changes nothing.
    pub fn disconnect(&mut self, msg: Disconnect) -> (r: Vec<Delivery>)
        requires
            old(self).wf(),
        ensures
            final(self).wf(),
            final(self).registry() == old(self).registry().remove(msg.id),
            final(self).codes() == old(self).codes(),
            forall|c: Seq<char>| !final(self).in_room(c, msg.id),
            forall|c: Seq<char>, x: usize|
                x != msg.id ==> (#[trigger] final(self).in_room(c, x) <==> old(self).in_room(c, x)),
            deliveries_view(r@) == old(self).departure_notices(msg.id),
            old(self).rooms_left(*final(self), msg.id),
            !old(self).is_registered(msg.id) ==> r@.len() == 0 && final(self).registry() == old(
                self,
            ).registry() && final(self).room_list() == old(self).room_list(),
    {
        let ghost os = *self;
        let id = msg.id;
        let r = self.leave_room(id);
        let ghost mid = *self;
        self.sessions.remove(&id);
        proof {
            assert(self.registry() == os.registry().remove(id));
            assert forall|i: int, x: usize|
                0 <= i < self.room_list().len() && #[trigger] self.room_list()[i].1.has_member(x)
                    implies self.is_registered(x) by {
                assert(mid.in_room(mid.room_list()[i].0@, x));
            }
            assert forall|c: Seq<char>| !self.in_room(c, id) by {
                assert(!mid.in_room(c, id));
            }
            assert forall|c: Seq<char>, x: usize|
                x != id implies (#[trigger] self.in_room(c, x) <==> os.in_room(c, x)) by {
                assert(mid.in_room(c, x) == self.in_room(c, x));
            }
            if !os.is_registered(id) {
                if os.current_room(id) is Some {
                    let c = os.current_room(id)->0;
                    assert(os.in_room(c, id));
                    let i = choose|i: int|
                        0 <= i < os.room_list().len() && #[trigger] os.room_list()[i].0@ == c
                            && os.room_list()[i].1.has_member(id);
                    assert(os.room_list()[i].1.has_member(id));
                }
                assert(deliveries_view(r@).len() == 0);
                assert(os.registry().remove(id) =~= os.registry());
            }
        }
        r
    }

    /// Registers `addr` under `id`, if no live session holds that id.
    pub fn register(&mut self, id: usize, addr: A) -> (r: bool)
        requires
            old(self).wf(),
        ensures
            final(self).wf(),
            r == !old(self).is_registered(id),
            r ==> final(self).registry() == old(self).registry().insert(id, addr),
            !r ==> final(self).registry() == old(self).registry(),
            final(self).room_list() == old(self).room_list(),
    {
        if self.sessions.contains_key(&id) {
            false
        } else {
            self.sessions.insert(id, addr);
            true
        }
    }

    /// Registers a new session under an id that no live session holds, drawn
    /// at random, and returns it; `None` when every draw collided, which
    /// cannot happen while no session is registered.
    pub fn connect(&mut self, msg: Connect<A>) -> (r: Option<usize>)
        requires
            old(self).wf(),
        ensures
            final(self).wf(),
            final(self).room_list() == old(self).room_list(),
            r matches Some(id) ==> !old(self).is_registered(id) && final(self).registry()
                == old(self).registry().insert(id, msg.addr),
            r is None ==> final(self).registry() == old(self).registry(),
            old(self).registry() == Map::<usize, A>::empty() ==> r is Some,
    {
        let mut attempt: usize = 0;
        while attempt < MAX_ATTEMPTS
            invariant
                self.wf(),
                *self == *old(self),
                attempt > 0 ==> old(self).registry() != Map::<usize, A>::empty(),
            decreases MAX_ATTEMPTS - attempt,
        {
            let id = random_usize();
            if !self.sessions.contains_key(&id) {
                self.register(id, msg.addr);
                return Some(id);
            }
            attempt = attempt + 1;
        }
        None
    }


    /// Moves session `id` into room `game_id`: out of its former room (with
    /// departure notices there), into the room, created empty if the code is
    /// unused, as a member named "Anon" (with arrival notices to the other
    /// members), then a greeting to `id` itself. A session that is not
    /// registered changes nothing.
    pub fn join(&mut self, msg: Join) -> (r: Vec<Delivery>)
        requires
            old(self).wf(),
        ensures
            final(self).wf(),
            final(self).registry() == old(self).registry(),
            !old(self).is_registered(msg.id) ==> final(self).room_list() == old(self).room_list()
                && r@.len() == 0,
            old(self).is_registered(msg.id) ==> {
                &&& old(self).joined(*final(self), msg.id, msg.game_id@)
                &&& deliveries_view(r@) == old(self).departure_notices(msg.id) + notices(
                    final(self).room_recipients(msg.game_id@, msg.id),
                    "Someone connected"@,
                ) + seq![(msg.id, "Hello from here"@)]
            },
    {
        let ghost os = *self;
        let Join { id, game_id } = msg;
        if !self.sessions.contains_key(&id) {
            return Vec::new();
        }
        let mut out = self.leave_room(id);
        let ghost mid = *self;
        let gi: usize = match self.find_game(&game_id) {
            Some(i) => i,
            None => {
                let fresh = Game::new();
                let ghost g = fresh;
                let code = game_id.clone();
                self.games.push((code, fresh));
                proof {
                    assert(self.games@ =~= mid.games@.push((code, g)));
                    assert(self.codes() =~= mid.codes().push(game_id@));
                    assert forall|i: int, j: int, x: usize|
                        0 <= i < self.room_list().len() && 0 <= j < self.room_list().len()
                            && #[trigger] self.room_list()[i].1.has_member(x)
                            && #[trigger] self.room_list()[j].1.has_member(x) implies i == j by {
                        assert(i < mid.room_list().len());
                        assert(j < mid.room_list().len());
                        assert(self.room_list()[i] == mid.room_list()[i]);
                        assert(self.room_list()[j] == mid.room_list()[j]);
                    }
                    assert forall|i: int, x: usize|
                        0 <= i < self.room_list().len() && #[trigger] self.room_list()[i].1.has_member(
                            x,
                        ) implies self.is_registered(x) by {
                        assert(i < mid.room_list().len());
                        assert(self.room_list()[i] == mid.room_list()[i]);
                    }
                    self.lemma_game_index(self.games@.len() - 1);
                }
                self.games.len() - 1
            },
        };
        let ghost grown = *self;
        proof {
            grown.lemma_game_index(gi as int);
            assert forall|c: Seq<char>, x: usize| #[trigger]
                grown.in_room(c, x) <==> mid.in_room(c, x) by {
                if grown.in_room(c, x) {
                    let i = choose|i: int|
                        0 <= i < grown.room_list().len() && #[trigger] grown.room_list()[i].0@ == c
                            && grown.room_list()[i].1.has_member(x);
                    assert(i < mid.room_list().len());
                    assert(grown.room_list()[i] == mid.room_list()[i]);
                }
                if mid.in_room(c, x) {
                    let i = choose|i: int|
                        0 <= i < mid.room_list().len() && #[trigger] mid.room_list()[i].0@ == c
                            && mid.room_list()[i].1.has_member(x);
                    assert(grown.room_list()[i] == mid.room_list()[i]);
                }
            }
            assert(!grown.in_room(game_id@, id));
            assert(!grown.room_list()[gi as int].1.has_member(id));
        }
        let (code, mut game) = self.games.remove(gi);
        let ghost before = game;
        game.add_player(id, "Anon".to_owned());
        self.games.insert(gi, (code, game));
        proof {
            assert(self.games@ =~= grown.games@.update(gi as int, (code, game)));
            assert(self.codes() =~= grown.codes());
            assert forall|i: int, x: usize|
                0 <= i < self.room_list().len() && #[trigger] self.room_list()[i].1.has_member(x)
                    implies self.is_registered(x) by {
                if i != gi {
                    assert(self.room_list()[i] == grown.room_list()[i]);
                } else if x != id {
                    assert(before.has_member(x));
                }
            }
            assert forall|i: int, j: int, x: usize|
                0 <= i < self.room_list().len() && 0 <= j < self.room_list().len()
                    && #[trigger] self.room_list()[i].1.has_member(x)
                    && #[trigger] self.room_list()[j].1.has_member(x) implies i == j by {
                if i != gi {
                    assert(self.room_list()[i] == grown.room_list()[i]);
                }
                if j != gi {
                    assert(self.room_list()[j] == grown.room_list()[j]);
                }
                if x == id && i != gi {
                    assert(grown.in_room(grown.room_list()[i].0@, id));
                }
                if x == id && j != gi {
                    assert(grown.in_room(grown.room_list()[j].0@, id));
                }
                if x != id && i == gi {
                    assert(before.has_member(x));
                }
                if x != id && j == gi {
                    assert(before.has_member(x));
                }
            }
            self.lemma_game_index(gi as int);
            assert forall|c: Seq<char>, x: usize| #[trigger]
                self.in_room(c, x) <==> (grown.in_room(c, x) || (x == id && c == game_id@)) by {
                if self.in_room(c, x) {
                    let i = choose|i: int|
                        0 <= i < self.room_list().len() && #[trigger] self.room_list()[i].0@ == c
                            && self.room_list()[i].1.has_member(x);
                    if i != gi {
                        assert(self.room_list()[i] == grown.room_list()[i]);
                    } else if x != id {
                        assert(before.has_member(x));
                        assert(grown.room_list()[i].0@ == c);
                    }
                }
                if grown.in_room(c, x) {
                    let i = choose|i: int|
                        0 <= i < grown.room_list().len() && #[trigger] grown.room_list()[i].0@ == c
                            && grown.room_list()[i].1.has_member(x);
                    assert(self.room_list()[i].0@ == c);
                    assert(self.room_list()[i].1.has_member(x));
                }
                if x == id && c == game_id@ {
                    assert(self.room_list()[gi as int].1.has_member(id));
                }
            }
            if !os.has_game(game_id@) {
                assert(mid.codes() == os.codes());
                assert(before.member_ids() =~= Seq::<usize>::empty());
                assert(self.members_of(game_id@) =~= seq![id]);
            }
            assert(mid.codes() == os.codes());
            assert forall|i: int| 0 <= i < os.room_list().len() implies {
                &&& (#[trigger] self.room_list()[i]).0 == os.room_list()[i].0
                &&& self.room_list()[i].1.turn_id == os.room_list()[i].1.turn_id
                &&& self.room_list()[i].1.status == os.room_list()[i].1.status
                &&& os.room_list()[i].0@ != game_id@ ==> self.room_list()[i].1.players@ == without(
                    os.room_list()[i].1.players@,
                    id,
                )
                &&& os.room_list()[i].0@ == game_id@ ==> self.room_list()[i].1.players@.drop_last()
                    == without(os.room_list()[i].1.players@, id)
            } by {
                assert(mid.room_list()[i].0 == os.room_list()[i].0);
                assert(grown.room_list()[i] == mid.room_list()[i]);
                assert(os.codes()[i] == os.room_list()[i].0@);
                assert(grown.codes()[i] == grown.room_list()[i].0@);
                assert(grown.codes()[gi as int] == grown.room_list()[gi as int].0@);
                if i != gi {
                    assert(self.room_list()[i] == grown.room_list()[i]);
                }
            }
            if !os.has_game(game_id@) {
                let n = os.room_list().len() as int;
                assert(gi == n);
                assert(self.room_list()[n] == (code, game));
            }
        }
        let mut arrivals = self.send_message(Some(&game_id), "Someone connected", id);
        let ghost first = out@;
        let ghost second = arrivals@;
        out.append(&mut arrivals);
        out.push(Delivery { to: id, msg: Message("Hello from here".to_owned()) });
        proof {
            assert(deliveries_view(out@) =~= deliveries_view(first) + deliveries_view(second) + seq![
                (id, "Hello from here"@),
            ]);
        }
        out
    }

    /// Whether a room with the given code exists.
    pub fn check_game_exists(&self, msg: &CheckGameExists) -> (r: bool)
        requires
            self.wf(),
        ensures
            r == self.has_game(msg.game_id@),
    {
        match self.find_game(&msg.game_id) {
            Some(i) => {
                proof {
                    self.lemma_game_index(i as int);
                }
                true
            },
            None => false,
        }
    }

    /// The codes of all rooms, in the order they were created.
    pub fn list_games(&self, msg: &ListGames) -> (r: Vec<GameId>)
        ensures
            codes_of(r@) == self.codes(),
    {
        let mut out: Vec<GameId> = Vec::new();
        let mut i: usize = 0;
        while i < self.games.len()
            invariant
                i <= self.games@.len(),
                codes_of(out@) == self.codes().take(i as int),
            decreases self.games@.len() - i,
        {
            let ghost prev = out@;
            out.push(self.games[i].0.clone());
            assert(codes_of(out@) =~= codes_of(prev).push(self.codes()[i as int]));
            assert(self.codes().take(i + 1) =~= self.codes().take(i as int).push(self.codes()[i as int]));
            i = i + 1;
        }
        assert(self.codes().take(i as int) =~= self.codes());
        out
    }

    /// Relays a session's text to the other registered members of its room.
    pub fn client_message(&self, msg: &ClientMessage) -> (r: Vec<Delivery>)
        requires
            self.wf(),
        ensures
            deliveries_view(r@) == notices(
                match msg.game_id {
                    Some(code) => self.room_recipients(code@, msg.id),
                    None => Seq::empty(),
                },
                msg.msg@,
            ),
    {
        self.send_message(msg.game_id.as_ref(), msg.msg.as_str(), msg.id)
    }


    /// Whether session `id` is registered.
    pub fn has_session(&self, id: usize) -> (r: bool)
        requires
            self.wf(),
        ensures
            r == self.is_registered(id),
    {
        self.sessions.contains_key(&id)
    }

    /// The handle that reaches session `id`, if it is registered.
    pub fn session(&self, id: usize) -> (r: Option<&A>)
        requires
            self.wf(),
        ensures
            r matches Some(a) ==> self.is_registered(id) && *a == self.registry()[id],
            r is None ==> !self.is_registered(id),
    {
        self.sessions.get(&id)
    }

    /// The members of room `code`, in the order they joined; `None` when
    /// there is no such room.
    pub fn room_members(&self, code: &GameId) -> (r: Option<Vec<usize>>)
        requires
            self.wf(),
        ensures
            r matches Some(v) ==> self.has_game(code@) && v@ == self.members_of(code@),
            r is None ==> !self.has_game(code@),
    {
        match self.find_game(code) {
            None => None,
            Some(gi) => {
                proof {
                    self.lemma_game_index(gi as int);
                }
                let game = &self.games[gi].1;
                let mut out: Vec<usize> = Vec::new();
                let mut i: usize = 0;
                while i < game.players.len()
                    invariant
                        i <= game.players@.len(),
                        out@ == game.member_ids().take(i as int),
                    decreases game.players@.len() - i,
                {
                    out.push(game.players[i].0);
                    assert(game.member_ids().take(i + 1) =~= game.member_ids().take(i as int).push(
                        game.players@[i as int].0,
                    ));
                    i = i + 1;
                }
                assert(game.member_ids().take(i as int) =~= game.member_ids());
                Some(out)
            },
        }
    }

}

/// A text sent to room `code` by `sender` reaches exactly the members of
/// that room other than `sender`, and no one when there is no such room.
pub proof fn lemma_room_recipients<A>(s: GameServer<A>, code: Seq<char>, sender: usize, y: usize)
    requires
        s.wf(),
    ensures
        s.room_recipients(code, sender).contains(y) <==> (s.in_room(code, y) && y != sender),
        !s.has_game(code) ==> s.room_recipients(code, sender).len() == 0,
{
    if s.has_game(code) {
        let gi = s.game_index(code);
        let k = s.codes().index_of(code);
        assert(s.codes()[k] == code);
        s.lemma_game_index(k);
        lemma_recipients_contains(s.members_of(code), sender, s.registry().dom(), y);
        if s.in_room(code, y) {
            let i = choose|i: int|
                0 <= i < s.room_list().len() && #[trigger] s.room_list()[i].0@ == code
                    && s.room_list()[i].1.has_member(y);
            s.lemma_game_index(i);
        }
        if s.members_of(code).contains(y) {
            assert(s.room_list()[gi].0@ == code);
            assert(s.room_list()[gi].1.has_member(y));
        }
    } else {
        if s.in_room(code, y) {
            let i = choose|i: int|
                0 <= i < s.room_list().len() && #[trigger] s.room_list()[i].0@ == code
                    && s.room_list()[i].1.has_member(y);
            s.lemma_game_index(i);
        }
    }
}

/// A session that is no longer registered, as after `disconnect`, is
/// reached by no text sent to any room.
pub proof fn lemma_disconnected_unreachable<A>(
    s: GameServer<A>,
    id: usize,
    code: Seq<char>,
    sender: usize,
)
    requires
        s.wf(),
        !s.is_registered(id),
    ensures
        !s.room_recipients(code, sender).contains(id),
        !s.in_room(code, id),
{
    lemma_room_recipients(s, code, sender, id);
    if s.in_room(code, id) {
        let i = choose|i: int|
            0 <= i < s.room_list().len() && #[trigger] s.room_list()[i].0@ == code
                && s.room_list()[i].1.has_member(id);
        assert(s.room_list()[i].1.has_member(id));
    }
}

/// The id that a registration hands out differs from every id that was live
/// before it, and all of them stay live with the handles they had. As no
/// other operation adds an id to the registry (each one's contract keeps the
/// registry or removes one id from it), the live ids stay pairwise distinct
/// over any sequence of operations.
pub proof fn lemma_connect_ids_distinct<A>(
    before: GameServer<A>,
    after: GameServer<A>,
    id: usize,
    addr: A,
    other: usize,
)
    requires
        !before.is_registered(id),
        after.registry() == before.registry().insert(id, addr),
        before.is_registered(other),
    ensures
        other != id,
        after.is_registered(other),
        after.registry()[other] == before.registry()[other],
        after.is_registered(id),
        after.registry()[id] == addr,
{
}

/// Once a session has joined the room of code `first`, a code drawn against
/// the room codes listed afterwards differs from `first`: two consecutive
/// room creations never hand out the same code.
pub proof fn lemma_created_codes_differ<A>(
    before: GameServer<A>,
    after: GameServer<A>,
    id: usize,
    first: Seq<char>,
    listed: Seq<Seq<char>>,
    second: Seq<char>,
)
    requires
        before.joined(after, id, first),
        listed == after.codes(),
        !listed.contains(second),
    ensures
        first != second,
{
    if before.has_game(first) {
        assert(after.has_game(first));
    } else {
        assert(after.codes()[after.codes().len() - 1] == first);
    }
}

} // verus!
