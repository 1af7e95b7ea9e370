//! The per-connection session: the decisions of a connection handler, as
//! transitions from its state and an event to its next state and an action
//! for the transport layer to carry out.

use vstd::prelude::*;
use vstd::string::*;

use crate::command::{is_trim_of, parse_command, parse_spec, trim_text, Command, CommandView};
use crate::game_server::{CheckGameExists, ClientMessage, Disconnect, GameServer, Join, ListGames};
use crate::ids::{codes_of, fresh_game_id, holds_no_game_code, is_game_code};
use crate::GameId;

verus! {

/// How often, in milliseconds, the client is probed.
pub const HEARTBEAT_INTERVAL_MS: u64 = 5000;

/// How long, in milliseconds, a client may stay silent before it is dropped.
pub const CLIENT_TIMEOUT_MS: u64 = 30000;

/// Where a session stands.
#[derive(Debug, PartialEq, Eq, Structural)]
pub enum Phase {
    /// Waiting for the broker to assign an id
    Connecting,
    /// Registered; commands and text are handled
    Active,
    /// Gone; nothing more is handled
    Closed,
}

/// What the transport layer does next for a session.
pub enum Action {
    /// Nothing.
    Nothing,
    /// Write this text to the client.
    Reply(String),
    /// Ask the broker whether the room exists, and hand the answer to
    /// `join_checked`.
    CheckGame(CheckGameExists),
    /// Ask the broker for the room codes, and hand them to `games_listed`.
    ListGames(ListGames),
    /// Send this text to the broker for relay.
    Forward(ClientMessage),
    /// Send this join to the broker, then write the text to the client.
    JoinRoom(Join, String),
    /// Send a liveness probe to the client.
    Ping,
    /// Tell the broker the session is gone, and close the transport.
    Close(Disconnect),
}

/// The text `r` of a reply, if the action is one.
pub open spec fn reply_of(a: Action) -> Option<Seq<char>> {
    match a {
        Action::Reply(t) => Some(t@),
        _ => None,
    }
}

/// The room code of a join, if the action is one.
pub open spec fn joined_code(a: Action) -> Option<Seq<char>> {
    match a {
        Action::JoinRoom(j, _) => Some(j.game_id@),
        _ => None,
    }
}

/// What a session sends for plain text `m`: `m`, after its name and ": "
/// if it has one.
pub open spec fn relayed_text(name: Option<Seq<char>>, m: Seq<char>) -> Seq<char> {
    match name {
        Some(n) => n + ": "@ + m,
        None => m,
    }
}

/// How a session goes from `pre` to `post`, answering with `r`, on line `m`
/// (already trimmed) at time `now`. A session that is not active ignores
/// the line; an active one takes it as a sign of life and acts on the
/// command it holds.
pub open spec fn handles_line(
    pre: WsGameSession,
    post: WsGameSession,
    m: Seq<char>,
    now: u64,
    r: Action,
) -> bool {
    if pre.phase != Phase::Active {
        r is Nothing && post == pre
    } else {
        &&& post.hb == now
        &&& post.id == pre.id
        &&& post.game_id == pre.game_id
        &&& post.phase == pre.phase
        &&& match parse_spec(m) {
            CommandView::Text => (r matches Action::Forward(cm) && cm.id == pre.id && cm.msg@
                == relayed_text(pre.name_view(), m) && cm.game_id == pre.game_id) && post.name
                == pre.name,
            CommandView::Join(None) => reply_of(r) == Some("!!! room name is required"@)
                && post.name == pre.name,
            CommandView::Join(Some(a)) => (r matches Action::CheckGame(q) && q.game_id@ == a)
                && post.name == pre.name,
            CommandView::Name(None) => reply_of(r) == Some("!!! name is required"@) && post.name
                == pre.name,
            CommandView::Name(Some(a)) => r is Nothing && post.name_view() == Some(a),
            CommandView::Create => r is ListGames && post.name == pre.name,
            CommandView::Ready => r is Nothing && post.name == pre.name,
            CommandView::Unknown => reply_of(r) == Some("!!! unknown command: "@ + m) && post.name
                == pre.name,
        }
    }
}

/// How a session goes from `pre` to `post`, answering with `r`, when the
/// broker says whether room `code` exists: if it does, the session takes it
/// as its room and joins it, with "Joined" for the client; if not, the
/// session clears its room and answers "No such room", and joins nothing.
pub open spec fn answers_join(
    pre: WsGameSession,
    post: WsGameSession,
    code: Seq<char>,
    exists: bool,
    r: Action,
) -> bool {
    &&& post.id == pre.id
    &&& post.hb == pre.hb
    &&& post.name == pre.name
    &&& post.phase == pre.phase
    &&& exists ==> post.room_view() == Some(code) && (r matches Action::JoinRoom(j, t) && j.id
        == pre.id && j.game_id@ == code && t@ == "Joined"@)
    &&& !exists ==> post.game_id is None && reply_of(r) == Some("No such room"@)
}

/// A `/join` to a code that names no room is answered "No such room", and
/// the session sends the broker no join, so its membership stays as it was.
pub proof fn lemma_join_unknown_room<A>(
    broker: GameServer<A>,
    pre: WsGameSession,
    post: WsGameSession,
    code: Seq<char>,
    r: Action,
)
    requires
        !broker.has_game(code),
        answers_join(pre, post, code, broker.has_game(code), r),
    ensures
        reply_of(r) == Some("No such room"@),
        joined_code(r) is None,
{
}

/// A session whose last sign of life came at `t0` or before has timed out at
/// any time past `t0 + CLIENT_TIMEOUT_MS`, so the first heartbeat tick after
/// that, at most `HEARTBEAT_INTERVAL_MS` later, closes it and reports it to
/// the broker (see `heartbeat`), whether or not the client ever closes the
/// transport.
pub proof fn lemma_silent_session_times_out(s: WsGameSession, t0: u64, now: u64)
    requires
        s.hb <= t0,
        now > t0 + CLIENT_TIMEOUT_MS,
    ensures
        s.timed_out(now),
{
}

/// The state of one connection.
#[derive(Debug)]
pub struct WsGameSession {
    /// Id assigned by the broker
    pub id: usize,
    /// When the client last gave a sign of life, in milliseconds
    pub hb: u64,
    /// The room this session believes it is in
    pub game_id: Option<GameId>,
    /// Display name, set by `/name`
    pub name: Option<String>,
    pub phase: Phase,
}

impl WsGameSession {
    pub open spec fn room_view(&self) -> Option<Seq<char>> {
        match self.game_id {
            Some(g) => Some(g@),
            None => None,
        }
    }

    pub open spec fn name_view(&self) -> Option<Seq<char>> {
        match self.name {
            Some(n) => Some(n@),
            None => None,
        }
    }

    /// The client has been silent for longer than the timeout at time `now`.
    pub open spec fn timed_out(&self, now: u64) -> bool {
        now > self.hb && now - self.hb > CLIENT_TIMEOUT_MS
    }

    /// The same session in every field but the sign of life.
    pub open spec fn same_but_hb(&self, o: &WsGameSession) -> bool {
        &&& self.id == o.id
        &&& self.game_id == o.game_id
        &&& self.name == o.name
        &&& self.phase == o.phase
    }

    /// A session whose transport opened at time `now`: no id, room or name yet.
    pub fn new(now: u64) -> (s: Self)
        ensures
            s.id == 0,
            s.hb == now,
            s.game_id is None,
            s.name is None,
            s.phase == Phase::Connecting,
    {
        WsGameSession { id: 0, hb: now, game_id: None, name: None, phase: Phase::Connecting }
    }

    /// The broker's answer to the registration: an id makes the session
    /// active, none closes it.
    pub fn connected(&mut self, res: Option<usize>)
        requires
            old(self).phase == Phase::Connecting,
        ensures
            final(self).hb == old(self).hb,
            final(self).game_id == old(self).game_id,
            final(self).name == old(self).name,
            match res {
                Some(id) => final(self).id == id && final(self).phase == Phase::Active,
                None => final(self).id == old(self).id && final(self).phase == Phase::Closed,
            },
    {
        match res {
            Some(id) => {
                self.id = id;
                self.phase = Phase::Active;
            },
            None => {
                self.phase = Phase::Closed;
            },
        }
    }

    /// A sign of life from the client (a ping or a pong) at time `now`.
    pub fn touch(&mut self, now: u64)
        ensures
            final(self).hb == now,
            final(self).same_but_hb(old(self)),
    {
        self.hb = now;
    }

    /// The heartbeat timer fires at time `now`: an active session that has
    /// been silent for longer than the timeout is closed and reported to the
    /// broker; another active one probes its client.
    pub fn heartbeat(&mut self, now: u64) -> (r: Action)
        ensures
            old(self).phase == Phase::Active && old(self).timed_out(now) ==> (r matches Action::Close(
                d,
            ) && d.id == old(self).id) && final(self).phase == Phase::Closed,
            old(self).phase == Phase::Active && !old(self).timed_out(now) ==> r is Ping
                && final(self).phase == Phase::Active,
            old(self).phase != Phase::Active ==> r is Nothing && final(self).phase == old(
                self,
            ).phase,
            final(self).id == old(self).id,
            final(self).hb == old(self).hb,
            final(self).game_id == old(self).game_id,
            final(self).name == old(self).name,
    {
        if self.phase != Phase::Active {
            return Action::Nothing;
        }
        if now > self.hb && now - self.hb > CLIENT_TIMEOUT_MS {
            self.phase = Phase::Closed;
            Action::Close(Disconnect { id: self.id })
        } else {
            Action::Ping
        }
    }

    /// The transport closes: an active session is reported to the broker.
    pub fn stopping(&mut self) -> (r: Option<Disconnect>)
        ensures
            final(self).phase == Phase::Closed,
            old(self).phase == Phase::Active ==> (r matches Some(d) && d.id == old(self).id),
            old(self).phase != Phase::Active ==> r is None,
            final(self).id == old(self).id,
    {
        let r = if self.phase == Phase::Active {
            Some(Disconnect { id: self.id })
        } else {
            None
        };
        self.phase = Phase::Closed;
        r
    }

    /// A text frame `m`, already trimmed, arrives at time `now`.
    pub fn handle_line(&mut self, m: &str, now: u64) -> (r: Action)
        ensures
            handles_line(*old(self), *final(self), m@, now, r),
    {
        if self.phase != Phase::Active {
            return Action::Nothing;
        }
        self.hb = now;
        match parse_command(m) {
            Command::Text => {
                let msg = match &self.name {
                    Some(n) => {
                        let mut t = n.clone();
                        t.append(": ");
                        t.append(m);
                        t
                    },
                    None => m.to_owned(),
                };
                let game_id = match &self.game_id {
                    Some(g) => Some(g.clone()),
                    None => None,
                };
                Action::Forward(ClientMessage { id: self.id, msg, game_id })
            },
            Command::Join(None) => Action::Reply("!!! room name is required".to_owned()),
            Command::Join(Some(g)) => Action::CheckGame(CheckGameExists { game_id: g }),
            Command::Name(None) => Action::Reply("!!! name is required".to_owned()),
            Command::Name(Some(n)) => {
                self.name = Some(n);
                Action::Nothing
            },
            Command::Create => Action::ListGames(ListGames {}),
            Command::Ready => Action::Nothing,
            Command::Unknown => {
                let mut t = "!!! unknown command: ".to_owned();
                t.append(m);
                Action::Reply(t)
            },
        }
    }

    /// A text frame arrives at time `now`; it is read without its leading
    /// and trailing whitespace.
    pub fn handle_text(&mut self, text: &str, now: u64) -> (r: Action)
        ensures
            exists|m: Seq<char>|
                #[trigger] is_trim_of(m, text@) && handles_line(*old(self), *final(self), m, now, r),
    {
        let line = trim_text(text);
        let r = self.handle_line(line, now);
        assert(is_trim_of(line@, text@) && handles_line(*old(self), *self, line@, now, r));
        r
    }

    /// The broker's answer to `/join`: whether room `game_id` exists. If it
    /// does, the session takes it as its room and asks the broker to join
    /// it; if not, the session clears its room and tells the client.
    pub fn join_checked(&mut self, game_id: GameId, exists: bool) -> (r: Action)
        ensures
            answers_join(*old(self), *final(self), game_id@, exists, r),
    {
        if exists {
            self.game_id = Some(game_id.clone());
            Action::JoinRoom(Join { id: self.id, game_id }, "Joined".to_owned())
        } else {
            self.game_id = None;
            Action::Reply("No such room".to_owned())
        }
    }

    /// A room code was chosen for `/create`: the session takes it as its
    /// room, asks the broker to join it, and redirects the client to it.
    pub fn room_created(&mut self, code: GameId) -> (r: Action)
        ensures
            final(self).id == old(self).id,
            final(self).hb == old(self).hb,
            final(self).name == old(self).name,
            final(self).phase == old(self).phase,
            final(self).room_view() == Some(code@),
            r matches Action::JoinRoom(j, t) && j.id == old(self).id && j.game_id@ == code@ && t@
                == "/redirect"@ + code@,
    {
        self.game_id = Some(code.clone());
        let mut t = "/redirect".to_owned();
        t.append(code.as_str());
        Action::JoinRoom(Join { id: self.id, game_id: code }, t)
    }

    /// The broker's answer to `/create`: the codes of the existing rooms. A
    /// fresh code is drawn and the room created as `room_created` says; if
    /// no fresh code came up, the client is told and nothing changes. That
    /// cannot happen when no listed code is well formed (no rooms, say).
    pub fn games_listed(&mut self, existing: &Vec<GameId>) -> (r: Action)
        ensures
            final(self).id == old(self).id,
            final(self).hb == old(self).hb,
            final(self).name == old(self).name,
            final(self).phase == old(self).phase,
            match joined_code(r) {
                Some(c) => is_game_code(c) && !codes_of(existing@).contains(c)
                    && final(self).room_view() == Some(c) && (r matches Action::JoinRoom(j, t)
                    && j.id == old(self).id && t@ == "/redirect"@ + c),
                None => reply_of(r) == Some("!!! could not create a room"@) && final(self).game_id
                    == old(self).game_id,
            },
            holds_no_game_code(codes_of(existing@)) ==> joined_code(r) is Some,
    {
        match fresh_game_id(existing) {
            Some(code) => self.room_created(code),
            None => Action::Reply("!!! could not create a room".to_owned()),
        }
    }

}

} // verus!
