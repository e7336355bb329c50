//! The real-time fan-out plane: the wire shapes of the auxiliary
//! connection, the process-local connection registry, and the routing
//! decisions that take a published event to the right connections. The
//! network loops live in the host program; every decision they apply is
//! made here.
use vstd::prelude::*;

use crate::lex::str_eq;
use crate::model::ServerState;

verus! {

/// The kind of a data frame.
#[derive(Clone, Copy, Debug, PartialEq, Eq, Structural)]
pub enum MessageType {
    PrivateMessage,
    GroupMessage,
    UserJoined,
    UserLeft,
    Notification,
    System,
}

/// One data frame of the real-time plane.
#[derive(Debug, Clone)]
pub struct WebSocketMessage {
    pub id: String,
    pub message_type: MessageType,
    pub sender: String,
    pub target: String,
    pub content: String,
    pub timestamp: i64,
}

/// The authentication request: the first and only frame accepted before a
/// session is established.
#[derive(Debug, Clone)]
pub struct AuthMessage {
    pub message_type: String,
    pub session_token: String,
}

/// The authentication answer.
#[derive(Debug, Clone)]
pub struct AuthResponse {
    pub message_type: String,
    pub success: bool,
    pub user_id: Option<String>,
    pub error: Option<String>,
}

/// The broker channel an event of this kind and target is published on.
pub open spec fn channel_of(t: MessageType, target: Seq<char>) -> Seq<char> {
    match t {
        MessageType::PrivateMessage => "private:"@ + target,
        MessageType::GroupMessage => "group:"@ + target,
        _ => "system"@,
    }
}

/// Builds the broker channel name for an event.
pub fn channel_for(t: MessageType, target: &str) -> (r: String)
    ensures
        r@ == channel_of(t, target@),
{
    match t {
        MessageType::PrivateMessage => {
            let mut r = String::from_str("private:");
            r.append(target);
            r
        },
        MessageType::GroupMessage => {
            let mut r = String::from_str("group:");
            r.append(target);
            r
        },
        _ => String::from_str("system"),
    }
}

/// Text free of the two JSON string metacharacters; a session token or an
/// id in its wire form.
pub open spec fn plain_text(s: Seq<char>) -> bool {
    forall|i: int| 0 <= i < s.len() ==> (#[trigger] s[i]) != '"' && s[i] != '\\'
}

/// The authentication frame carrying a token.
pub open spec fn auth_frame_of(token: Seq<char>) -> Seq<char> {
    "{\"message_type\":\"auth\",\"session_token\":\""@ + token + "\"}"@
}

/// Builds the authentication frame for a token.
pub fn render_auth_frame(token: &str) -> (r: String)
    ensures
        r@ == auth_frame_of(token@),
{
    let mut r = String::from_str("{\"message_type\":\"auth\",\"session_token\":\"");
    r.append(token);
    r.append("\"}");
    proof {
        assert(r@ =~= auth_frame_of(token@));
    }
    r
}

/// Takes an authentication frame apart: `Some` holds the token exactly when
/// the frame has the authentication shape around a plain token.
pub fn parse_auth_frame(s: &str) -> (r: Option<String>)
    ensures
        r matches Some(tok) ==> s@ == auth_frame_of(tok@) && plain_text(tok@),
        forall|tok: Seq<char>|
            plain_text(tok) && s@ == #[trigger] auth_frame_of(tok) ==> r is Some && (r matches Some(
                t,
            ) ==> t@ == tok),
{
    proof {
        reveal_strlit("{\"message_type\":\"auth\",\"session_token\":\"");
        reveal_strlit("\"}");
        assert(("{\"message_type\":\"auth\",\"session_token\":\""@).len() == 40);
        assert(("\"}"@).len() == 2);
    }
    let n = s.unicode_len();
    if n < 42 {
        proof {
            assert forall|tok: Seq<char>|
                !(plain_text(tok) && s@ == #[trigger] auth_frame_of(tok)) by {
                if s@ == auth_frame_of(tok) {
                    assert(s@.len() >= 42);
                }
            }
        }
        return None;
    }
    let head = s.substring_char(0, 40);
    if !str_eq(head, "{\"message_type\":\"auth\",\"session_token\":\"") {
        proof {
            assert forall|tok: Seq<char>|
                !(plain_text(tok) && s@ == #[trigger] auth_frame_of(tok)) by {
                if s@ == auth_frame_of(tok) {
                    assert(head@ =~= "{\"message_type\":\"auth\",\"session_token\":\""@);
                }
            }
        }
        return None;
    }
    let tail = s.substring_char(n - 2, n);
    if !str_eq(tail, "\"}") {
        proof {
            assert forall|tok: Seq<char>|
                !(plain_text(tok) && s@ == #[trigger] auth_frame_of(tok)) by {
                if s@ == auth_frame_of(tok) {
                    assert(tail@ =~= "\"}"@);
                }
            }
        }
        return None;
    }
    let mut i: usize = 40;
    while i < n - 2
        invariant
            40 <= i <= n - 2,
            n == s@.len(),
            n >= 42,
            ("{\"message_type\":\"auth\",\"session_token\":\""@).len() == 40,
            ("\"}"@).len() == 2,
            forall|j: int| 40 <= j < i ==> (#[trigger] s@[j]) != '"' && s@[j] != '\\',
        decreases n - i,
    {
        let c = s.get_char(i);
        if c == '"' || c == '\\' {
            proof {
                assert forall|tok: Seq<char>|
                    !(plain_text(tok) && s@ == #[trigger] auth_frame_of(tok)) by {
                    if plain_text(tok) && s@ == auth_frame_of(tok) {
                        assert(s@.len() == 42 + tok.len());
                        assert(s@[i as int] == tok[i - 40]);
                    }
                }
            }
            return None;
        }
        i = i + 1;
    }
    let token = s.substring_char(40, n - 2).to_owned();
    proof {
        assert(s@ =~= s@.subrange(0, 40) + s@.subrange(40, n as int - 2) + s@.subrange(
            n as int - 2,
            n as int,
        ));
        assert(s@.subrange(0, 40) =~= head@);
        assert(s@.subrange(n as int - 2, n as int) =~= tail@);
        assert(s@ == auth_frame_of(token@));
        assert forall|tok: Seq<char>|
            plain_text(tok) && s@ == #[trigger] auth_frame_of(tok) implies token@ == tok by {
            assert(s@.len() == 42 + tok.len());
            assert forall|j: int| 0 <= j < tok.len() implies tok[j] == token@[j] by {
                assert(s@[40 + j] == tok[j]);
            }
            assert(tok =~= token@);
        }
    }
    Some(token)
}

/// The authentication answer in its wire form. A failure carries a reason;
/// a success carries the user id.
pub open spec fn auth_response_of(success: bool, detail: Seq<char>) -> Seq<char> {
    if success {
        "{\"message_type\":\"auth_response\",\"success\":true,\"user_id\":\""@ + detail + "\"}"@
    } else {
        "{\"message_type\":\"auth_response\",\"success\":false,\"error\":\""@ + detail + "\"}"@
    }
}

/// Builds the authentication answer.
pub fn render_auth_response(success: bool, detail: &str) -> (r: String)
    ensures
        r@ == auth_response_of(success, detail@),
{
    if success {
        let mut r = String::from_str(
            "{\"message_type\":\"auth_response\",\"success\":true,\"user_id\":\"",
        );
        r.append(detail);
        r.append("\"}");
        proof {
            assert(r@ =~= auth_response_of(true, detail@));
        }
        r
    } else {
        let mut r = String::from_str(
            "{\"message_type\":\"auth_response\",\"success\":false,\"error\":\"",
        );
        r.append(detail);
        r.append("\"}");
        proof {
            assert(r@ =~= auth_response_of(false, detail@));
        }
        r
    }
}

/// What the plane decides for the one frame received before authentication.
pub enum AuthDecision {
    /// The frame authenticated this user id; answer success and register.
    Accept(String),
    /// The frame was not a well-formed authentication request, or its token
    /// did not resolve; answer the reason and close.
    Reject(String),
}

/// Decides authentication from the first text frame: the frame must have
/// the authentication shape and carry a token that is live at `now`.
pub fn authenticate_frame(state: &ServerState, frame: &str, now: i64) -> (r: AuthDecision)
    requires
        state.wf(),
    ensures
        r matches AuthDecision::Accept(uid) ==> exists|tok: Seq<char>|
            frame@ == #[trigger] auth_frame_of(tok) && crate::model::token_user(
                state.sessions@,
                tok,
                now,
            ) == Some(uid@),
        forall|tok: Seq<char>|
            plain_text(tok) && frame@ == #[trigger] auth_frame_of(tok) && crate::model::live_token(
                state.sessions@,
                tok,
                now,
            ) ==> r is Accept,
{
    match parse_auth_frame(frame) {
        None => AuthDecision::Reject(String::from_str("Invalid authentication message")),
        Some(token) => {
            match state.validate(token.as_str(), now) {
                Some(uid) => AuthDecision::Accept(uid),
                None => AuthDecision::Reject(
                    String::from_str("Invalid or expired session token"),
                ),
            }
        },
    }
}

/// One registered connection.
pub struct ConnEntry {
    pub client_id: String,
    pub user_id: String,
}

/// The process-local connection registry: each client id appears once, and
/// each user holds at most one connection (a new one displaces the old).
pub struct Registry {
    pub entries: Vec<ConnEntry>,
}

/// There is an entry for this user.
pub open spec fn user_connected(entries: Seq<ConnEntry>, uid: Seq<char>) -> bool {
    exists|i: int| 0 <= i < entries.len() && (#[trigger] entries[i].user_id@) == uid
}

/// The client id belongs to this user's registered connection.
pub open spec fn is_client_of(entries: Seq<ConnEntry>, uid: Seq<char>, cid: Seq<char>) -> bool {
    exists|i: int|
        0 <= i < entries.len() && (#[trigger] entries[i].user_id@) == uid
            && entries[i].client_id@ == cid
}

/// The user id stands in the list.
pub open spec fn id_listed(ids: Seq<Seq<char>>, uid: Seq<char>) -> bool {
    exists|i: int| 0 <= i < ids.len() && #[trigger] ids[i] == uid
}

/// The client id is the connection of some group member other than the
/// sender.
pub open spec fn member_client(
    entries: Seq<ConnEntry>,
    ids: Seq<Seq<char>>,
    sender: Seq<char>,
    cid: Seq<char>,
) -> bool {
    exists|a: int|
        0 <= a < entries.len() && (#[trigger] entries[a].client_id@) == cid
            && entries[a].user_id@ != sender && id_listed(ids, entries[a].user_id@)
}

/// Decides `id_listed`.
fn contains_id(ids: &Vec<String>, uid: &str) -> (r: bool)
    ensures
        r == id_listed(crate::crypto::views_of(ids@), uid@),
{
    let ghost iv = crate::crypto::views_of(ids@);
    let mut i: usize = 0;
    while i < ids.len()
        invariant
            0 <= i <= ids@.len(),
            iv == crate::crypto::views_of(ids@),
            forall|j: int| 0 <= j < i ==> (#[trigger] iv[j]) != uid@,
        decreases ids@.len() - i,
    {
        if str_eq(ids[i].as_str(), uid) {
            proof {
                assert(iv[i as int] == uid@);
            }
            return true;
        }
        i = i + 1;
    }
    false
}

impl Registry {
    /// Each user appears at most once.
    pub open spec fn wf(self) -> bool {
        forall|i: int, j: int|
            0 <= i < j < self.entries@.len() ==> (#[trigger] self.entries@[i].user_id@) != (
            #[trigger] self.entries@[j].user_id@)
    }

    /// The empty registry.
    pub fn new() -> (r: Registry)
        ensures
            r.wf(),
            r.entries@.len() == 0,
    {
        Registry { entries: Vec::new() }
    }

    /// Registers a connection; an existing connection of the same user is
    /// displaced.
    pub fn add_connection(&mut self, client_id: String, user_id: String)
        requires
            old(self).wf(),
        ensures
            final(self).wf(),
            user_connected(final(self).entries@, user_id@),
            final(self).entries@.last().user_id@ == user_id@,
            final(self).entries@.last().client_id@ == client_id@,
            forall|u: Seq<char>|
                user_connected(final(self).entries@, u) <==> (user_connected(
                    old(self).entries@,
                    u,
                ) || u == user_id@),
    {
        let mut keep: Vec<ConnEntry> = Vec::new();
        let ghost full = self.entries@;
        let mut i: usize = 0;
        while i < self.entries.len()
            invariant
                0 <= i <= self.entries@.len(),
                full == self.entries@,
                old(self).wf(),
                forall|a: int, b: int|
                    0 <= a < b < keep@.len() ==> (#[trigger] keep@[a].user_id@) != (
                    #[trigger] keep@[b].user_id@),
                forall|a: int|
                    0 <= a < keep@.len() ==> (#[trigger] keep@[a].user_id@) != user_id@,
                forall|a: int|
                    0 <= a < keep@.len() ==> exists|j: int|
                        0 <= j < i && (#[trigger] keep@[a]) == full[j],
                forall|j: int|
                    0 <= j < i && (#[trigger] full[j].user_id@) != user_id@ ==> exists|a: int|
                        0 <= a < keep@.len() && (#[trigger] keep@[a].user_id@) == full[j].user_id@,
            decreases self.entries@.len() - i,
        {
            if !str_eq(self.entries[i].user_id.as_str(), user_id.as_str()) {
                let e = ConnEntry {
                    client_id: self.entries[i].client_id.clone(),
                    user_id: self.entries[i].user_id.clone(),
                };
                let ghost pre = keep@;
                keep.push(e);
                proof {
                    assert(keep@.last() == full[i as int]);
                    assert forall|a: int| 0 <= a < keep@.len() implies exists|j: int|
                        0 <= j < i + 1 && (#[trigger] keep@[a]) == full[j] by {
                        if a < pre.len() {
                            assert(keep@[a] == pre[a]);
                            let j = choose|j: int|
                                0 <= j < i && #[trigger] pre[a] == full[j];
                            assert(keep@[a] == full[j]);
                        } else {
                            assert(keep@[a] == full[i as int]);
                        }
                    }
                    assert forall|a: int, b: int| 0 <= a < b < keep@.len() implies (
                    #[trigger] keep@[a].user_id@) != (#[trigger] keep@[b].user_id@) by {
                        if b == keep@.len() - 1 {
                            assert(keep@[a] == pre[a]);
                            let j = choose|j: int|
                                0 <= j < i && #[trigger] pre[a] == full[j];
                            assert(full[j].user_id@ != full[i as int].user_id@);
                        }
                    }
                    assert forall|j: int|
                        0 <= j < i + 1 && (#[trigger] full[j].user_id@) != user_id@ implies exists|a: int|
                        0 <= a < keep@.len() && (#[trigger] keep@[a].user_id@)
                            == full[j].user_id@ by {
                        if j < i {
                            let a = choose|a: int|
                                0 <= a < pre.len() && (#[trigger] pre[a].user_id@)
                                    == full[j].user_id@;
                            assert(keep@[a].user_id@ == full[j].user_id@);
                        } else {
                            assert(keep@[keep@.len() - 1].user_id@ == full[j].user_id@);
                        }
                    }
                }
            } else {
                proof {
                    assert forall|j: int|
                        0 <= j < i + 1 && (#[trigger] full[j].user_id@) != user_id@ implies exists|a: int|
                        0 <= a < keep@.len() && (#[trigger] keep@[a].user_id@)
                            == full[j].user_id@ by {
                        if j < i {
                            let a = choose|a: int|
                                0 <= a < keep@.len() && (#[trigger] keep@[a].user_id@)
                                    == full[j].user_id@;
                        }
                    }
                }
            }
            i = i + 1;
        }
        let ghost kept = keep@;
        keep.push(ConnEntry { client_id, user_id });
        self.entries = keep;
        proof {
            let ne = self.entries@;
            assert(ne =~= kept.push(ne.last()));
            assert(ne.last().user_id@ == user_id@);
            assert forall|u: Seq<char>| user_connected(ne, u) implies (user_connected(full, u)
                || u == user_id@) by {
                let a = choose|a: int| 0 <= a < ne.len() && (#[trigger] ne[a].user_id@) == u;
                if a < ne.len() - 1 {
                    assert(ne[a] == kept[a]);
                    assert(kept[a].user_id@ == u);
                    let j = choose|j: int|
                        0 <= j < full.len() && #[trigger] kept[a] == full[j];
                    assert(full[j].user_id@ == u);
                }
            }
            assert forall|u: Seq<char>| (user_connected(full, u) || u == user_id@) implies
                user_connected(ne, u) by {
                if u == user_id@ {
                    assert(ne.last().user_id@ == u);
                } else if user_connected(full, u) {
                    let j = choose|j: int|
                        0 <= j < full.len() && (#[trigger] full[j].user_id@) == u;
                    let a = choose|a: int|
                        0 <= a < kept.len() && (#[trigger] kept[a].user_id@) == u;
                    assert(ne[a].user_id@ == u);
                }
            }
        }
    }

    /// Removes the connection with this client id, if present; every other
    /// connection survives.
    pub fn remove_connection(&mut self, client_id: &str)
        requires
            old(self).wf(),
        ensures
            final(self).wf(),
            forall|a: int|
                0 <= a < final(self).entries@.len() ==> (#[trigger] final(self).entries@[a].client_id@) != client_id@,
            forall|j: int|
                0 <= j < old(self).entries@.len() && (#[trigger] old(self).entries@[j].client_id@)
                    != client_id@ ==> exists|a: int|
                    0 <= a < final(self).entries@.len() && final(self).entries@[a] == old(
                        self,
                    ).entries@[j],
    {
        let mut keep: Vec<ConnEntry> = Vec::new();
        let ghost full = self.entries@;
        let mut i: usize = 0;
        while i < self.entries.len()
            invariant
                0 <= i <= self.entries@.len(),
                full == self.entries@,
                old(self).wf(),
                forall|a: int, b: int|
                    0 <= a < b < keep@.len() ==> (#[trigger] keep@[a].user_id@) != (
                    #[trigger] keep@[b].user_id@),
                forall|a: int|
                    0 <= a < keep@.len() ==> (#[trigger] keep@[a].client_id@) != client_id@,
                forall|a: int|
                    0 <= a < keep@.len() ==> exists|j: int|
                        0 <= j < i && (#[trigger] keep@[a]) == full[j],
                forall|j: int|
                    0 <= j < i && (#[trigger] full[j].client_id@) != client_id@ ==> exists|a: int|
                        0 <= a < keep@.len() && (#[trigger] keep@[a]) == full[j],
            decreases self.entries@.len() - i,
        {
            if !str_eq(self.entries[i].client_id.as_str(), client_id) {
                let e = ConnEntry {
                    client_id: self.entries[i].client_id.clone(),
                    user_id: self.entries[i].user_id.clone(),
                };
                let ghost pre = keep@;
                keep.push(e);
                proof {
                    assert(keep@.last() == full[i as int]);
                    assert forall|a: int| 0 <= a < keep@.len() implies exists|j: int|
                        0 <= j < i + 1 && (#[trigger] keep@[a]) == full[j] by {
                        if a < pre.len() {
                            assert(keep@[a] == pre[a]);
                            let j = choose|j: int|
                                0 <= j < i && #[trigger] pre[a] == full[j];
                            assert(keep@[a] == full[j]);
                        } else {
                            assert(keep@[a] == full[i as int]);
                        }
                    }
                    assert forall|a: int, b: int| 0 <= a < b < keep@.len() implies (
                    #[trigger] keep@[a].user_id@) != (#[trigger] keep@[b].user_id@) by {
                        if b == keep@.len() - 1 {
                            assert(keep@[a] == pre[a]);
                            let j = choose|j: int|
                                0 <= j < i && #[trigger] pre[a] == full[j];
                            assert(full[j].user_id@ != full[i as int].user_id@);
                        }
                    }
                    assert forall|j: int|
                        0 <= j < i + 1 && (#[trigger] full[j].client_id@) != client_id@
                        implies exists|a: int|
                        0 <= a < keep@.len() && (#[trigger] keep@[a]) == full[j] by {
                        if j < i {
                            let a = choose|a: int|
                                0 <= a < pre.len() && (#[trigger] pre[a]) == full[j];
                            assert(keep@[a] == full[j]);
                        } else {
                            assert(keep@[keep@.len() - 1] == full[j]);
                        }
                    }
                }
            }
            i = i + 1;
        }
        let ghost kept = keep@;
        self.entries = keep;
        proof {
            assert forall|j: int|
                0 <= j < full.len() && (#[trigger] full[j].client_id@) != client_id@
                implies exists|a: int|
                0 <= a < self.entries@.len() && self.entries@[a] == full[j] by {
                let a = choose|a: int| 0 <= a < kept.len() && (#[trigger] kept[a]) == full[j];
                assert(self.entries@[a] == full[j]);
            }
        }
    }

    /// The client id of a user's connection, if one is registered: the
    /// returned id is that user's own entry.
    pub fn client_of(&self, user_id: &str) -> (r: Option<String>)
        ensures
            r is Some <==> user_connected(self.entries@, user_id@),
            r matches Some(cid) ==> is_client_of(self.entries@, user_id@, cid@),
    {
        let mut i: usize = 0;
        while i < self.entries.len()
            invariant
                0 <= i <= self.entries@.len(),
                forall|j: int| 0 <= j < i ==> (#[trigger] self.entries@[j].user_id@) != user_id@,
            decreases self.entries@.len() - i,
        {
            if str_eq(self.entries[i].user_id.as_str(), user_id) {
                return Some(self.entries[i].client_id.clone());
            }
            i = i + 1;
        }
        None
    }

    /// The client ids an incoming event is delivered to, in registry order:
    /// a private message reaches exactly its target user's connection; a
    /// group message reaches exactly the connections of the group's members
    /// other than the sender; notifications and system events reach
    /// everyone.
    pub fn route_incoming(
        &self,
        t: MessageType,
        sender: &str,
        target: &str,
        members: &Vec<String>,
    ) -> (r: Vec<String>)
        ensures
            t is PrivateMessage ==> (r@.len() <= 1 && (r@.len() == 1 <==> user_connected(
                self.entries@,
                target@,
            )) && forall|k: int|
                0 <= k < r@.len() ==> is_client_of(self.entries@, target@, (#[trigger] r@[k])@)),
            t is GroupMessage ==> ({
                let ids = crate::crypto::views_of(members@);
                &&& (forall|a: int|
                    0 <= a < self.entries@.len() && (#[trigger] self.entries@[a].user_id@)
                        != sender@ && id_listed(ids, self.entries@[a].user_id@) ==> exists|k: int|
                        0 <= k < r@.len() && (#[trigger] r@[k])@ == self.entries@[a].client_id@)
                &&& (forall|k: int|
                    0 <= k < r@.len() ==> member_client(
                        self.entries@,
                        ids,
                        sender@,
                        (#[trigger] r@[k])@,
                    ))
            }),
            (t is Notification || t is System) ==> r@.len() == self.entries@.len(),
    {
        let mut out: Vec<String> = Vec::new();
        match t {
            MessageType::PrivateMessage => {
                match self.client_of(target) {
                    Some(cid) => {
                        out.push(cid);
                    },
                    None => {},
                }
            },
            MessageType::GroupMessage => {
                let ghost ids = crate::crypto::views_of(members@);
                let mut i: usize = 0;
                while i < self.entries.len()
                    invariant
                        0 <= i <= self.entries@.len(),
                        ids == crate::crypto::views_of(members@),
                        forall|a: int|
                            0 <= a < i && (#[trigger] self.entries@[a].user_id@) != sender@
                                && id_listed(ids, self.entries@[a].user_id@) ==> exists|k: int|
                                0 <= k < out@.len() && (#[trigger] out@[k])@
                                    == self.entries@[a].client_id@,
                        forall|k: int|
                            0 <= k < out@.len() ==> member_client(
                                self.entries@,
                                ids,
                                sender@,
                                (#[trigger] out@[k])@,
                            ),
                    decreases self.entries@.len() - i,
                {
                    let not_sender = !str_eq(self.entries[i].user_id.as_str(), sender);
                    let in_group = contains_id(members, self.entries[i].user_id.as_str());
                    if not_sender && in_group {
                        let ghost pre = out@;
                        out.push(self.entries[i].client_id.clone());
                        proof {
                            assert(out@.last()@ == self.entries@[i as int].client_id@);
                            assert forall|a: int|
                                0 <= a < i + 1 && (#[trigger] self.entries@[a].user_id@)
                                    != sender@ && id_listed(ids, self.entries@[a].user_id@)
                                implies exists|k: int|
                                0 <= k < out@.len() && (#[trigger] out@[k])@
                                    == self.entries@[a].client_id@ by {
                                if a < i as int {
                                    let k = choose|k: int|
                                        0 <= k < pre.len() && (#[trigger] pre[k])@
                                            == self.entries@[a].client_id@;
                                    assert(out@[k]@ == self.entries@[a].client_id@);
                                } else {
                                    assert(out@[out@.len() - 1]@
                                        == self.entries@[a].client_id@);
                                }
                            }
                            assert forall|k: int| 0 <= k < out@.len() implies member_client(
                                self.entries@,
                                ids,
                                sender@,
                                (#[trigger] out@[k])@,
                            ) by {
                                if k < pre.len() {
                                    assert(out@[k] == pre[k]);
                                } else {
                                    assert(out@[k]@ == self.entries@[i as int].client_id@);
                                    assert(self.entries@[i as int].user_id@ != sender@);
                                    assert(id_listed(ids, self.entries@[i as int].user_id@));
                                }
                            }
                        }
                    } else {
                        proof {
                            assert(self.entries@[i as int].user_id@ == sender@ || !id_listed(
                                ids,
                                self.entries@[i as int].user_id@,
                            ));
                        }
                    }
                    i = i + 1;
                }
            },
            _ => {
                let mut i: usize = 0;
                while i < self.entries.len()
                    invariant
                        0 <= i <= self.entries@.len(),
                        out@.len() == i,
                    decreases self.entries@.len() - i,
                {
                    out.push(self.entries[i].client_id.clone());
                    i = i + 1;
                }
            },
        }
        out
    }
}

} // verus!
