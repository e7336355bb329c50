//! The persistent state of the chat server: users, credentials, sessions,
//! session events, friend requests, groups, memberships, invites and
//! encrypted messages, together with the well-formedness invariant that all
//! operations preserve.
use vstd::prelude::*;

use crate::textnum::dec_digits;

verus! {

/// Outcome taxonomy surfaced to clients as `ERR: <reason>`.
#[derive(Clone, Copy, Debug, PartialEq, Eq, Structural)]
pub enum ServiceError {
    InvalidSession,
    UsernameTaken,
    WeakCredential,
    InvalidCredential,
    UserNotFound,
    GroupNotFound,
    NotAMember,
    MessageTooLong,
    AlreadyPending,
    AlreadyFriends,
    AlreadyMember,
    SelfNotAllowed,
    NoSuchRequest,
    DecryptionFailed,
    StoreUnavailable,
    Unknown,
}

/// State of a friend request or a group invite; terminal once resolved.
#[derive(Clone, Copy, Debug, PartialEq, Eq, Structural)]
pub enum RequestStatus {
    Pending,
    Accepted,
    Rejected,
}

/// Kind of an entry in the append-only session event log.
#[derive(Clone, Copy, Debug, PartialEq, Eq, Structural)]
pub enum SessionEventKind {
    Login,
    Logout,
    Expired,
}

pub struct UserRow {
    pub idnum: u64,
    pub id: String,
    pub username: String,
    pub is_online: bool,
}

pub struct CredRow {
    pub user_id: String,
    pub salt: Vec<u8>,
    pub pass_hash: Vec<u8>,
}

pub struct SessionRow {
    pub token: String,
    pub user_id: String,
    pub created_at: i64,
    pub expires_at: i64,
}

pub struct SessionEventRow {
    pub id: u64,
    pub user_id: String,
    pub kind: SessionEventKind,
    pub created_at: i64,
}

pub struct FriendRequestRow {
    pub from_user_id: String,
    pub to_user_id: String,
    pub message: String,
    pub status: RequestStatus,
    pub created_at: i64,
}

pub struct GroupRow {
    pub idnum: u64,
    pub id: String,
    pub name: String,
    pub created_by: String,
    pub created_at: i64,
}

pub struct MemberRow {
    pub group_id: String,
    pub user_id: String,
    pub joined_at: i64,
}

pub struct InviteRow {
    pub id: u64,
    pub group_id: String,
    pub from_user_id: String,
    pub to_user_id: String,
    pub status: RequestStatus,
    pub created_at: i64,
}

pub struct MessageRow {
    pub id: u64,
    pub chat_id: String,
    pub sender_id: String,
    pub body: String,
    pub sent_at: i64,
}

/// The whole store. Counters supply fresh identifiers.
pub struct ServerState {
    pub users: Vec<UserRow>,
    pub creds: Vec<CredRow>,
    pub sessions: Vec<SessionRow>,
    pub session_events: Vec<SessionEventRow>,
    pub friend_requests: Vec<FriendRequestRow>,
    pub groups: Vec<GroupRow>,
    pub members: Vec<MemberRow>,
    pub invites: Vec<InviteRow>,
    pub messages: Vec<MessageRow>,
    pub next_user: u64,
    pub next_group: u64,
    pub next_invite: u64,
    pub next_message: u64,
    pub next_event: u64,
}

/// The id string assigned to the `k`-th registered user.
pub open spec fn uid_str(k: nat) -> Seq<char> {
    seq!['u'] + dec_digits(k)
}

/// The id string assigned to the `k`-th created group.
pub open spec fn gid_str(k: nat) -> Seq<char> {
    seq!['g'] + dec_digits(k)
}

/// There is a user row carrying this username.
pub open spec fn user_named(users: Seq<UserRow>, name: Seq<char>) -> bool {
    exists|i: int| 0 <= i < users.len() && #[trigger] users[i].username@ == name
}

/// There is a user row carrying this id.
pub open spec fn user_with_id(users: Seq<UserRow>, id: Seq<char>) -> bool {
    exists|i: int| 0 <= i < users.len() && #[trigger] users[i].id@ == id
}

/// Index of the user row carrying this username.
pub open spec fn user_index_named(users: Seq<UserRow>, name: Seq<char>) -> int {
    choose|i: int| 0 <= i < users.len() && #[trigger] users[i].username@ == name
}

/// Index of the user row carrying this id.
pub open spec fn user_index_with_id(users: Seq<UserRow>, id: Seq<char>) -> int {
    choose|i: int| 0 <= i < users.len() && #[trigger] users[i].id@ == id
}

/// There is a group row carrying this id.
pub open spec fn group_with_id(groups: Seq<GroupRow>, id: Seq<char>) -> bool {
    exists|i: int| 0 <= i < groups.len() && #[trigger] groups[i].id@ == id
}

/// Index of the group row carrying this id.
pub open spec fn group_index_with_id(groups: Seq<GroupRow>, id: Seq<char>) -> int {
    choose|i: int| 0 <= i < groups.len() && #[trigger] groups[i].id@ == id
}

/// The user belongs to the group.
pub open spec fn is_member(members: Seq<MemberRow>, group_id: Seq<char>, user_id: Seq<char>) -> bool {
    exists|i: int| 0 <= i < members.len() && #[trigger] members[i].group_id@ == group_id
        && members[i].user_id@ == user_id
}

/// There is a session row with this token, live at `now`.
pub open spec fn live_token(sessions: Seq<SessionRow>, token: Seq<char>, now: i64) -> bool {
    exists|i: int| 0 <= i < sessions.len() && #[trigger] sessions[i].token@ == token
        && sessions[i].expires_at > now
}

/// There is a session row with this token, live or not.
pub open spec fn token_present(sessions: Seq<SessionRow>, token: Seq<char>) -> bool {
    exists|i: int| 0 <= i < sessions.len() && #[trigger] sessions[i].token@ == token
}

/// Index of the session row with this token.
pub open spec fn session_index_with_token(sessions: Seq<SessionRow>, token: Seq<char>) -> int {
    choose|i: int| 0 <= i < sessions.len() && #[trigger] sessions[i].token@ == token
}

/// The user id a live token resolves to at `now`, if any.
pub open spec fn token_user(sessions: Seq<SessionRow>, token: Seq<char>, now: i64) -> Option<
    Seq<char>,
> {
    if live_token(sessions, token, now) {
        Some(sessions[session_index_with_token(sessions, token)].user_id@)
    } else {
        None
    }
}

/// There is a pending friend request for this ordered pair.
pub open spec fn pending_request(
    reqs: Seq<FriendRequestRow>,
    from: Seq<char>,
    to: Seq<char>,
) -> bool {
    exists|i: int| 0 <= i < reqs.len() && #[trigger] reqs[i].from_user_id@ == from
        && reqs[i].to_user_id@ == to && reqs[i].status == RequestStatus::Pending
}

/// The two users are friends: an accepted request in either direction.
pub open spec fn are_friends(reqs: Seq<FriendRequestRow>, a: Seq<char>, b: Seq<char>) -> bool {
    exists|i: int| 0 <= i < reqs.len() && #[trigger] reqs[i].status == RequestStatus::Accepted
        && ((reqs[i].from_user_id@ == a && reqs[i].to_user_id@ == b) || (reqs[i].from_user_id@ == b
        && reqs[i].to_user_id@ == a))
}

/// There is a pending invite for this (group, invitee) pair.
pub open spec fn pending_invite(
    invites: Seq<InviteRow>,
    group_id: Seq<char>,
    to: Seq<char>,
) -> bool {
    exists|i: int| 0 <= i < invites.len() && #[trigger] invites[i].group_id@ == group_id
        && invites[i].to_user_id@ == to && invites[i].status == RequestStatus::Pending
}

/// There is an invite row with this id.
pub open spec fn invite_with_id(invites: Seq<InviteRow>, id: u64) -> bool {
    exists|i: int| 0 <= i < invites.len() && #[trigger] invites[i].id == id
}

/// Index of the invite row with this id.
pub open spec fn invite_index_with_id(invites: Seq<InviteRow>, id: u64) -> int {
    choose|i: int| 0 <= i < invites.len() && #[trigger] invites[i].id == id
}

/// Message rows are ordered strictly by `(sent_at, id)`.
pub open spec fn msg_before(a: MessageRow, b: MessageRow) -> bool {
    a.sent_at < b.sent_at || (a.sent_at == b.sent_at && a.id < b.id)
}

pub open spec fn msgs_sorted(msgs: Seq<MessageRow>) -> bool {
    forall|i: int, j: int|
        0 <= i < j < msgs.len() ==> msg_before(#[trigger] msgs[i], #[trigger] msgs[j])
}

impl ServerState {
    /// Every identifier in `users` was drawn from the counter, usernames are
    /// unique, and credentials line up with users one to one.
    pub open spec fn wf_users(self) -> bool {
        &&& forall|i: int|
            0 <= i < self.users@.len() ==> (#[trigger] self.users@[i].idnum) < self.next_user
        &&& forall|i: int|
            0 <= i < self.users@.len() ==> (#[trigger] self.users@[i].id@) == uid_str(
                self.users@[i].idnum as nat,
            )
        &&& forall|i: int, j: int|
            0 <= i < j < self.users@.len() ==> (#[trigger] self.users@[i].id@) != (
            #[trigger] self.users@[j].id@)
        &&& forall|i: int, j: int|
            0 <= i < j < self.users@.len() ==> (#[trigger] self.users@[i].username@) != (
            #[trigger] self.users@[j].username@)
        &&& self.creds@.len() == self.users@.len()
        &&& forall|i: int|
            0 <= i < self.users@.len() ==> (#[trigger] self.creds@[i].user_id@)
                == self.users@[i].id@
        &&& forall|i: int| 0 <= i < self.creds@.len() ==> (#[trigger] self.creds@[i].salt@).len()
            == 16
    }

    /// Session tokens are unique, sessions expire after they are created, and
    /// every session belongs to an existing user.
    pub open spec fn wf_sessions(self) -> bool {
        &&& forall|i: int, j: int|
            0 <= i < j < self.sessions@.len() ==> (#[trigger] self.sessions@[i].token@) != (
            #[trigger] self.sessions@[j].token@)
        &&& forall|i: int|
            0 <= i < self.sessions@.len() ==> (#[trigger] self.sessions@[i].expires_at)
                > self.sessions@[i].created_at
        &&& forall|i: int|
            0 <= i < self.sessions@.len() ==> user_with_id(
                self.users@,
                (#[trigger] self.sessions@[i].user_id@),
            )
    }

    /// Group ids come from the counter and are unique; memberships are unique
    /// per pair and refer to existing groups and users.
    pub open spec fn wf_groups(self) -> bool {
        &&& forall|i: int|
            0 <= i < self.groups@.len() ==> (#[trigger] self.groups@[i].idnum) < self.next_group
        &&& forall|i: int|
            0 <= i < self.groups@.len() ==> (#[trigger] self.groups@[i].id@) == gid_str(
                self.groups@[i].idnum as nat,
            )
        &&& forall|i: int, j: int|
            0 <= i < j < self.groups@.len() ==> (#[trigger] self.groups@[i].id@) != (
            #[trigger] self.groups@[j].id@)
        &&& forall|i: int, j: int|
            0 <= i < j < self.members@.len() ==> !((#[trigger] self.members@[i].group_id@) == (
            #[trigger] self.members@[j].group_id@) && self.members@[i].user_id@
                == self.members@[j].user_id@)
        &&& forall|i: int|
            0 <= i < self.members@.len() ==> group_with_id(
                self.groups@,
                (#[trigger] self.members@[i].group_id@),
            )
        &&& forall|i: int|
            0 <= i < self.members@.len() ==> user_with_id(
                self.users@,
                (#[trigger] self.members@[i].user_id@),
            )
    }

    /// Invite ids come from the counter and are unique; at most one pending
    /// invite per (group, invitee).
    pub open spec fn wf_invites(self) -> bool {
        &&& forall|i: int|
            0 <= i < self.invites@.len() ==> (#[trigger] self.invites@[i].id) < self.next_invite
        &&& forall|i: int|
            0 <= i < self.invites@.len() ==> group_with_id(
                self.groups@,
                (#[trigger] self.invites@[i].group_id@),
            )
        &&& forall|i: int, j: int|
            0 <= i < j < self.invites@.len() ==> (#[trigger] self.invites@[i].id) != (
            #[trigger] self.invites@[j].id)
        &&& forall|i: int, j: int|
            0 <= i < j < self.invites@.len() ==> !((#[trigger] self.invites@[i].group_id@) == (
            #[trigger] self.invites@[j].group_id@) && self.invites@[i].to_user_id@
                == self.invites@[j].to_user_id@ && self.invites@[i].status == RequestStatus::Pending
                && self.invites@[j].status == RequestStatus::Pending)
    }

    /// No self-request, and at most one pending request per ordered pair.
    pub open spec fn wf_friends(self) -> bool {
        &&& forall|i: int|
            0 <= i < self.friend_requests@.len() ==> (
            #[trigger] self.friend_requests@[i].from_user_id@)
                != self.friend_requests@[i].to_user_id@
        &&& forall|i: int, j: int|
            0 <= i < j < self.friend_requests@.len() ==> !((
            #[trigger] self.friend_requests@[i].from_user_id@) == (
            #[trigger] self.friend_requests@[j].from_user_id@) && self.friend_requests@[i].to_user_id@
                == self.friend_requests@[j].to_user_id@ && self.friend_requests@[i].status
                == RequestStatus::Pending && self.friend_requests@[j].status
                == RequestStatus::Pending)
    }

    /// Message ids come from the counter and are unique, and the rows are
    /// kept in `(sent_at, id)` order.
    pub open spec fn wf_messages(self) -> bool {
        &&& forall|i: int|
            0 <= i < self.messages@.len() ==> (#[trigger] self.messages@[i].id) < self.next_message
        &&& msgs_sorted(self.messages@)
    }

    pub open spec fn wf(self) -> bool {
        &&& self.wf_users()
        &&& self.wf_sessions()
        &&& self.wf_groups()
        &&& self.wf_invites()
        &&& self.wf_friends()
        &&& self.wf_messages()
    }

    /// The empty store.
    pub fn new() -> (r: ServerState)
        ensures
            r.wf(),
            r.users@.len() == 0,
            r.creds@.len() == 0,
            r.sessions@.len() == 0,
            r.session_events@.len() == 0,
            r.friend_requests@.len() == 0,
            r.groups@.len() == 0,
            r.members@.len() == 0,
            r.invites@.len() == 0,
            r.messages@.len() == 0,
            r.next_invite == 1,
            r.next_message == 1,
    {
        ServerState {
            users: Vec::new(),
            creds: Vec::new(),
            sessions: Vec::new(),
            session_events: Vec::new(),
            friend_requests: Vec::new(),
            groups: Vec::new(),
            members: Vec::new(),
            invites: Vec::new(),
            messages: Vec::new(),
            next_user: 1,
            next_group: 1,
            next_invite: 1,
            next_message: 1,
            next_event: 1,
        }
    }

    /// Finds the row index of the user carrying `name`.
    pub fn find_user_by_name(&self, name: &str) -> (r: Option<usize>)
        ensures
            r matches Some(i) ==> i < self.users@.len() && self.users@[i as int].username@
                == name@,
            r is None ==> !user_named(self.users@, name@),
    {
        let mut i: usize = 0;
        while i < self.users.len()
            invariant
                0 <= i <= self.users@.len(),
                forall|j: int| 0 <= j < i ==> (#[trigger] self.users@[j].username@) != name@,
            decreases self.users@.len() - i,
        {
            if crate::lex::str_eq(self.users[i].username.as_str(), name) {
                return Some(i);
            }
            i = i + 1;
        }
        None
    }

    /// Finds the row index of the user carrying `id`.
    pub fn find_user_by_id(&self, id: &str) -> (r: Option<usize>)
        ensures
            r matches Some(i) ==> i < self.users@.len() && self.users@[i as int].id@ == id@,
            r is None ==> !user_with_id(self.users@, id@),
    {
        let mut i: usize = 0;
        while i < self.users.len()
            invariant
                0 <= i <= self.users@.len(),
                forall|j: int| 0 <= j < i ==> (#[trigger] self.users@[j].id@) != id@,
            decreases self.users@.len() - i,
        {
            if crate::lex::str_eq(self.users[i].id.as_str(), id) {
                return Some(i);
            }
            i = i + 1;
        }
        None
    }

    /// Finds the row index of the group carrying `id`.
    pub fn find_group_by_id(&self, id: &str) -> (r: Option<usize>)
        ensures
            r matches Some(i) ==> i < self.groups@.len() && self.groups@[i as int].id@ == id@,
            r is None ==> !group_with_id(self.groups@, id@),
    {
        let mut i: usize = 0;
        while i < self.groups.len()
            invariant
                0 <= i <= self.groups@.len(),
                forall|j: int| 0 <= j < i ==> (#[trigger] self.groups@[j].id@) != id@,
            decreases self.groups@.len() - i,
        {
            if crate::lex::str_eq(self.groups[i].id.as_str(), id) {
                return Some(i);
            }
            i = i + 1;
        }
        None
    }

    /// Decides membership of `user_id` in `group_id`.
    pub fn check_member(&self, group_id: &str, user_id: &str) -> (r: bool)
        ensures
            r == is_member(self.members@, group_id@, user_id@),
    {
        let mut i: usize = 0;
        while i < self.members.len()
            invariant
                0 <= i <= self.members@.len(),
                forall|j: int|
                    0 <= j < i ==> !((#[trigger] self.members@[j].group_id@) == group_id@
                        && self.members@[j].user_id@ == user_id@),
            decreases self.members@.len() - i,
        {
            if crate::lex::str_eq(self.members[i].group_id.as_str(), group_id) && crate::lex::str_eq(
                self.members[i].user_id.as_str(), user_id) {
                return true;
            }
            i = i + 1;
        }
        false
    }
}

} // verus!
