//! Session and authentication core: registration, login, token validation,
//! logout, and the reaper that removes expired sessions.
use vstd::prelude::*;

use crate::lex::str_eq;
use crate::model::{
    gid_str, uid_str, user_named, user_with_id, user_index_named, ServerState, ServiceError,
    SessionRow, SessionEventRow, SessionEventKind, UserRow, CredRow, live_token, token_present,
    session_index_with_token,
};
use crate::textnum::{dec_digits, fmt_u64};

verus! {

/// What the password-hashing scheme returns on a given password and salt;
/// fixed by Argon2id with its default parameters.
pub uninterp spec fn phash_of(password: Seq<char>, salt: Seq<u8>) -> Seq<u8>;

/// Relies on argon2's `Argon2::default` and `hash_password_into`: Argon2id,
/// a memory-hard function of the password and salt alone, here with a
/// 32-byte output. With a 16-byte salt and a password within the scheme's
/// length bound it fails only when its working memory cannot be allocated,
/// which aborts as any allocation failure does.
#[verifier::external_body]
fn argon2_hash(password: &str, salt: &Vec<u8>) -> (r: Vec<u8>)
    requires
        salt@.len() == 16,
        password@.len() <= 0x3fff_ffff,
    ensures
        r@ == phash_of(password@, salt@),
        r@.len() == 32,
{
    let mut out = [0u8; 32];
    argon2::Argon2::default()
        .hash_password_into(password.as_bytes(), salt.as_slice(), &mut out)
        .expect("argon2 accepts a 16-byte salt and a 32-byte output");
    out.to_vec()
}

/// Decides byte-sequence equality.
fn bytes_eq(a: &Vec<u8>, b: &Vec<u8>) -> (r: bool)
    ensures
        r == (a@ == b@),
{
    if a.len() != b.len() {
        return false;
    }
    let mut i: usize = 0;
    while i < a.len()
        invariant
            0 <= i <= a@.len(),
            a@.len() == b@.len(),
            forall|j: int| 0 <= j < i ==> a@[j] == b@[j],
        decreases a@.len() - i,
    {
        if a[i] != b[i] {
            return false;
        }
        i = i + 1;
    }
    proof {
        assert(a@ =~= b@);
    }
    true
}

/// ASCII letter or digit.
pub open spec fn is_alnum(c: char) -> bool {
    (48 <= (c as u32) && (c as u32) <= 57) || (65 <= (c as u32) && (c as u32) <= 90) || (97 <= (
    c as u32) && (c as u32) <= 122)
}

/// A username is acceptable when it has at least three characters, all ASCII
/// letters or digits.
pub open spec fn username_ok(name: Seq<char>) -> bool {
    name.len() >= 3 && forall|i: int| 0 <= i < name.len() ==> is_alnum(#[trigger] name[i])
}

/// A password is acceptable when it is non-empty and within the hashing
/// scheme's length bound.
pub open spec fn password_ok(password: Seq<char>) -> bool {
    1 <= password.len() <= 0x3fff_ffff
}

/// Decides `username_ok`.
pub fn check_username(name: &str) -> (r: bool)
    ensures
        r == username_ok(name@),
{
    let len = name.unicode_len();
    if len < 3 {
        return false;
    }
    let mut i: usize = 0;
    while i < len
        invariant
            0 <= i <= len,
            len == name@.len(),
            forall|j: int| 0 <= j < i ==> is_alnum(#[trigger] name@[j]),
        decreases len - i,
    {
        let v = name.get_char(i) as u32;
        if !((48 <= v && v <= 57) || (65 <= v && v <= 90) || (97 <= v && v <= 122)) {
            return false;
        }
        i = i + 1;
    }
    true
}

/// Relies on `uuid::Uuid::new_v4` rendered through `Display`: a freshly drawn
/// random identifier in hyphenated form, 36 ASCII characters.
#[verifier::external_body]
pub(crate) fn fresh_token_string() -> (r: String)
    ensures
        r@.len() == 36,
{
    uuid::Uuid::new_v4().to_string()
}

/// Renderings of two different numbers differ.
pub proof fn lemma_dec_digits_injective(a: nat, b: nat)
    requires
        a != b,
    ensures
        dec_digits(a) != dec_digits(b),
{
    crate::textnum::lemma_dec_digits_val(a);
    crate::textnum::lemma_dec_digits_val(b);
}

/// User id strings drawn from different counter values differ.
pub proof fn lemma_uid_str_injective(a: nat, b: nat)
    requires
        a != b,
    ensures
        uid_str(a) != uid_str(b),
{
    lemma_dec_digits_injective(a, b);
    if uid_str(a) == uid_str(b) {
        assert(uid_str(a).skip(1) =~= dec_digits(a));
        assert(uid_str(b).skip(1) =~= dec_digits(b));
    }
}

/// Group id strings drawn from different counter values differ.
pub proof fn lemma_gid_str_injective(a: nat, b: nat)
    requires
        a != b,
    ensures
        gid_str(a) != gid_str(b),
{
    lemma_dec_digits_injective(a, b);
    if gid_str(a) == gid_str(b) {
        assert(gid_str(a).skip(1) =~= dec_digits(a));
        assert(gid_str(b).skip(1) =~= dec_digits(b));
    }
}

/// The session rows that are still live at `now`, in stored order.
pub open spec fn live_sessions(s: Seq<SessionRow>, now: i64) -> Seq<SessionRow>
    decreases s.len(),
{
    if s.len() == 0 {
        s
    } else if s[0].expires_at > now {
        seq![s[0]] + live_sessions(s.drop_first(), now)
    } else {
        live_sessions(s.drop_first(), now)
    }
}

/// The session rows that have expired by `now`, in stored order.
pub open spec fn expired_sessions(s: Seq<SessionRow>, now: i64) -> Seq<SessionRow>
    decreases s.len(),
{
    if s.len() == 0 {
        s
    } else if s[0].expires_at > now {
        expired_sessions(s.drop_first(), now)
    } else {
        seq![s[0]] + expired_sessions(s.drop_first(), now)
    }
}

/// Every live row is one of the original rows, and is indeed live.
pub proof fn lemma_live_sessions_subset(s: Seq<SessionRow>, now: i64)
    ensures
        forall|a: int|
            0 <= a < live_sessions(s, now).len() ==> exists|j: int|
                0 <= j < s.len() && (#[trigger] live_sessions(s, now)[a]) == s[j],
        live_sessions(s, now).len() <= s.len(),
        forall|a: int|
            0 <= a < live_sessions(s, now).len() ==> (#[trigger] live_sessions(
                s,
                now,
            )[a]).expires_at > now,
    decreases s.len(),
{
    if s.len() > 0 {
        let rest = s.drop_first();
        lemma_live_sessions_subset(rest, now);
        let lv = live_sessions(s, now);
        let lr = live_sessions(rest, now);
        assert forall|a: int| 0 <= a < lv.len() implies exists|j: int|
            0 <= j < s.len() && (#[trigger] lv[a]) == s[j] by {
            if s[0].expires_at > now {
                if a == 0 {
                    assert(lv[0] == s[0]);
                } else {
                    assert(lv[a] == lr[a - 1]);
                    let j = choose|j: int| 0 <= j < rest.len() && lr[a - 1] == rest[j];
                    assert(rest[j] == s[j + 1]);
                    assert(lv[a] == s[j + 1]);
                }
            } else {
                assert(lv[a] == lr[a]);
                let j = choose|j: int| 0 <= j < rest.len() && lr[a] == rest[j];
                assert(rest[j] == s[j + 1]);
                assert(lv[a] == s[j + 1]);
            }
        }
        assert forall|a: int| 0 <= a < lv.len() implies (#[trigger] lv[a]).expires_at > now by {
            if s[0].expires_at > now {
                if a > 0 {
                    assert(lv[a] == lr[a - 1]);
                }
            } else {
                assert(lv[a] == lr[a]);
            }
        }
    }
}

/// Liveness filtering keeps tokens pairwise distinct.
pub proof fn lemma_live_sessions_distinct(s: Seq<SessionRow>, now: i64)
    requires
        forall|i: int, j: int|
            0 <= i < j < s.len() ==> (#[trigger] s[i].token@) != (#[trigger] s[j].token@),
    ensures
        forall|a: int, b: int|
            0 <= a < b < live_sessions(s, now).len() ==> (#[trigger] live_sessions(
                s,
                now,
            )[a].token@) != (#[trigger] live_sessions(s, now)[b].token@),
    decreases s.len(),
{
    if s.len() > 0 {
        let rest = s.drop_first();
        assert forall|i: int, j: int| 0 <= i < j < rest.len() implies (
        #[trigger] rest[i].token@) != (#[trigger] rest[j].token@) by {
            assert(rest[i] == s[i + 1] && rest[j] == s[j + 1]);
        }
        lemma_live_sessions_distinct(rest, now);
        lemma_live_sessions_subset(rest, now);
        let lv = live_sessions(s, now);
        let lr = live_sessions(rest, now);
        assert forall|a: int, b: int| 0 <= a < b < lv.len() implies (#[trigger] lv[a].token@) != (
        #[trigger] lv[b].token@) by {
            if s[0].expires_at > now {
                if a == 0 {
                    assert(lv[b] == lr[b - 1]);
                    let j = choose|j: int| 0 <= j < rest.len() && lr[b - 1] == rest[j];
                    assert(rest[j] == s[j + 1]);
                    assert(s[0].token@ != s[j + 1].token@);
                } else {
                    assert(lv[a] == lr[a - 1] && lv[b] == lr[b - 1]);
                }
            } else {
                assert(lv[a] == lr[a] && lv[b] == lr[b]);
            }
        }
    }
}

/// A token that is live after filtering was live before.
pub proof fn lemma_live_sessions_token(s: Seq<SessionRow>, now: i64, token: Seq<char>)
    ensures
        token_present(live_sessions(s, now), token) ==> live_token(s, token, now),
        live_token(s, token, now) ==> token_present(live_sessions(s, now), token),
    decreases s.len(),
{
    let lv = live_sessions(s, now);
    if s.len() > 0 {
        let rest = s.drop_first();
        lemma_live_sessions_token(rest, now, token);
        let lr = live_sessions(rest, now);
        if token_present(lv, token) {
            let a = choose|a: int| 0 <= a < lv.len() && #[trigger] lv[a].token@ == token;
            if s[0].expires_at > now {
                if a == 0 {
                    assert(s[0].token@ == token && s[0].expires_at > now);
                } else {
                    assert(lv[a] == lr[a - 1]);
                    assert(token_present(lr, token));
                    assert(live_token(rest, token, now));
                    let j = choose|j: int|
                        0 <= j < rest.len() && #[trigger] rest[j].token@ == token
                            && rest[j].expires_at > now;
                    assert(s[j + 1] == rest[j]);
                }
            } else {
                assert(lv[a] == lr[a]);
                assert(token_present(lr, token));
                assert(live_token(rest, token, now));
                let j = choose|j: int|
                    0 <= j < rest.len() && #[trigger] rest[j].token@ == token
                        && rest[j].expires_at > now;
                assert(s[j + 1] == rest[j]);
            }
        }
        if live_token(s, token, now) {
            let i = choose|i: int|
                0 <= i < s.len() && #[trigger] s[i].token@ == token && s[i].expires_at > now;
            if i == 0 {
                assert(lv[0] == s[0]);
            } else {
                assert(rest[i - 1] == s[i]);
                assert(live_token(rest, token, now));
                assert(token_present(lr, token));
                let a = choose|a: int| 0 <= a < lr.len() && #[trigger] lr[a].token@ == token;
                if s[0].expires_at > now {
                    assert(lv[a + 1] == lr[a]);
                } else {
                    assert(lv[a] == lr[a]);
                }
            }
        }
    }
}

/// A token held by no session row never validates, at any time. Together
/// with the contract of `logout` (which removes the row holding the token
/// and leaves no other), this says that once a logout succeeds, validation
/// of that token fails from then on.
pub proof fn lemma_absent_token_never_validates(
    sessions: Seq<SessionRow>,
    token: Seq<char>,
    at: i64,
)
    requires
        !token_present(sessions, token),
    ensures
        crate::model::token_user(sessions, token, at) is None,
{
    if live_token(sessions, token, at) {
        let i = choose|i: int|
            0 <= i < sessions.len() && #[trigger] sessions[i].token@ == token
                && sessions[i].expires_at > at;
        assert(sessions[i].token@ == token);
    }
}

/// A successful registration leaves its username present in the user table;
/// with the contract of `register` (which succeeds only while the name is
/// absent), of two registrations of one username only the first can succeed:
/// the second receives `UsernameTaken`.
pub proof fn lemma_registered_name_taken(s: ServerState, username: Seq<char>)
    requires
        s.users@.len() > 0,
        s.users@.last().username@ == username,
    ensures
        user_named(s.users@, username),
{
    assert(s.users@[s.users@.len() - 1].username@ == username);
}

/// Copies a session row.
fn clone_session(s: &SessionRow) -> (r: SessionRow)
    ensures
        r == *s,
{
    let r = SessionRow {
        token: s.token.clone(),
        user_id: s.user_id.clone(),
        created_at: s.created_at,
        expires_at: s.expires_at,
    };
    r
}

impl ServerState {
    /// The stored credentials accept this username/password pair: the
    /// password is acceptable, the user exists, and its stored hash is the
    /// hash of the password under the user's stored salt.
    pub open spec fn creds_valid(self, username: Seq<char>, password: Seq<char>) -> bool {
        password_ok(password) && user_named(self.users@, username) && {
            let i = user_index_named(self.users@, username);
            self.creds@[i].pass_hash@ == phash_of(password, self.creds@[i].salt@)
        }
    }

    /// All fields coincide.
    pub open spec fn same_as(self, other: ServerState) -> bool {
        &&& self.users@ == other.users@
        &&& self.creds@ == other.creds@
        &&& self.sessions@ == other.sessions@
        &&& self.session_events@ == other.session_events@
        &&& self.friend_requests@ == other.friend_requests@
        &&& self.groups@ == other.groups@
        &&& self.members@ == other.members@
        &&& self.invites@ == other.invites@
        &&& self.messages@ == other.messages@
        &&& self.next_user == other.next_user
        &&& self.next_group == other.next_group
        &&& self.next_invite == other.next_invite
        &&& self.next_message == other.next_message
        &&& self.next_event == other.next_event
    }

    /// All fields but the user, credential and counter tables coincide.
    pub open spec fn same_but_users(self, other: ServerState) -> bool {
        &&& self.sessions@ == other.sessions@
        &&& self.session_events@ == other.session_events@
        &&& self.friend_requests@ == other.friend_requests@
        &&& self.groups@ == other.groups@
        &&& self.members@ == other.members@
        &&& self.invites@ == other.invites@
        &&& self.messages@ == other.messages@
        &&& self.next_group == other.next_group
        &&& self.next_invite == other.next_invite
        &&& self.next_message == other.next_message
        &&& self.next_event == other.next_event
    }

    /// All fields but the session tables, the event log, the user rows and
    /// the event counter coincide.
    pub open spec fn same_but_sessions(self, other: ServerState) -> bool {
        &&& self.creds@ == other.creds@
        &&& self.friend_requests@ == other.friend_requests@
        &&& self.groups@ == other.groups@
        &&& self.members@ == other.members@
        &&& self.invites@ == other.invites@
        &&& self.messages@ == other.messages@
        &&& self.next_user == other.next_user
        &&& self.next_group == other.next_group
        &&& self.next_invite == other.next_invite
        &&& self.next_message == other.next_message
    }

    /// Registers a new user: inserts the user row and its credential row in
    /// one step, the credential a memory-hard hash of the password under a
    /// freshly drawn per-user salt. The new user starts offline.
    pub fn register(&mut self, username: &str, password: &str) -> (r: Result<
        String,
        ServiceError,
    >)
        requires
            old(self).wf(),
            old(self).next_user < u64::MAX,
        ensures
            final(self).wf(),
            r matches Ok(uid) ==> {
                &&& username_ok(username@) && password_ok(password@)
                &&& !user_named(old(self).users@, username@)
                &&& uid@ == uid_str(old(self).next_user as nat)
                &&& final(self).users@.len() == old(self).users@.len() + 1
                &&& final(self).users@.drop_last() == old(self).users@
                &&& final(self).users@.last().id@ == uid@
                &&& final(self).users@.last().username@ == username@
                &&& final(self).users@.last().is_online == false
                &&& final(self).creds@.drop_last() == old(self).creds@
                &&& final(self).creds@.last().user_id@ == uid@
                &&& final(self).creds@.last().salt@.len() == 16
                &&& final(self).creds@.last().pass_hash@ == phash_of(
                    password@,
                    final(self).creds@.last().salt@,
                )
                &&& final(self).creds_valid(username@, password@)
                &&& final(self).next_user == old(self).next_user + 1
                &&& final(self).same_but_users(*old(self))
            },
            r matches Err(e) ==> final(self).same_as(*old(self)) && (e
                == ServiceError::UsernameTaken || e == ServiceError::WeakCredential),
            (r matches Err(e) && e == ServiceError::UsernameTaken) <==> (username_ok(username@)
                && password_ok(password@) && user_named(old(self).users@, username@)),
            (r matches Err(e) && e == ServiceError::WeakCredential) <==> !(username_ok(username@)
                && password_ok(password@)),
            r is Ok <==> username_ok(username@) && password_ok(password@) && !user_named(
                old(self).users@,
                username@,
            ),
    {
        if !check_username(username) || password.unicode_len() == 0 || password.unicode_len()
            > 0x3fff_ffff {
            return Err(ServiceError::WeakCredential);
        }
        if self.find_user_by_name(username).is_some() {
            return Err(ServiceError::UsernameTaken);
        }
        let k = self.next_user;
        let mut uid = crate::textnum::string_of_char('u');
        let digits = fmt_u64(k);
        uid.append(digits.as_str());
        proof {
            assert(uid@ =~= uid_str(k as nat));
        }
        let salt = crate::envelope::fresh_nonce();
        let hash = argon2_hash(password, &salt);
        let uname = String::from_str(username);
        let uid_for_cred = uid.clone();
        let uid_ret = uid.clone();
        self.users.push(UserRow { idnum: k, id: uid, username: uname, is_online: false });
        self.creds.push(CredRow { user_id: uid_for_cred, salt, pass_hash: hash });
        self.next_user = k + 1;
        proof {
            let nu = self.users@;
            let ou = old(self).users@;
            assert forall|i: int, j: int| 0 <= i < j < nu.len() implies (#[trigger] nu[i].id@) != (
            #[trigger] nu[j].id@) by {
                if j == ou.len() {
                    lemma_uid_str_injective(nu[i].idnum as nat, k as nat);
                }
            }
            assert forall|i: int| 0 <= i < self.sessions@.len() implies user_with_id(
                nu,
                (#[trigger] self.sessions@[i].user_id@),
            ) by {
                assert(user_with_id(ou, self.sessions@[i].user_id@));
                let j = choose|j: int|
                    0 <= j < ou.len() && #[trigger] ou[j].id@ == self.sessions@[i].user_id@;
                assert(nu[j].id@ == self.sessions@[i].user_id@);
            }
            assert forall|i: int| 0 <= i < self.members@.len() implies user_with_id(
                nu,
                (#[trigger] self.members@[i].user_id@),
            ) by {
                assert(user_with_id(ou, self.members@[i].user_id@));
                let j = choose|j: int|
                    0 <= j < ou.len() && #[trigger] ou[j].id@ == self.members@[i].user_id@;
                assert(nu[j].id@ == self.members@[i].user_id@);
            }
            let nc = self.creds@;
            let oc = old(self).creds@;
            assert forall|i: int| 0 <= i < nc.len() implies (#[trigger] nc[i].salt@).len()
                == 16 by {
                if i < oc.len() {
                    assert(nc[i] == oc[i]);
                }
            }
            assert(user_named(nu, username@)) by {
                assert(nu[nu.len() - 1].username@ == username@);
            }
            let idx = user_index_named(nu, username@);
            if idx != nu.len() - 1 {
                assert(nu[idx].username@ == nu[nu.len() - 1].username@);
            }
            assert(self.creds_valid(username@, password@));
        }
        Ok(uid_ret)
    }

    /// The expiry stamped on a session opened at `now` with lifetime `ttl`,
    /// saturating at the largest representable time.
    pub open spec fn session_expiry(now: i64, ttl: i64) -> i64 {
        if ttl > i64::MAX - now {
            i64::MAX
        } else {
            (now + ttl) as i64
        }
    }

    /// True when some session row carries this user id.
    pub open spec fn user_has_session(sessions: Seq<SessionRow>, uid: Seq<char>) -> bool {
        exists|i: int| 0 <= i < sessions.len() && #[trigger] sessions[i].user_id@ == uid
    }

    /// Decides `user_has_session(self.sessions@, uid@)`.
    pub fn any_session_for(&self, uid: &str) -> (r: bool)
        ensures
            r == Self::user_has_session(self.sessions@, uid@),
    {
        let mut i: usize = 0;
        while i < self.sessions.len()
            invariant
                0 <= i <= self.sessions@.len(),
                forall|j: int| 0 <= j < i ==> (#[trigger] self.sessions@[j].user_id@) != uid@,
            decreases self.sessions@.len() - i,
        {
            if str_eq(self.sessions[i].user_id.as_str(), uid) {
                return true;
            }
            i = i + 1;
        }
        false
    }

    /// Finds the row index of the session carrying this token.
    pub fn find_session_by_token(&self, token: &str) -> (r: Option<usize>)
        ensures
            r matches Some(i) ==> i < self.sessions@.len() && self.sessions@[i as int].token@
                == token@,
            r is None ==> !token_present(self.sessions@, token@),
    {
        let mut i: usize = 0;
        while i < self.sessions.len()
            invariant
                0 <= i <= self.sessions@.len(),
                forall|j: int| 0 <= j < i ==> (#[trigger] self.sessions@[j].token@) != token@,
            decreases self.sessions@.len() - i,
        {
            if str_eq(self.sessions[i].token.as_str(), token) {
                return Some(i);
            }
            i = i + 1;
        }
        None
    }

    /// Decides whether any session row carries this token.
    pub fn any_session_with_token(&self, token: &str) -> (r: bool)
        ensures
            r == token_present(self.sessions@, token@),
    {
        let mut i: usize = 0;
        while i < self.sessions.len()
            invariant
                0 <= i <= self.sessions@.len(),
                forall|j: int| 0 <= j < i ==> (#[trigger] self.sessions@[j].token@) != token@,
            decreases self.sessions@.len() - i,
        {
            if str_eq(self.sessions[i].token.as_str(), token) {
                return true;
            }
            i = i + 1;
        }
        false
    }

    /// Resolves a token to its user: `Some` exactly when the token exists and
    /// has not expired at `now`.
    pub fn validate(&self, token: &str, now: i64) -> (r: Option<String>)
        requires
            self.wf(),
        ensures
            r is Some <==> live_token(self.sessions@, token@, now),
            r matches Some(uid) ==> crate::model::token_user(self.sessions@, token@, now) == Some(
                uid@,
            ) && user_with_id(self.users@, uid@),
    {
        let mut i: usize = 0;
        while i < self.sessions.len()
            invariant
                self.wf(),
                0 <= i <= self.sessions@.len(),
                forall|j: int|
                    0 <= j < i ==> !((#[trigger] self.sessions@[j].token@) == token@
                        && self.sessions@[j].expires_at > now),
            decreases self.sessions@.len() - i,
        {
            if str_eq(self.sessions[i].token.as_str(), token) && self.sessions[i].expires_at
                > now {
                proof {
                    let ci = session_index_with_token(self.sessions@, token@);
                    assert(self.sessions@[i as int].token@ == token@);
                    if ci != i {
                        assert(self.sessions@[ci].token@ == self.sessions@[i as int].token@);
                    }
                }
                return Some(self.sessions[i].user_id.clone());
            }
            i = i + 1;
        }
        None
    }

    /// Opens a session under a caller-supplied token. Succeeds exactly when
    /// the credentials are accepted and the token is not already in use; a
    /// token collision is a storage fault. On success the user comes online,
    /// the session row is inserted, and a login event is appended.
    pub fn login_with_token(
        &mut self,
        username: &str,
        password: &str,
        token: String,
        now: i64,
        ttl: i64,
    ) -> (r: Result<String, ServiceError>)
        requires
            old(self).wf(),
            now < i64::MAX,
            ttl >= 1,
            old(self).next_event < u64::MAX,
        ensures
            final(self).wf(),
            r is Ok <==> old(self).creds_valid(username@, password@) && !token_present(
                old(self).sessions@,
                token@,
            ),
            (r matches Err(e) && e == ServiceError::InvalidCredential) <==> !old(self).creds_valid(
                username@,
                password@,
            ),
            (r matches Err(e) && e == ServiceError::StoreUnavailable) <==> (old(self).creds_valid(
                username@,
                password@,
            ) && token_present(old(self).sessions@, token@)),
            r matches Err(e) ==> final(self).same_as(*old(self)),
            r matches Ok(tok) ==> {
                let ui = user_index_named(old(self).users@, username@);
                let uid = old(self).users@[ui].id@;
                &&& tok@ == token@
                &&& final(self).sessions@.len() == old(self).sessions@.len() + 1
                &&& final(self).sessions@.drop_last() == old(self).sessions@
                &&& final(self).sessions@.last().token@ == token@
                &&& final(self).sessions@.last().user_id@ == uid
                &&& final(self).sessions@.last().created_at == now
                &&& final(self).sessions@.last().expires_at == Self::session_expiry(now, ttl)
                &&& crate::model::token_user(final(self).sessions@, token@, now) == Some(uid)
                &&& final(self).session_events@.drop_last() == old(self).session_events@
                &&& final(self).session_events@.len() == old(self).session_events@.len() + 1
                &&& final(self).session_events@.last().kind == SessionEventKind::Login
                &&& final(self).session_events@.last().user_id@ == uid
                &&& final(self).session_events@.last().created_at == now
                &&& final(self).next_event == old(self).next_event + 1
                &&& final(self).users@ == old(self).users@.update(
                    ui,
                    UserRow {
                        is_online: true,
                        ..old(self).users@[ui]
                    },
                )
                &&& final(self).same_but_sessions(*old(self))
            },
    {
        let ui = match self.find_user_by_name(username) {
            Some(ui) => ui,
            None => {
                return Err(ServiceError::InvalidCredential);
            },
        };
        proof {
            let ci = user_index_named(self.users@, username@);
            assert(self.users@[ui as int].username@ == username@);
            if ci != ui {
                assert(self.users@[ci].username@ == self.users@[ui as int].username@);
            }
        }
        if password.unicode_len() == 0 || password.unicode_len() > 0x3fff_ffff {
            return Err(ServiceError::InvalidCredential);
        }
        let actual = argon2_hash(password, &self.creds[ui].salt);
        if !bytes_eq(&self.creds[ui].pass_hash, &actual) {
            return Err(ServiceError::InvalidCredential);
        }
        if self.any_session_with_token(token.as_str()) {
            return Err(ServiceError::StoreUnavailable);
        }
        let expires_at: i64 = if now >= 0 && ttl > i64::MAX - now {
            i64::MAX
        } else {
            now + ttl
        };
        let uid = self.users[ui].id.clone();
        let uid_for_event = uid.clone();
        let tok_ret = token.clone();
        self.sessions.push(
            SessionRow { token, user_id: uid, created_at: now, expires_at },
        );
        let ev_id = self.next_event;
        self.session_events.push(
            SessionEventRow {
                id: ev_id,
                user_id: uid_for_event,
                kind: SessionEventKind::Login,
                created_at: now,
            },
        );
        self.next_event = ev_id + 1;
        let online_row = UserRow {
            idnum: self.users[ui].idnum,
            id: self.users[ui].id.clone(),
            username: self.users[ui].username.clone(),
            is_online: true,
        };
        self.users[ui] = online_row;
        proof {
            let nu = self.users@;
            let ou = old(self).users@;
            assert(nu =~= ou.update(ui as int, UserRow { is_online: true, ..ou[ui as int] }));
            assert forall|i: int| 0 <= i < self.sessions@.len() implies user_with_id(
                nu,
                (#[trigger] self.sessions@[i].user_id@),
            ) by {
                if i < self.sessions@.len() - 1 {
                    assert(self.sessions@[i] == old(self).sessions@[i]);
                    assert(user_with_id(ou, self.sessions@[i].user_id@));
                    let j = choose|j: int|
                        0 <= j < ou.len() && #[trigger] ou[j].id@ == self.sessions@[i].user_id@;
                    assert(nu[j].id@ == self.sessions@[i].user_id@);
                } else {
                    assert(nu[ui as int].id@ == self.sessions@[i].user_id@);
                }
            }
            assert forall|i: int| 0 <= i < self.members@.len() implies user_with_id(
                nu,
                (#[trigger] self.members@[i].user_id@),
            ) by {
                assert(user_with_id(ou, self.members@[i].user_id@));
                let j = choose|j: int|
                    0 <= j < ou.len() && #[trigger] ou[j].id@ == self.members@[i].user_id@;
                assert(nu[j].id@ == self.members@[i].user_id@);
            }
            let ns = self.sessions@;
            let ti = session_index_with_token(ns, tok_ret@);
            assert(ns[ns.len() - 1].token@ == tok_ret@);
            if ti != ns.len() - 1 {
                assert(ns[ti].token@ == ns[ns.len() - 1].token@);
            }
        }
        Ok(tok_ret)
    }

    /// Opens a session under a freshly drawn token.
    pub fn login(&mut self, username: &str, password: &str, now: i64, ttl: i64) -> (r: Result<
        String,
        ServiceError,
    >)
        requires
            old(self).wf(),
            now < i64::MAX,
            ttl >= 1,
            old(self).next_event < u64::MAX,
        ensures
            final(self).wf(),
            (r matches Err(e) && e == ServiceError::InvalidCredential) <==> !old(self).creds_valid(
                username@,
                password@,
            ),
            r matches Err(e) ==> final(self).same_as(*old(self)) && (e
                == ServiceError::InvalidCredential || e == ServiceError::StoreUnavailable),
            r matches Ok(tok) ==> {
                let ui = user_index_named(old(self).users@, username@);
                let uid = old(self).users@[ui].id@;
                &&& old(self).creds_valid(username@, password@)
                &&& !token_present(old(self).sessions@, tok@)
                &&& final(self).sessions@.len() == old(self).sessions@.len() + 1
                &&& final(self).sessions@.drop_last() == old(self).sessions@
                &&& final(self).sessions@.last().token@ == tok@
                &&& final(self).sessions@.last().user_id@ == uid
                &&& final(self).sessions@.last().created_at == now
                &&& final(self).sessions@.last().expires_at == Self::session_expiry(now, ttl)
                &&& crate::model::token_user(final(self).sessions@, tok@, now) == Some(uid)
                &&& final(self).session_events@.drop_last() == old(self).session_events@
                &&& final(self).session_events@.last().kind == SessionEventKind::Login
                &&& final(self).session_events@.last().user_id@ == uid
                &&& final(self).users@ == old(self).users@.update(
                    ui,
                    UserRow {
                        is_online: true,
                        ..old(self).users@[ui]
                    },
                )
                &&& final(self).same_but_sessions(*old(self))
            },
    {
        let token = fresh_token_string();
        self.login_with_token(username, password, token, now, ttl)
    }

    /// Closes the session holding this token: the row is removed, a logout
    /// event is appended, and the user goes offline unless another of their
    /// sessions remains. Fails exactly when no session holds the token.
    pub fn logout(&mut self, token: &str, now: i64) -> (r: Result<(), ServiceError>)
        requires
            old(self).wf(),
            old(self).next_event < u64::MAX,
        ensures
            final(self).wf(),
            r is Ok <==> token_present(old(self).sessions@, token@),
            r matches Err(e) ==> e == ServiceError::InvalidSession && final(self).same_as(
                *old(self),
            ),
            r is Ok ==> {
                let si = session_index_with_token(old(self).sessions@, token@);
                let uid = old(self).sessions@[si].user_id@;
                &&& final(self).sessions@ == old(self).sessions@.remove(si)
                &&& !token_present(final(self).sessions@, token@)
                &&& final(self).session_events@.drop_last() == old(self).session_events@
                &&& final(self).session_events@.len() == old(self).session_events@.len() + 1
                &&& final(self).session_events@.last().kind == SessionEventKind::Logout
                &&& final(self).session_events@.last().user_id@ == uid
                &&& final(self).session_events@.last().created_at == now
                &&& final(self).next_event == old(self).next_event + 1
                &&& final(self).users@.len() == old(self).users@.len()
                &&& forall|i: int|
                    0 <= i < old(self).users@.len() ==> (#[trigger] final(self).users@[i]).id@
                        == old(self).users@[i].id@ && final(self).users@[i].idnum
                        == old(self).users@[i].idnum && final(self).users@[i].username@
                        == old(self).users@[i].username@
                &&& forall|i: int|
                    0 <= i < old(self).users@.len() ==> (#[trigger] final(self).users@[i]).is_online
                        == (old(self).users@[i].is_online && (old(self).users@[i].id@ != uid
                        || Self::user_has_session(final(self).sessions@, uid)))
                &&& final(self).same_but_sessions(*old(self))
            },
    {
        let si = match self.find_session_by_token(token) {
            Some(si) => si,
            None => {
                return Err(ServiceError::InvalidSession);
            },
        };
        proof {
            let ci = session_index_with_token(self.sessions@, token@);
            assert(self.sessions@[si as int].token@ == token@);
            if ci != si {
                assert(self.sessions@[ci].token@ == self.sessions@[si as int].token@);
            }
        }
        let removed = self.sessions.remove(si);
        let uid = removed.user_id;
        let uid_for_event = uid.clone();
        let ev_id = self.next_event;
        self.session_events.push(
            SessionEventRow {
                id: ev_id,
                user_id: uid_for_event,
                kind: SessionEventKind::Logout,
                created_at: now,
            },
        );
        self.next_event = ev_id + 1;
        let still = self.any_session_for(uid.as_str());
        if !still {
            if let Some(ui) = self.find_user_by_id(uid.as_str()) {
                let off_row = UserRow {
                    idnum: self.users[ui].idnum,
                    id: self.users[ui].id.clone(),
                    username: self.users[ui].username.clone(),
                    is_online: false,
                };
                self.users[ui] = off_row;
            }
        }
        proof {
            let osq = old(self).sessions@;
            let nsq = self.sessions@;
            let sii = si as int;
            assert(nsq =~= osq.remove(sii));
            assert forall|a: int, b: int| 0 <= a < b < nsq.len() implies (
            #[trigger] nsq[a].token@) != (#[trigger] nsq[b].token@) by {
                let oa = if a < sii {
                    a
                } else {
                    a + 1
                };
                let ob = if b < sii {
                    b
                } else {
                    b + 1
                };
                assert(nsq[a] == osq[oa] && nsq[b] == osq[ob]);
            }
            assert forall|a: int| 0 <= a < nsq.len() implies !((#[trigger] nsq[a].token@)
                == token@) by {
                let oa = if a < sii {
                    a
                } else {
                    a + 1
                };
                assert(nsq[a] == osq[oa]);
            }
            let nu = self.users@;
            let ou = old(self).users@;
            assert forall|i: int| 0 <= i < nsq.len() implies user_with_id(
                nu,
                (#[trigger] nsq[i].user_id@),
            ) by {
                let oa = if i < sii {
                    i
                } else {
                    i + 1
                };
                assert(nsq[i] == osq[oa]);
                assert(user_with_id(ou, nsq[i].user_id@));
                let j = choose|j: int|
                    0 <= j < ou.len() && #[trigger] ou[j].id@ == nsq[i].user_id@;
                assert(nu[j].id@ == nsq[i].user_id@);
            }
            assert forall|i: int| 0 <= i < self.members@.len() implies user_with_id(
                nu,
                (#[trigger] self.members@[i].user_id@),
            ) by {
                assert(user_with_id(ou, self.members@[i].user_id@));
                let j = choose|j: int|
                    0 <= j < ou.len() && #[trigger] ou[j].id@ == self.members@[i].user_id@;
                assert(nu[j].id@ == self.members@[i].user_id@);
            }
            if !Self::user_has_session(nsq, uid@) {
                if user_with_id(ou, uid@) {
                    let j = choose|j: int| 0 <= j < ou.len() && #[trigger] ou[j].id@ == uid@;
                }
            }
        }
        Ok(())
    }

    /// The reaper: removes every session expired at `now`, appends an
    /// `Expired` event for each removed row, and takes every user with no
    /// remaining session offline.
    pub fn cleanup_expired_sessions(&mut self, now: i64)
        requires
            old(self).wf(),
            old(self).next_event + old(self).sessions@.len() <= u64::MAX,
        ensures
            final(self).wf(),
            final(self).sessions@ == live_sessions(old(self).sessions@, now),
            final(self).session_events@.len() == old(self).session_events@.len()
                + expired_sessions(old(self).sessions@, now).len(),
            final(self).session_events@.subrange(
                0,
                old(self).session_events@.len() as int,
            ) == old(self).session_events@,
            forall|k: int|
                0 <= k < expired_sessions(old(self).sessions@, now).len() ==> (
                #[trigger] final(self).session_events@[old(self).session_events@.len() + k]).kind
                    == SessionEventKind::Expired && final(self).session_events@[old(
                self,
                ).session_events@.len() + k].user_id@ == expired_sessions(
                    old(self).sessions@,
                    now,
                )[k].user_id@ && final(self).session_events@[old(self).session_events@.len()
                    + k].created_at == now,
            final(self).users@.len() == old(self).users@.len(),
            forall|i: int|
                0 <= i < old(self).users@.len() ==> (#[trigger] final(self).users@[i]).id@ == old(
                    self,
                ).users@[i].id@ && final(self).users@[i].idnum == old(self).users@[i].idnum
                    && final(self).users@[i].username@ == old(self).users@[i].username@,
            forall|i: int|
                0 <= i < old(self).users@.len() ==> (#[trigger] final(self).users@[i]).is_online
                    == (old(self).users@[i].is_online && Self::user_has_session(
                    final(self).sessions@,
                    old(self).users@[i].id@,
                )),
            final(self).same_but_sessions(*old(self)),
            final(self).next_event == old(self).next_event + expired_sessions(
                old(self).sessions@,
                now,
            ).len(),
    {
        let ghost full = old(self).sessions@;
        let ghost oldevn = old(self).session_events@.len() as int;
        let n = self.sessions.len();
        let mut keep: Vec<SessionRow> = Vec::new();
        let mut i: usize = 0;
        proof {
            assert(full.skip(0) =~= full);
        }
        while i < n
            invariant
                0 <= i <= n,
                n == full.len(),
                self.sessions@ == full,
                full == old(self).sessions@,
                self.users@ == old(self).users@,
                self.same_but_sessions(*old(self)),
                old(self).wf(),
                old(self).next_event + full.len() <= u64::MAX,
                self.session_events@.len() - oldevn <= i,
                oldevn == old(self).session_events@.len(),
                self.session_events@.len() >= oldevn,
                self.session_events@.subrange(0, oldevn) == old(self).session_events@,
                live_sessions(full, now) == keep@ + live_sessions(full.skip(i as int), now),
                expired_sessions(full, now).skip(self.session_events@.len() - oldevn)
                    == expired_sessions(full.skip(i as int), now),
                expired_sessions(full, now).len() == (self.session_events@.len() - oldevn)
                    + expired_sessions(full.skip(i as int), now).len(),
                forall|k: int|
                    0 <= k < self.session_events@.len() - oldevn ==> (
                    #[trigger] self.session_events@[oldevn + k]).kind == SessionEventKind::Expired
                        && self.session_events@[oldevn + k].user_id@ == expired_sessions(
                        full,
                        now,
                    )[k].user_id@ && self.session_events@[oldevn + k].created_at == now,
                self.next_event == old(self).next_event + (self.session_events@.len() - oldevn),
            decreases n - i,
        {
            proof {
                assert(full.skip(i as int).len() > 0);
                assert(full.skip(i as int)[0] == full[i as int]);
                assert(full.skip(i as int).drop_first() =~= full.skip(i as int + 1));
            }
            let live_row = self.sessions[i].expires_at > now;
            if live_row {
                let row = clone_session(&self.sessions[i]);
                keep.push(row);
                proof {
                    assert(live_sessions(full.skip(i as int), now) =~= seq![full[i as int]]
                        + live_sessions(full.skip(i as int + 1), now));
                    assert(keep@ + live_sessions(full.skip(i as int + 1), now) =~= keep@.drop_last()
                        + live_sessions(full.skip(i as int), now));
                }
            } else {
                let uid = self.sessions[i].user_id.clone();
                let ev_id = self.next_event;
                self.session_events.push(
                    SessionEventRow {
                        id: ev_id,
                        user_id: uid,
                        kind: SessionEventKind::Expired,
                        created_at: now,
                    },
                );
                self.next_event = ev_id + 1;
                proof {
                    let ec = self.session_events@.len() - oldevn;
                    let ex = expired_sessions(full, now);
                    assert(expired_sessions(full.skip(i as int), now) =~= seq![full[i as int]]
                        + expired_sessions(full.skip(i as int + 1), now));
                    assert(ex.skip(ec - 1)[0] == ex[ec - 1]);
                    assert(ex[ec - 1] == full[i as int]);
                    assert(ex.skip(ec) =~= ex.skip(ec - 1).drop_first());
                    assert(ex.skip(ec) =~= expired_sessions(full.skip(i as int + 1), now));
                    assert(self.session_events@.subrange(0, oldevn) =~= old(
                        self,
                    ).session_events@);
                }
            }
            i = i + 1;
        }
        proof {
            assert(full.skip(n as int) =~= Seq::<SessionRow>::empty());
            assert(live_sessions(full, now) =~= keep@);
            assert(expired_sessions(full, now).len() == self.session_events@.len() - oldevn);
        }
        self.sessions = keep;
        let m = self.users.len();
        let mut ui: usize = 0;
        while ui < m
            invariant
                0 <= ui <= m,
                m == self.users@.len(),
                self.users@.len() == old(self).users@.len(),
                old(self).wf(),
                self.sessions@ == live_sessions(full, now),
                full == old(self).sessions@,
                oldevn == old(self).session_events@.len(),
                self.same_but_sessions(*old(self)),
                self.session_events@.len() == oldevn + expired_sessions(full, now).len(),
                self.session_events@.subrange(0, oldevn) == old(self).session_events@,
                forall|k: int|
                    0 <= k < expired_sessions(full, now).len() ==> (
                    #[trigger] self.session_events@[oldevn + k]).kind == SessionEventKind::Expired
                        && self.session_events@[oldevn + k].user_id@ == expired_sessions(
                        full,
                        now,
                    )[k].user_id@ && self.session_events@[oldevn + k].created_at == now,
                self.next_event == old(self).next_event + expired_sessions(full, now).len(),
                forall|j: int|
                    0 <= j < m ==> (#[trigger] self.users@[j]).id@ == old(self).users@[j].id@
                        && self.users@[j].idnum == old(self).users@[j].idnum
                        && self.users@[j].username@ == old(self).users@[j].username@,
                forall|j: int|
                    ui <= j < m ==> (#[trigger] self.users@[j]).is_online == old(
                        self,
                    ).users@[j].is_online,
                forall|j: int|
                    0 <= j < ui ==> (#[trigger] self.users@[j]).is_online == (old(
                        self,
                    ).users@[j].is_online && Self::user_has_session(
                        self.sessions@,
                        old(self).users@[j].id@,
                    )),
            decreases m - ui,
        {
            let uid = self.users[ui].id.clone();
            let still_on = self.any_session_for(uid.as_str());
            if !still_on {
                let off_row = UserRow {
                    idnum: self.users[ui].idnum,
                    id: self.users[ui].id.clone(),
                    username: self.users[ui].username.clone(),
                    is_online: false,
                };
                self.users[ui] = off_row;
            }
            ui = ui + 1;
        }
        proof {
            lemma_live_sessions_subset(full, now);
            lemma_live_sessions_distinct(full, now);
            let nu = self.users@;
            let ou = old(self).users@;
            let nsq = self.sessions@;
            assert forall|a: int, b: int| 0 <= a < b < nu.len() implies (#[trigger] nu[a].id@)
                != (#[trigger] nu[b].id@) by {
                assert(nu[a].id@ == ou[a].id@ && nu[b].id@ == ou[b].id@);
            }
            assert forall|a: int, b: int| 0 <= a < b < nu.len() implies (#[trigger] nu[a].username@)
                != (#[trigger] nu[b].username@) by {
                assert(nu[a].username@ == ou[a].username@ && nu[b].username@ == ou[b].username@);
            }
            assert forall|a: int| 0 <= a < nsq.len() implies (#[trigger] nsq[a].expires_at)
                > nsq[a].created_at && user_with_id(nu, nsq[a].user_id@) by {
                let j = choose|j: int| 0 <= j < full.len() && nsq[a] == full[j];
                assert(user_with_id(ou, full[j].user_id@));
                let w = choose|w: int| 0 <= w < ou.len() && #[trigger] ou[w].id@ == full[j].user_id@;
                assert(nu[w].id@ == nsq[a].user_id@);
            }
            assert forall|a: int| 0 <= a < self.members@.len() implies user_with_id(
                nu,
                (#[trigger] self.members@[a].user_id@),
            ) by {
                assert(user_with_id(ou, self.members@[a].user_id@));
                let w = choose|w: int|
                    0 <= w < ou.len() && #[trigger] ou[w].id@ == self.members@[a].user_id@;
                assert(nu[w].id@ == self.members@[a].user_id@);
            }
        }
    }
}

} // verus!
