//! The messaging engine: chat identifiers, encrypted message storage,
//! authorised retrieval in chronological order, and bulk deletion.
use vstd::prelude::*;

use crate::crypto::{spec_derive_chat_key, derive_chat_key, views_of};
use crate::envelope::{seal_message, open_message, fresh_gcm_nonce, sealed_shape, is_envelope};
use crate::lex::{lex_le, str_le, lemma_lex_le_total, lemma_lex_le_antisymmetric};
use crate::model::{
    group_with_id, is_member, user_named, user_with_id, user_index_named, user_index_with_id,
    live_token, msg_before, msgs_sorted, MessageRow, ServerState, ServiceError, UserRow,
};
use crate::textnum::{dec_digits_i64, fmt_i64};
use vstd::utf8::encode_utf8;

verus! {

/// The chat identifier of the 1:1 conversation between two users: the two
/// ids in their natural order, so both sides name the same chat.
pub open spec fn private_chat_id(a: Seq<char>, b: Seq<char>) -> Seq<char> {
    if lex_le(a, b) {
        "private:"@ + a + "-"@ + b
    } else {
        "private:"@ + b + "-"@ + a
    }
}

/// The chat identifier of a group conversation.
pub open spec fn group_chat_id(gid: Seq<char>) -> Seq<char> {
    "group:"@ + gid
}

/// The private chat identifier does not depend on the order of the two
/// user ids.
pub proof fn lemma_private_chat_id_symmetric(a: Seq<char>, b: Seq<char>)
    ensures
        private_chat_id(a, b) == private_chat_id(b, a),
{
    lemma_lex_le_total(a, b);
    if lex_le(a, b) && lex_le(b, a) {
        lemma_lex_le_antisymmetric(a, b);
    }
}

/// Builds the private chat identifier for two user ids.
pub fn make_private_chat_id(a: &str, b: &str) -> (r: String)
    ensures
        r@ == private_chat_id(a@, b@),
{
    let mut r = String::from_str("private:");
    if str_le(a, b) {
        r.append(a);
        r.append("-");
        r.append(b);
    } else {
        r.append(b);
        r.append("-");
        r.append(a);
    }
    r
}

/// Builds the group chat identifier for a group id.
pub fn make_group_chat_id(gid: &str) -> (r: String)
    ensures
        r@ == group_chat_id(gid@),
{
    let mut r = String::from_str("group:");
    r.append(gid);
    r
}

/// The rows of one chat, in stored order.
pub open spec fn rows_of(msgs: Seq<MessageRow>, cid: Seq<char>) -> Seq<MessageRow>
    decreases msgs.len(),
{
    if msgs.len() == 0 {
        msgs
    } else if msgs[0].chat_id@ == cid {
        seq![msgs[0]] + rows_of(msgs.drop_first(), cid)
    } else {
        rows_of(msgs.drop_first(), cid)
    }
}

/// The rows of every other chat, in stored order.
pub open spec fn rows_not_of(msgs: Seq<MessageRow>, cid: Seq<char>) -> Seq<MessageRow>
    decreases msgs.len(),
{
    if msgs.len() == 0 {
        msgs
    } else if msgs[0].chat_id@ == cid {
        rows_not_of(msgs.drop_first(), cid)
    } else {
        seq![msgs[0]] + rows_not_of(msgs.drop_first(), cid)
    }
}

/// Every selected row is one of the original rows, belongs to the chat, and
/// selection keeps the stored order of any sorted table.
pub proof fn lemma_rows_of_subset(msgs: Seq<MessageRow>, cid: Seq<char>)
    ensures
        forall|a: int|
            0 <= a < rows_of(msgs, cid).len() ==> exists|j: int|
                0 <= j < msgs.len() && (#[trigger] rows_of(msgs, cid)[a]) == msgs[j],
        rows_of(msgs, cid).len() <= msgs.len(),
        forall|a: int|
            0 <= a < rows_of(msgs, cid).len() ==> (#[trigger] rows_of(msgs, cid)[a]).chat_id@
                == cid,
    decreases msgs.len(),
{
    if msgs.len() > 0 {
        let rest = msgs.drop_first();
        lemma_rows_of_subset(rest, cid);
        let sel = rows_of(msgs, cid);
        let sr = rows_of(rest, cid);
        assert forall|a: int| 0 <= a < sel.len() implies exists|j: int|
            0 <= j < msgs.len() && (#[trigger] sel[a]) == msgs[j] by {
            if msgs[0].chat_id@ == cid {
                if a == 0 {
                    assert(sel[0] == msgs[0]);
                } else {
                    assert(sel[a] == sr[a - 1]);
                    let j = choose|j: int| 0 <= j < rest.len() && sr[a - 1] == rest[j];
                    assert(rest[j] == msgs[j + 1]);
                }
            } else {
                assert(sel[a] == sr[a]);
                let j = choose|j: int| 0 <= j < rest.len() && sr[a] == rest[j];
                assert(rest[j] == msgs[j + 1]);
            }
        }
        assert forall|a: int| 0 <= a < sel.len() implies (#[trigger] sel[a]).chat_id@ == cid by {
            if msgs[0].chat_id@ == cid {
                if a > 0 {
                    assert(sel[a] == sr[a - 1]);
                }
            } else {
                assert(sel[a] == sr[a]);
            }
        }
    }
}

/// Selecting the rows of one chat from a table in `(sent_at, id)` order
/// returns them in that same order: what is read comes back in the order it
/// was stored.
pub proof fn lemma_rows_of_sorted(msgs: Seq<MessageRow>, cid: Seq<char>)
    requires
        msgs_sorted(msgs),
    ensures
        forall|a: int, b: int|
            0 <= a < b < rows_of(msgs, cid).len() ==> msg_before(
                #[trigger] rows_of(msgs, cid)[a],
                #[trigger] rows_of(msgs, cid)[b],
            ),
    decreases msgs.len(),
{
    if msgs.len() > 0 {
        let rest = msgs.drop_first();
        assert forall|i: int, j: int| 0 <= i < j < rest.len() implies msg_before(
            #[trigger] rest[i],
            #[trigger] rest[j],
        ) by {
            assert(rest[i] == msgs[i + 1] && rest[j] == msgs[j + 1]);
        }
        lemma_rows_of_sorted(rest, cid);
        lemma_rows_of_subset(rest, cid);
        let sel = rows_of(msgs, cid);
        let sr = rows_of(rest, cid);
        assert forall|a: int, b: int| 0 <= a < b < sel.len() implies msg_before(
            #[trigger] sel[a],
            #[trigger] sel[b],
        ) by {
            if msgs[0].chat_id@ == cid {
                if a == 0 {
                    assert(sel[b] == sr[b - 1]);
                    let j = choose|j: int| 0 <= j < rest.len() && sr[b - 1] == rest[j];
                    assert(rest[j] == msgs[j + 1]);
                    assert(msg_before(msgs[0], msgs[j + 1]));
                } else {
                    assert(sel[a] == sr[a - 1] && sel[b] == sr[b - 1]);
                }
            } else {
                assert(sel[a] == sr[a] && sel[b] == sr[b]);
            }
        }
    }
}

/// Copies a message row.
fn clone_message(m: &MessageRow) -> (r: MessageRow)
    ensures
        r == *m,
{
    let r = MessageRow {
        id: m.id,
        chat_id: m.chat_id.clone(),
        sender_id: m.sender_id.clone(),
        body: m.body.clone(),
        sent_at: m.sent_at,
    };
    r
}

impl ServerState {
    /// Inserts a message row for a chat, keeping the table in
    /// `(sent_at, id)` order; returns the id assigned to the row.
    pub fn store_message(&mut self, chat_id: String, sender_id: String, body: String, now: i64)
        -> (r: u64)
        requires
            old(self).wf(),
            old(self).next_message < u64::MAX,
        ensures
            final(self).wf(),
            r == old(self).next_message,
            final(self).next_message == old(self).next_message + 1,
            final(self).messages@.len() == old(self).messages@.len() + 1,
            exists|p: int|
                #![trigger final(self).messages@[p]]
                {
                    &&& 0 <= p <= old(self).messages@.len()
                    &&& (forall|j: int|
                        0 <= j < p ==> final(self).messages@[j] == old(self).messages@[j])
                    &&& (forall|j: int|
                        p < j < final(self).messages@.len() ==> final(self).messages@[j] == old(
                            self,
                        ).messages@[j - 1])
                    &&& final(self).messages@[p].id == old(self).next_message
                    &&& final(self).messages@[p].chat_id@ == chat_id@
                    &&& final(self).messages@[p].sender_id@ == sender_id@
                    &&& final(self).messages@[p].body@ == body@
                    &&& final(self).messages@[p].sent_at == now
                },
            rows_of(final(self).messages@, chat_id@).len() > 0,
            final(self).same_but_messages(*old(self)),
    {
        let id = self.next_message;
        let n = self.messages.len();
        let p = self.find_insert_pos(now, id);
        let new_row = MessageRow { id, chat_id, sender_id, body, sent_at: now };
        self.messages.insert(p, new_row);
        self.next_message = id + 1;
        proof {
            let nm = self.messages@;
            let om = old(self).messages@;
            let pi = p as int;
            let row = nm[pi];
            assert(row.id == id && row.sent_at == now);
            assert forall|a: int, b: int| 0 <= a < b < nm.len() implies msg_before(
                #[trigger] nm[a],
                #[trigger] nm[b],
            ) by {
                if a == pi {
                    assert(nm[b] == om[b - 1]);
                    if pi < n as int {
                        assert(!(om[pi].sent_at < now || (om[pi].sent_at == now && om[pi].id
                            < id)));
                        assert(om[pi].id < old(self).next_message);
                        assert(msg_before(row, om[pi]));
                        if b - 1 > pi {
                            assert(msg_before(om[pi], om[b - 1]));
                        }
                    }
                } else if b == pi {
                    assert(nm[a] == om[a]);
                    assert(msg_before(om[a], row));
                } else if a < pi && b > pi {
                    assert(nm[a] == om[a] && nm[b] == om[b - 1]);
                    if b - 1 > a {
                        assert(msg_before(om[a], om[b - 1]));
                    }
                } else if b < pi {
                    assert(nm[a] == om[a] && nm[b] == om[b]);
                } else {
                    assert(nm[a] == om[a - 1] && nm[b] == om[b - 1]);
                }
            }
            assert forall|a: int| 0 <= a < nm.len() implies (#[trigger] nm[a]).id
                < self.next_message by {
                if a < pi {
                    assert(nm[a] == om[a]);
                } else if a > pi {
                    assert(nm[a] == om[a - 1]);
                }
            }
            lemma_rows_of_member(nm, row.chat_id@, pi);
        }
        id
    }

    /// First position whose row does not come before a new row stamped
    /// `(now, id)`.
    fn find_insert_pos(&self, now: i64, id: u64) -> (p: usize)
        ensures
            p <= self.messages@.len(),
            forall|j: int|
                0 <= j < p ==> (#[trigger] self.messages@[j]).sent_at < now || (
                self.messages@[j].sent_at == now && self.messages@[j].id < id),
            p < self.messages@.len() ==> !(self.messages@[p as int].sent_at < now || (
            self.messages@[p as int].sent_at == now && self.messages@[p as int].id < id)),
    {
        let n = self.messages.len();
        let mut p: usize = 0;
        while p < n
            invariant
                0 <= p <= n,
                n == self.messages@.len(),
                forall|j: int|
                    0 <= j < p ==> (#[trigger] self.messages@[j]).sent_at < now || (
                    self.messages@[j].sent_at == now && self.messages@[j].id < id),
            decreases n - p,
        {
            let m_sent = self.messages[p].sent_at;
            let m_id = self.messages[p].id;
            if !(m_sent < now || (m_sent == now && m_id < id)) {
                return p;
            }
            p = p + 1;
        }
        p
    }

    /// All fields but the message table and its counter coincide.
    pub open spec fn same_but_messages(self, other: ServerState) -> bool {
        &&& self.users@ == other.users@
        &&& self.creds@ == other.creds@
        &&& self.sessions@ == other.sessions@
        &&& self.session_events@ == other.session_events@
        &&& self.friend_requests@ == other.friend_requests@
        &&& self.groups@ == other.groups@
        &&& self.members@ == other.members@
        &&& self.invites@ == other.invites@
        &&& self.next_user == other.next_user
        &&& self.next_group == other.next_group
        &&& self.next_invite == other.next_invite
        &&& self.next_event == other.next_event
    }
}

/// What a read displays as the sender: the stored username when the sender
/// id resolves, the raw id otherwise.
pub open spec fn display_of(users: Seq<UserRow>, sender: Seq<char>) -> Seq<char> {
    if user_with_id(users, sender) {
        users[user_index_with_id(users, sender)].username@
    } else {
        sender
    }
}

/// One formatted message line.
pub open spec fn message_line(ts: i64, sender: Seq<char>, text: Seq<char>) -> Seq<char> {
    "["@ + dec_digits_i64(ts as int) + "] "@ + sender + ": "@ + text
}

/// The literal a read shows in place of an envelope that fails to open.
pub open spec fn decryption_failed_text() -> Seq<char> {
    "[DECRYPTION FAILED]"@
}

/// How displayed text relates to a stored body under a chat key: a legacy
/// body is shown as it stands; a body sealed from some plaintext shows
/// exactly that plaintext; an envelope that opens under the key shows what
/// it opens to; and an envelope that does not open shows the literal
/// placeholder.
pub open spec fn opened_relation(body: Seq<char>, key: Seq<u8>, text: Seq<char>) -> bool {
    &&& !is_envelope(body) ==> text == body
    &&& forall|p: Seq<u8>, nonce: Seq<u8>|
        #[trigger] sealed_shape(body, key, p, nonce) ==> encode_utf8(text) == p
    &&& (is_envelope(body) && (exists|p: Seq<u8>|
        crate::envelope::env_opens_to(body, key, p))) ==> crate::envelope::env_opens_to(
        body,
        key,
        encode_utf8(text),
    )
    &&& (is_envelope(body) && !(exists|p: Seq<u8>| crate::envelope::env_opens_to(body, key, p)))
        ==> text == decryption_failed_text()
}

/// One displayed line reflects one stored row: the timestamp and sender
/// are rendered exactly, and the text is the row's body resolved under the
/// chat key.
pub open spec fn line_matches(
    line: Seq<char>,
    row: MessageRow,
    users: Seq<UserRow>,
    key: Seq<u8>,
    enable: bool,
    text: Seq<char>,
) -> bool {
    &&& line == message_line(row.sent_at, display_of(users, row.sender_id@), text)
    &&& (enable ==> opened_relation(row.body@, key, text))
    &&& (!enable ==> text == row.body@)
}

/// Some display text makes the line reflect the row.
pub open spec fn line_ok(
    line: Seq<char>,
    row: MessageRow,
    users: Seq<UserRow>,
    key: Seq<u8>,
    enable: bool,
) -> bool {
    exists|t: Seq<char>| line_matches(line, row, users, key, enable, t)
}

/// The new message table extends the old one by one row with the given
/// fields, inserted at some position.
pub open spec fn message_stored(
    om: Seq<MessageRow>,
    nm: Seq<MessageRow>,
    cid: Seq<char>,
    sender: Seq<char>,
    sent_at: i64,
    id: u64,
    body: Seq<char>,
) -> bool {
    exists|p: int|
        #![trigger nm[p]]
        {
            &&& 0 <= p <= om.len()
            &&& nm.len() == om.len() + 1
            &&& (forall|j: int| 0 <= j < p ==> nm[j] == om[j])
            &&& (forall|j: int| p < j < nm.len() ==> nm[j] == om[j - 1])
            &&& nm[p].id == id
            &&& nm[p].chat_id@ == cid
            &&& nm[p].sender_id@ == sender
            &&& nm[p].sent_at == sent_at
            &&& nm[p].body@ == body
        }
}

/// The user ids of a group's members, in stored order.
pub open spec fn member_ids(members: Seq<crate::model::MemberRow>, gid: Seq<char>) -> Seq<
    Seq<char>,
>
    decreases members.len(),
{
    if members.len() == 0 {
        Seq::empty()
    } else if members[0].group_id@ == gid {
        seq![members[0].user_id@] + member_ids(members.drop_first(), gid)
    } else {
        member_ids(members.drop_first(), gid)
    }
}

/// Renders one message line.
pub fn format_message_line(ts: i64, sender: &str, text: &str) -> (r: String)
    ensures
        r@ == message_line(ts, sender@, text@),
{
    let mut r = String::from_str("[");
    let ds = fmt_i64(ts);
    r.append(ds.as_str());
    r.append("] ");
    r.append(sender);
    r.append(": ");
    r.append(text);
    proof {
        assert(r@ =~= message_line(ts, sender@, text@));
    }
    r
}

impl ServerState {
    /// Resolves a sender id for display, as a read does.
    pub fn display_name(&self, sender: &str) -> (r: String)
        requires
            self.wf(),
        ensures
            r@ == display_of(self.users@, sender@),
    {
        match self.find_user_by_id(sender) {
            Some(ui) => {
                proof {
                    let ci = user_index_with_id(self.users@, sender@);
                    assert(self.users@[ui as int].id@ == sender@);
                    if ci != ui {
                        assert(self.users@[ci].id@ == self.users@[ui as int].id@);
                    }
                }
                self.users[ui].username.clone()
            },
            None => String::from_str(sender),
        }
    }

    /// Collects the user ids of a group's members.
    pub fn collect_member_ids(&self, gid: &str) -> (r: Vec<String>)
        ensures
            views_of(r@) == member_ids(self.members@, gid@),
    {
        let ghost full = self.members@;
        let mut out: Vec<String> = Vec::new();
        let mut i: usize = 0;
        proof {
            assert(full.skip(0) =~= full);
            assert(views_of(out@) =~= Seq::<Seq<char>>::empty());
            assert(member_ids(full, gid@) =~= views_of(out@) + member_ids(full.skip(0), gid@));
        }
        while i < self.members.len()
            invariant
                0 <= i <= self.members@.len(),
                full == self.members@,
                member_ids(full, gid@) == views_of(out@) + member_ids(full.skip(i as int), gid@),
            decreases self.members@.len() - i,
        {
            proof {
                assert(full.skip(i as int)[0] == full[i as int]);
                assert(full.skip(i as int).drop_first() =~= full.skip(i as int + 1));
            }
            if crate::lex::str_eq(self.members[i].group_id.as_str(), gid) {
                let ghost pre = out@;
                out.push(self.members[i].user_id.clone());
                proof {
                    assert(views_of(out@) =~= views_of(pre).push(full[i as int].user_id@));
                    assert(member_ids(full.skip(i as int), gid@) =~= seq![full[i as int].user_id@]
                        + member_ids(full.skip(i as int + 1), gid@));
                    assert(views_of(pre) + member_ids(full.skip(i as int), gid@) =~= views_of(out@)
                        + member_ids(full.skip(i as int + 1), gid@));
                }
            } else {
                proof {
                    assert(member_ids(full.skip(i as int), gid@) =~= member_ids(
                        full.skip(i as int + 1),
                        gid@,
                    ));
                }
            }
            i = i + 1;
        }
        proof {
            assert(full.skip(self.members@.len() as int) =~= Seq::<crate::model::MemberRow>::empty());
            assert(member_ids(full.skip(self.members@.len() as int), gid@) =~= Seq::<Seq<char>>::empty());
            assert(member_ids(full, gid@) =~= views_of(out@));
        }
        out
    }
}

/// The new table stores, at some position, a row whose body is the message
/// sealed under the chat key with the given nonce.
pub open spec fn sealed_stored(
    om: Seq<MessageRow>,
    nm: Seq<MessageRow>,
    cid: Seq<char>,
    sender: Seq<char>,
    sent_at: i64,
    id: u64,
    key: Seq<u8>,
    msg: Seq<char>,
    nonce: Seq<u8>,
) -> bool {
    &&& nonce.len() == 12
    &&& sealed_shape(
        crate::envelope::envelope_of(
            crate::envelope::b64_of(crate::crypto::aead_seal_of(key, nonce, encode_utf8(msg))),
            crate::envelope::b64_of(nonce),
        ),
        key,
        encode_utf8(msg),
        nonce,
    )
    &&& message_stored(
        om,
        nm,
        cid,
        sender,
        sent_at,
        id,
        crate::envelope::envelope_of(
            crate::envelope::b64_of(crate::crypto::aead_seal_of(key, nonce, encode_utf8(msg))),
            crate::envelope::b64_of(nonce),
        ),
    )
}

/// Sends a private message: resolves the recipient, enforces the length
/// bound, derives the deterministic chat key over the two participants,
/// seals the payload and stores the row.
#[verifier::rlimit(100)]
pub fn send_private_message(
    state: &mut ServerState,
    session_token: &str,
    to_username: &str,
    message: &str,
    now: i64,
    max_message_length: usize,
    enable_encryption: bool,
    master_key: &str,
) -> (r: Result<(), ServiceError>)
    requires
        old(state).wf(),
        old(state).next_message < u64::MAX,
        max_message_length <= 0x100_0000,
    ensures
        final(state).wf(),
        (r matches Err(e) && e == ServiceError::InvalidSession) <==> !live_token(
            old(state).sessions@,
            session_token@,
            now,
        ),
        (r matches Err(e) && e == ServiceError::UserNotFound) <==> (live_token(
            old(state).sessions@,
            session_token@,
            now,
        ) && !user_named(old(state).users@, to_username@)),
        (r matches Err(e) && e == ServiceError::MessageTooLong) <==> (live_token(
            old(state).sessions@,
            session_token@,
            now,
        ) && user_named(old(state).users@, to_username@) && message@.len()
            > max_message_length),
        r is Ok <==> (live_token(old(state).sessions@, session_token@, now) && user_named(
            old(state).users@,
            to_username@,
        ) && message@.len() <= max_message_length),
        r is Err ==> final(state).same_as(*old(state)),
        r is Ok ==> ({
            let sender = crate::model::token_user(old(state).sessions@, session_token@, now)
                ->Some_0;
            let to_id = old(state).users@[user_index_named(
                old(state).users@,
                to_username@,
            )].id@;
            let cid = private_chat_id(sender, to_id);
            let key = spec_derive_chat_key(seq![sender, to_id], master_key@);
            &&& final(state).next_message == old(state).next_message + 1
            &&& final(state).same_but_messages(*old(state))
            &&& (!enable_encryption ==> message_stored(
                old(state).messages@,
                final(state).messages@,
                cid,
                sender,
                now,
                old(state).next_message,
                message@,
            ))
            &&& (enable_encryption ==> exists|nonce: Seq<u8>| #[trigger] sealed_stored(
                old(state).messages@,
                final(state).messages@,
                cid,
                sender,
                now,
                old(state).next_message,
                key,
                message@,
                nonce,
            ))
        }),
{
    let sender = match state.validate(session_token, now) {
        Some(uid) => uid,
        None => {
            return Err(ServiceError::InvalidSession);
        },
    };
    let to_idx = match state.find_user_by_name(to_username) {
        Some(i) => i,
        None => {
            return Err(ServiceError::UserNotFound);
        },
    };
    proof {
        let ci = user_index_named(state.users@, to_username@);
        assert(state.users@[to_idx as int].username@ == to_username@);
        if ci != to_idx {
            assert(state.users@[ci].username@ == state.users@[to_idx as int].username@);
        }
    }
    if message.unicode_len() > max_message_length {
        return Err(ServiceError::MessageTooLong);
    }
    let to_id = state.users[to_idx].id.clone();
    let cid = make_private_chat_id(sender.as_str(), to_id.as_str());
    let ghost mut g_nonce: Seq<u8> = Seq::empty();
    let ghost g_key: Seq<u8> = spec_derive_chat_key(seq![sender@, to_id@], master_key@);
    let body: String = if enable_encryption {
        let mut participants: Vec<String> = Vec::new();
        participants.push(sender.clone());
        participants.push(to_id.clone());
        proof {
            assert(views_of(participants@) =~= seq![sender@, to_id@]);
        }
        let key = derive_chat_key(&participants, master_key);
        let nonce = fresh_gcm_nonce();
        proof {
            g_nonce = nonce@;
            assert(key@ == g_key);
            crate::envelope::lemma_encode_utf8_len(message@);
        }
        seal_message(message, &key, &nonce)
    } else {
        String::from_str(message)
    };
    let ghost g_body = body@;
    let ghost om = state.messages@;
    let ghost g_id = state.next_message;
    let ghost g_sender = sender@;
    let ghost g_cid = cid@;
    state.store_message(cid, sender, body, now);
    proof {
        let sender_l = crate::model::token_user(
            old(state).sessions@,
            session_token@,
            now,
        )->Some_0;
        let to_id_l = old(state).users@[user_index_named(
            old(state).users@,
            to_username@,
        )].id@;
        let cid_l = private_chat_id(sender_l, to_id_l);
        let key_l = spec_derive_chat_key(seq![sender_l, to_id_l], master_key@);
        assert(sender_l == g_sender);
        assert(to_id_l == to_id@);
        assert(cid_l == g_cid);
        assert(key_l == g_key);
        assert(message_stored(om, state.messages@, cid_l, sender_l, now, g_id, g_body));
        if enable_encryption {
            assert(sealed_stored(
                om,
                state.messages@,
                cid_l,
                sender_l,
                now,
                g_id,
                key_l,
                message@,
                g_nonce,
            ));
        }
    }
    Ok(())
}

/// Every kept row is one of the original rows and belongs to another chat;
/// removal keeps a sorted table sorted.
pub proof fn lemma_rows_not_of_subset(msgs: Seq<MessageRow>, cid: Seq<char>)
    ensures
        forall|a: int|
            0 <= a < rows_not_of(msgs, cid).len() ==> exists|j: int|
                0 <= j < msgs.len() && (#[trigger] rows_not_of(msgs, cid)[a]) == msgs[j],
        rows_not_of(msgs, cid).len() <= msgs.len(),
        forall|a: int|
            0 <= a < rows_not_of(msgs, cid).len() ==> (#[trigger] rows_not_of(
                msgs,
                cid,
            )[a]).chat_id@ != cid,
    decreases msgs.len(),
{
    if msgs.len() > 0 {
        let rest = msgs.drop_first();
        lemma_rows_not_of_subset(rest, cid);
        let sel = rows_not_of(msgs, cid);
        let sr = rows_not_of(rest, cid);
        assert forall|a: int| 0 <= a < sel.len() implies exists|j: int|
            0 <= j < msgs.len() && (#[trigger] sel[a]) == msgs[j] by {
            if msgs[0].chat_id@ != cid {
                if a == 0 {
                    assert(sel[0] == msgs[0]);
                } else {
                    assert(sel[a] == sr[a - 1]);
                    let j = choose|j: int| 0 <= j < rest.len() && sr[a - 1] == rest[j];
                    assert(rest[j] == msgs[j + 1]);
                }
            } else {
                assert(sel[a] == sr[a]);
                let j = choose|j: int| 0 <= j < rest.len() && sr[a] == rest[j];
                assert(rest[j] == msgs[j + 1]);
            }
        }
        assert forall|a: int| 0 <= a < sel.len() implies (#[trigger] sel[a]).chat_id@ != cid by {
            if msgs[0].chat_id@ != cid {
                if a > 0 {
                    assert(sel[a] == sr[a - 1]);
                }
            } else {
                assert(sel[a] == sr[a]);
            }
        }
    }
}

/// Removal keeps the `(sent_at, id)` order of the table.
pub proof fn lemma_rows_not_of_sorted(msgs: Seq<MessageRow>, cid: Seq<char>)
    requires
        msgs_sorted(msgs),
    ensures
        msgs_sorted(rows_not_of(msgs, cid)),
    decreases msgs.len(),
{
    if msgs.len() > 0 {
        let rest = msgs.drop_first();
        assert forall|i: int, j: int| 0 <= i < j < rest.len() implies msg_before(
            #[trigger] rest[i],
            #[trigger] rest[j],
        ) by {
            assert(rest[i] == msgs[i + 1] && rest[j] == msgs[j + 1]);
        }
        lemma_rows_not_of_sorted(rest, cid);
        lemma_rows_not_of_subset(rest, cid);
        let sel = rows_not_of(msgs, cid);
        let sr = rows_not_of(rest, cid);
        assert forall|a: int, b: int| 0 <= a < b < sel.len() implies msg_before(
            #[trigger] sel[a],
            #[trigger] sel[b],
        ) by {
            if msgs[0].chat_id@ != cid {
                if a == 0 {
                    assert(sel[b] == sr[b - 1]);
                    let j = choose|j: int| 0 <= j < rest.len() && sr[b - 1] == rest[j];
                    assert(rest[j] == msgs[j + 1]);
                    assert(msg_before(msgs[0], msgs[j + 1]));
                } else {
                    assert(sel[a] == sr[a - 1] && sel[b] == sr[b - 1]);
                }
            } else {
                assert(sel[a] == sr[a] && sel[b] == sr[b]);
            }
        }
    }
}

/// Sends a group message: resolves the group, requires membership, derives
/// the chat key over the member set, seals the payload and stores the row.
#[verifier::rlimit(100)]
pub fn send_group_message(
    state: &mut ServerState,
    session_token: &str,
    group_id: &str,
    message: &str,
    now: i64,
    max_message_length: usize,
    enable_encryption: bool,
    master_key: &str,
) -> (r: Result<(), ServiceError>)
    requires
        old(state).wf(),
        old(state).next_message < u64::MAX,
        max_message_length <= 0x100_0000,
    ensures
        final(state).wf(),
        (r matches Err(e) && e == ServiceError::InvalidSession) <==> !live_token(
            old(state).sessions@,
            session_token@,
            now,
        ),
        (r matches Err(e) && e == ServiceError::GroupNotFound) <==> (live_token(
            old(state).sessions@,
            session_token@,
            now,
        ) && !group_with_id(old(state).groups@, group_id@)),
        (r matches Err(e) && e == ServiceError::NotAMember) <==> (live_token(
            old(state).sessions@,
            session_token@,
            now,
        ) && group_with_id(old(state).groups@, group_id@) && !is_member(
            old(state).members@,
            group_id@,
            crate::model::token_user(old(state).sessions@, session_token@, now)->Some_0,
        )),
        (r matches Err(e) && e == ServiceError::MessageTooLong) <==> (live_token(
            old(state).sessions@,
            session_token@,
            now,
        ) && group_with_id(old(state).groups@, group_id@) && is_member(
            old(state).members@,
            group_id@,
            crate::model::token_user(old(state).sessions@, session_token@, now)->Some_0,
        ) && message@.len() > max_message_length),
        r is Err ==> final(state).same_as(*old(state)),
        r is Ok <==> (live_token(old(state).sessions@, session_token@, now) && group_with_id(
            old(state).groups@,
            group_id@,
        ) && is_member(
            old(state).members@,
            group_id@,
            crate::model::token_user(old(state).sessions@, session_token@, now)->Some_0,
        ) && message@.len() <= max_message_length),
        r is Ok ==> ({
            let sender = crate::model::token_user(old(state).sessions@, session_token@, now)
                ->Some_0;
            let cid = group_chat_id(group_id@);
            let key = spec_derive_chat_key(
                member_ids(old(state).members@, group_id@),
                master_key@,
            );
            &&& final(state).next_message == old(state).next_message + 1
            &&& final(state).same_but_messages(*old(state))
            &&& (!enable_encryption ==> message_stored(
                old(state).messages@,
                final(state).messages@,
                cid,
                sender,
                now,
                old(state).next_message,
                message@,
            ))
            &&& (enable_encryption ==> exists|nonce: Seq<u8>| #[trigger] sealed_stored(
                old(state).messages@,
                final(state).messages@,
                cid,
                sender,
                now,
                old(state).next_message,
                key,
                message@,
                nonce,
            ))
        }),
{
    let sender = match state.validate(session_token, now) {
        Some(uid) => uid,
        None => {
            return Err(ServiceError::InvalidSession);
        },
    };
    if state.find_group_by_id(group_id).is_none() {
        return Err(ServiceError::GroupNotFound);
    }
    if !state.check_member(group_id, sender.as_str()) {
        return Err(ServiceError::NotAMember);
    }
    if message.unicode_len() > max_message_length {
        return Err(ServiceError::MessageTooLong);
    }
    let cid = make_group_chat_id(group_id);
    let ghost mut g_nonce: Seq<u8> = Seq::empty();
    let ghost g_key: Seq<u8> = spec_derive_chat_key(
        member_ids(state.members@, group_id@),
        master_key@,
    );
    let body: String = if enable_encryption {
        let participants = state.collect_member_ids(group_id);
        let key = derive_chat_key(&participants, master_key);
        let nonce = fresh_gcm_nonce();
        proof {
            g_nonce = nonce@;
            assert(key@ == g_key);
            crate::envelope::lemma_encode_utf8_len(message@);
        }
        seal_message(message, &key, &nonce)
    } else {
        String::from_str(message)
    };
    let ghost g_body = body@;
    let ghost om = state.messages@;
    let ghost g_id = state.next_message;
    let ghost g_sender = sender@;
    let ghost g_cid = cid@;
    state.store_message(cid, sender, body, now);
    proof {
        let sender_l = crate::model::token_user(
            old(state).sessions@,
            session_token@,
            now,
        )->Some_0;
        let cid_l = group_chat_id(group_id@);
        let key_l = spec_derive_chat_key(member_ids(old(state).members@, group_id@), master_key@);
        assert(sender_l == g_sender);
        assert(cid_l == g_cid);
        assert(key_l == g_key);
        assert(message_stored(om, state.messages@, cid_l, sender_l, now, g_id, g_body));
        if enable_encryption {
            assert(sealed_stored(
                om,
                state.messages@,
                cid_l,
                sender_l,
                now,
                g_id,
                key_l,
                message@,
                g_nonce,
            ));
        }
    }
    Ok(())
}

/// Resolves a stored body to its display text: opened under the key when
/// encryption is on (with the placeholder where opening fails), passed
/// through otherwise.
fn open_for_display(body: &str, key: &Vec<u8>, enable: bool) -> (text: String)
    requires
        enable ==> key@.len() == 32,
    ensures
        enable ==> opened_relation(body@, key@, text@),
        !enable ==> text@ == body@,
{
    if enable {
        match open_message(body, key) {
            Ok(m) => {
                proof {
                    assert(opened_relation(body@, key@, m@));
                }
                m
            },
            Err(_) => {
                let placeholder = String::from_str("[DECRYPTION FAILED]");
                proof {
                    assert forall|p: Seq<u8>, nonce: Seq<u8>| !(#[trigger] sealed_shape(
                        body@,
                        key@,
                        p,
                        nonce,
                    )) by {}
                    assert(opened_relation(body@, key@, placeholder@));
                }
                placeholder
            },
        }
    } else {
        body.to_owned()
    }
}

impl ServerState {
    /// Formats every row of one chat, in stored order: decrypts under the
    /// chat key when encryption is on, shows the placeholder where a stored
    /// envelope cannot be opened, and passes legacy rows through.
    #[verifier::loop_isolation(false)]
    fn read_chat_lines(&self, cid: &str, key: &Vec<u8>, enable: bool) -> (lines: Vec<String>)
        requires
            self.wf(),
            enable ==> key@.len() == 32,
        ensures
            lines@.len() == rows_of(self.messages@, cid@).len(),
            forall|i: int|
                #![trigger lines@[i]]
                0 <= i < lines@.len() ==> line_ok(
                    (lines@[i])@,
                    rows_of(self.messages@, cid@)[i],
                    self.users@,
                    key@,
                    enable,
                ),
    {
        let ghost full = self.messages@;
        let ghost sel = rows_of(full, cid@);
        let mut lines: Vec<String> = Vec::new();
        let mut i: usize = 0;
        proof {
            assert(full.skip(0) =~= full);
            assert(sel.skip(0) =~= sel);
        }
        while i < self.messages.len()
            invariant
                0 <= i <= self.messages@.len(),
                self.wf(),
                full == self.messages@,
                sel == rows_of(full, cid@),
                lines@.len() + rows_of(full.skip(i as int), cid@).len() == sel.len(),
                sel.skip(lines@.len() as int) == rows_of(full.skip(i as int), cid@),
                forall|k: int|
                    #![trigger lines@[k]]
                    0 <= k < lines@.len() ==> line_ok(
                        (lines@[k])@,
                        sel[k],
                        self.users@,
                        key@,
                        enable,
                    ),
            decreases self.messages@.len() - i,
        {
            proof {
                assert(full.skip(i as int)[0] == full[i as int]);
                assert(full.skip(i as int).drop_first() =~= full.skip(i as int + 1));
            }
            if crate::lex::str_eq(self.messages[i].chat_id.as_str(), cid) {
                let ghost kk = lines@.len() as int;
                let ghost cur = full[i as int];
                proof {
                    assert(rows_of(full.skip(i as int), cid@) =~= seq![full[i as int]] + rows_of(
                        full.skip(i as int + 1),
                        cid@,
                    ));
                    assert(sel.skip(kk)[0] == sel[kk]);
                    assert(sel[kk] == cur);
                    assert(sel.skip(kk).drop_first() =~= sel.skip(kk + 1));
                }
                let text = open_for_display(self.messages[i].body.as_str(), key, enable);
                let name = self.display_name(self.messages[i].sender_id.as_str());
                let line = format_message_line(
                    self.messages[i].sent_at,
                    name.as_str(),
                    text.as_str(),
                );
                let ghost pre_lines = lines@;
                lines.push(line);
                proof {
                    assert(lines@ =~= pre_lines.push(line));
                    assert((lines@[kk])@ == message_line(
                        sel[kk].sent_at,
                        display_of(self.users@, sel[kk].sender_id@),
                        text@,
                    ));
                    assert forall|k: int| #![trigger lines@[k]] 0 <= k < lines@.len() implies line_ok(
                        (lines@[k])@,
                        sel[k],
                        self.users@,
                        key@,
                        enable,
                    ) by {
                        if k < kk {
                            assert(lines@[k] == pre_lines[k]);
                        } else {
                            assert(lines@[k] == line);
                            assert(line_matches(
                                (lines@[k])@,
                                sel[k],
                                self.users@,
                                key@,
                                enable,
                                text@,
                            ));
                        }
                    }
                }
            } else {
                proof {
                    assert(rows_of(full.skip(i as int), cid@) =~= rows_of(
                        full.skip(i as int + 1),
                        cid@,
                    ));
                }
            }
            i = i + 1;
        }
        proof {
            assert(full.skip(self.messages@.len() as int) =~= Seq::<MessageRow>::empty());
        }
        lines
    }

    /// Removes every row of one chat.
    fn purge_chat(&mut self, cid: &str)
        requires
            old(self).wf(),
        ensures
            final(self).wf(),
            final(self).messages@ == rows_not_of(old(self).messages@, cid@),
            final(self).same_but_messages(*old(self)),
            final(self).next_message == old(self).next_message,
            rows_of(final(self).messages@, cid@).len() == 0,
    {
        let ghost full = self.messages@;
        let mut keep: Vec<MessageRow> = Vec::new();
        let mut i: usize = 0;
        proof {
            assert(full.skip(0) =~= full);
        }
        while i < self.messages.len()
            invariant
                0 <= i <= self.messages@.len(),
                old(self).wf(),
                self.same_as(*old(self)),
                full == self.messages@,
                rows_not_of(full, cid@) == keep@ + rows_not_of(full.skip(i as int), cid@),
            decreases self.messages@.len() - i,
        {
            proof {
                assert(full.skip(i as int)[0] == full[i as int]);
                assert(full.skip(i as int).drop_first() =~= full.skip(i as int + 1));
            }
            if !crate::lex::str_eq(self.messages[i].chat_id.as_str(), cid) {
                let row = clone_message(&self.messages[i]);
                keep.push(row);
                proof {
                    assert(rows_not_of(full.skip(i as int), cid@) =~= seq![full[i as int]]
                        + rows_not_of(full.skip(i as int + 1), cid@));
                    assert(keep@ + rows_not_of(full.skip(i as int + 1), cid@)
                        =~= keep@.drop_last() + rows_not_of(full.skip(i as int), cid@));
                }
            } else {
                proof {
                    assert(rows_not_of(full.skip(i as int), cid@) =~= rows_not_of(
                        full.skip(i as int + 1),
                        cid@,
                    ));
                }
            }
            i = i + 1;
        }
        proof {
            assert(full.skip(self.messages@.len() as int) =~= Seq::<MessageRow>::empty());
            assert(rows_not_of(full, cid@) =~= keep@);
        }
        self.messages = keep;
        proof {
            lemma_rows_not_of_subset(full, cid@);
            lemma_rows_not_of_sorted(full, cid@);
            let nm = self.messages@;
            assert forall|a: int| 0 <= a < nm.len() implies (#[trigger] nm[a]).id
                < self.next_message by {
                let j = choose|j: int| 0 <= j < full.len() && nm[a] == full[j];
            }
            if rows_of(nm, cid@).len() > 0 {
                lemma_rows_of_subset(nm, cid@);
                let j = choose|j: int| 0 <= j < nm.len() && rows_of(nm, cid@)[0] == nm[j];
                assert(nm[j].chat_id@ == cid@);
            }
        }
    }
}

/// Reads the 1:1 conversation with another user: the caller's own lines and
/// the peer's, in `(sent_at, id)` order.
pub fn get_private_messages(
    state: &ServerState,
    session_token: &str,
    other_username: &str,
    now: i64,
    enable_encryption: bool,
    master_key: &str,
) -> (r: Result<Vec<String>, ServiceError>)
    requires
        state.wf(),
    ensures
        (r matches Err(e) && e == ServiceError::InvalidSession) <==> !live_token(
            state.sessions@,
            session_token@,
            now,
        ),
        (r matches Err(e) && e == ServiceError::UserNotFound) <==> (live_token(
            state.sessions@,
            session_token@,
            now,
        ) && !user_named(state.users@, other_username@)),
        r is Ok <==> (live_token(state.sessions@, session_token@, now) && user_named(
            state.users@,
            other_username@,
        )),
        r matches Ok(lines) ==> ({
            let me = crate::model::token_user(state.sessions@, session_token@, now)->Some_0;
            let other = state.users@[user_index_named(state.users@, other_username@)].id@;
            let cid = private_chat_id(me, other);
            let key = spec_derive_chat_key(seq![me, other], master_key@);
            let sel = rows_of(state.messages@, cid);
            &&& lines@.len() == sel.len()
            &&& (forall|a: int, b: int|
                0 <= a < b < sel.len() ==> msg_before(#[trigger] sel[a], #[trigger] sel[b]))
            &&& (forall|i: int|
                #![trigger lines@[i]]
                0 <= i < lines@.len() ==> line_ok(
                    (lines@[i])@,
                    sel[i],
                    state.users@,
                    key,
                    enable_encryption,
                ))
        }),
{
    let me = match state.validate(session_token, now) {
        Some(uid) => uid,
        None => {
            return Err(ServiceError::InvalidSession);
        },
    };
    let other_idx = match state.find_user_by_name(other_username) {
        Some(i) => i,
        None => {
            return Err(ServiceError::UserNotFound);
        },
    };
    proof {
        let ci = user_index_named(state.users@, other_username@);
        assert(state.users@[other_idx as int].username@ == other_username@);
        if ci != other_idx {
            assert(state.users@[ci].username@ == state.users@[other_idx as int].username@);
        }
    }
    let other_id = state.users[other_idx].id.clone();
    let cid = make_private_chat_id(me.as_str(), other_id.as_str());
    let mut participants: Vec<String> = Vec::new();
    participants.push(me.clone());
    participants.push(other_id.clone());
    proof {
        assert(views_of(participants@) =~= seq![me@, other_id@]);
    }
    let key = derive_chat_key(&participants, master_key);
    let lines = state.read_chat_lines(cid.as_str(), &key, enable_encryption);
    proof {
        lemma_rows_of_sorted(state.messages@, cid@);
    }
    Ok(lines)
}

/// Reads a group conversation; only members may read.
pub fn get_group_messages(
    state: &ServerState,
    session_token: &str,
    group_id: &str,
    now: i64,
    enable_encryption: bool,
    master_key: &str,
) -> (r: Result<Vec<String>, ServiceError>)
    requires
        state.wf(),
    ensures
        (r matches Err(e) && e == ServiceError::InvalidSession) <==> !live_token(
            state.sessions@,
            session_token@,
            now,
        ),
        (r matches Err(e) && e == ServiceError::GroupNotFound) <==> (live_token(
            state.sessions@,
            session_token@,
            now,
        ) && !group_with_id(state.groups@, group_id@)),
        (r matches Err(e) && e == ServiceError::NotAMember) <==> (live_token(
            state.sessions@,
            session_token@,
            now,
        ) && group_with_id(state.groups@, group_id@) && !is_member(
            state.members@,
            group_id@,
            crate::model::token_user(state.sessions@, session_token@, now)->Some_0,
        )),
        r is Ok <==> (live_token(state.sessions@, session_token@, now) && group_with_id(
            state.groups@,
            group_id@,
        ) && is_member(
            state.members@,
            group_id@,
            crate::model::token_user(state.sessions@, session_token@, now)->Some_0,
        )),
        r matches Ok(lines) ==> ({
            let cid = group_chat_id(group_id@);
            let key = spec_derive_chat_key(member_ids(state.members@, group_id@), master_key@);
            let sel = rows_of(state.messages@, cid);
            &&& lines@.len() == sel.len()
            &&& (forall|a: int, b: int|
                0 <= a < b < sel.len() ==> msg_before(#[trigger] sel[a], #[trigger] sel[b]))
            &&& (forall|i: int|
                #![trigger lines@[i]]
                0 <= i < lines@.len() ==> line_ok(
                    (lines@[i])@,
                    sel[i],
                    state.users@,
                    key,
                    enable_encryption,
                ))
        }),
{
    let me = match state.validate(session_token, now) {
        Some(uid) => uid,
        None => {
            return Err(ServiceError::InvalidSession);
        },
    };
    if state.find_group_by_id(group_id).is_none() {
        return Err(ServiceError::GroupNotFound);
    }
    if !state.check_member(group_id, me.as_str()) {
        return Err(ServiceError::NotAMember);
    }
    let cid = make_group_chat_id(group_id);
    let participants = state.collect_member_ids(group_id);
    let key = derive_chat_key(&participants, master_key);
    let lines = state.read_chat_lines(cid.as_str(), &key, enable_encryption);
    proof {
        lemma_rows_of_sorted(state.messages@, cid@);
    }
    Ok(lines)
}

/// Deletes every stored message of the 1:1 conversation with another user.
pub fn delete_private_messages(
    state: &mut ServerState,
    session_token: &str,
    other_username: &str,
    now: i64,
) -> (r: Result<(), ServiceError>)
    requires
        old(state).wf(),
    ensures
        final(state).wf(),
        (r matches Err(e) && e == ServiceError::InvalidSession) <==> !live_token(
            old(state).sessions@,
            session_token@,
            now,
        ),
        (r matches Err(e) && e == ServiceError::UserNotFound) <==> (live_token(
            old(state).sessions@,
            session_token@,
            now,
        ) && !user_named(old(state).users@, other_username@)),
        r is Ok <==> (live_token(old(state).sessions@, session_token@, now) && user_named(
            old(state).users@,
            other_username@,
        )),
        r is Err ==> final(state).same_as(*old(state)),
        r is Ok ==> ({
            let me = crate::model::token_user(old(state).sessions@, session_token@, now)
                ->Some_0;
            let other = old(state).users@[user_index_named(
                old(state).users@,
                other_username@,
            )].id@;
            let cid = private_chat_id(me, other);
            &&& final(state).messages@ == rows_not_of(old(state).messages@, cid)
            &&& rows_of(final(state).messages@, cid).len() == 0
            &&& final(state).same_but_messages(*old(state))
        }),
{
    let me = match state.validate(session_token, now) {
        Some(uid) => uid,
        None => {
            return Err(ServiceError::InvalidSession);
        },
    };
    let other_idx = match state.find_user_by_name(other_username) {
        Some(i) => i,
        None => {
            return Err(ServiceError::UserNotFound);
        },
    };
    proof {
        let ci = user_index_named(state.users@, other_username@);
        assert(state.users@[other_idx as int].username@ == other_username@);
        if ci != other_idx {
            assert(state.users@[ci].username@ == state.users@[other_idx as int].username@);
        }
    }
    let other_id = state.users[other_idx].id.clone();
    let cid = make_private_chat_id(me.as_str(), other_id.as_str());
    state.purge_chat(cid.as_str());
    Ok(())
}

/// Deletes every stored message of a group chat; only members may delete.
pub fn delete_group_messages(
    state: &mut ServerState,
    session_token: &str,
    group_id: &str,
    now: i64,
) -> (r: Result<(), ServiceError>)
    requires
        old(state).wf(),
    ensures
        final(state).wf(),
        (r matches Err(e) && e == ServiceError::InvalidSession) <==> !live_token(
            old(state).sessions@,
            session_token@,
            now,
        ),
        (r matches Err(e) && e == ServiceError::NotAMember) <==> (live_token(
            old(state).sessions@,
            session_token@,
            now,
        ) && !is_member(
            old(state).members@,
            group_id@,
            crate::model::token_user(old(state).sessions@, session_token@, now)->Some_0,
        )),
        r is Ok <==> (live_token(old(state).sessions@, session_token@, now) && is_member(
            old(state).members@,
            group_id@,
            crate::model::token_user(old(state).sessions@, session_token@, now)->Some_0,
        )),
        r is Err ==> final(state).same_as(*old(state)),
        r is Ok ==> ({
            let cid = group_chat_id(group_id@);
            &&& final(state).messages@ == rows_not_of(old(state).messages@, cid)
            &&& rows_of(final(state).messages@, cid).len() == 0
            &&& final(state).same_but_messages(*old(state))
        }),
{
    let me = match state.validate(session_token, now) {
        Some(uid) => uid,
        None => {
            return Err(ServiceError::InvalidSession);
        },
    };
    if !state.check_member(group_id, me.as_str()) {
        return Err(ServiceError::NotAMember);
    }
    let cid = make_group_chat_id(group_id);
    state.purge_chat(cid.as_str());
    Ok(())
}

/// A chat with a row at some index has at least one selected row.
proof fn lemma_rows_of_member(msgs: Seq<MessageRow>, cid: Seq<char>, i: int)
    requires
        0 <= i < msgs.len(),
        msgs[i].chat_id@ == cid,
    ensures
        rows_of(msgs, cid).len() > 0,
    decreases i,
{
    if msgs[0].chat_id@ == cid {
    } else {
        assert(msgs.drop_first()[i - 1] == msgs[i]);
        lemma_rows_of_member(msgs.drop_first(), cid, i - 1);
    }
}

} // verus!
