//! The command dispatcher: a line-framed text protocol. One request per
//! line, one response per line; message retrieval answers with a multi-line
//! body closed by an empty line.
use vstd::prelude::*;

use crate::lex::str_eq;
use crate::model::{ServerState, ServiceError};
use crate::textnum::{dec_digits, fmt_u64};

verus! {

/// Server-side configuration, resolved from the environment by the host
/// program.
pub struct ServerConfig {
    /// Longest accepted message text, in characters.
    pub max_message_length: usize,
    /// Lifetime of a fresh session, in seconds; at least one.
    pub session_ttl: i64,
    /// Gates payload encryption.
    pub enable_encryption: bool,
    /// Seed of the chat-key derivation.
    pub master_key: String,
}

/// The server core: the store and the configuration. One instance serves
/// every connection; each command is dispatched against it.
pub struct Server {
    pub state: ServerState,
    pub config: ServerConfig,
}

/// An `OK: `-prefixed single-line response.
pub open spec fn resp_ok(payload: Seq<char>) -> Seq<char> {
    "OK: "@ + payload
}

/// An `ERR: `-prefixed single-line response.
pub open spec fn resp_err(reason: Seq<char>) -> Seq<char> {
    "ERR: "@ + reason
}

/// The reason text of each error, as surfaced to clients. The length bound
/// of `MessageTooLong` is rendered into the text.
pub open spec fn err_text(e: ServiceError, max_len: nat) -> Seq<char> {
    match e {
        ServiceError::InvalidSession => "Invalid or expired session"@,
        ServiceError::UsernameTaken => "Username already taken"@,
        ServiceError::WeakCredential => "Invalid username or password"@,
        ServiceError::InvalidCredential => "Invalid credentials"@,
        ServiceError::UserNotFound => "User not found"@,
        ServiceError::GroupNotFound => "Group not found"@,
        ServiceError::NotAMember => "Not a group member"@,
        ServiceError::MessageTooLong => "Message too long (max "@ + dec_digits(max_len)
            + " chars)"@,
        ServiceError::AlreadyPending => "Request already pending"@,
        ServiceError::AlreadyFriends => "Already friends"@,
        ServiceError::AlreadyMember => "Already a group member"@,
        ServiceError::SelfNotAllowed => "Cannot target yourself"@,
        ServiceError::NoSuchRequest => "No such request"@,
        ServiceError::DecryptionFailed => "Decryption failed"@,
        ServiceError::StoreUnavailable => "Storage unavailable"@,
        ServiceError::Unknown => "Unknown or invalid command"@,
    }
}

/// Renders `ERR: <reason>` for an error.
pub fn render_err(e: ServiceError, max_len: usize) -> (r: String)
    ensures
        r@ == resp_err(err_text(e, max_len as nat)),
{
    let mut r = String::from_str("ERR: ");
    match e {
        ServiceError::InvalidSession => r.append("Invalid or expired session"),
        ServiceError::UsernameTaken => r.append("Username already taken"),
        ServiceError::WeakCredential => r.append("Invalid username or password"),
        ServiceError::InvalidCredential => r.append("Invalid credentials"),
        ServiceError::UserNotFound => r.append("User not found"),
        ServiceError::GroupNotFound => r.append("Group not found"),
        ServiceError::NotAMember => r.append("Not a group member"),
        ServiceError::MessageTooLong => {
            r.append("Message too long (max ");
            let d = fmt_u64(max_len as u64);
            r.append(d.as_str());
            r.append(" chars)");
        },
        ServiceError::AlreadyPending => r.append("Request already pending"),
        ServiceError::AlreadyFriends => r.append("Already friends"),
        ServiceError::AlreadyMember => r.append("Already a group member"),
        ServiceError::SelfNotAllowed => r.append("Cannot target yourself"),
        ServiceError::NoSuchRequest => r.append("No such request"),
        ServiceError::DecryptionFailed => r.append("Decryption failed"),
        ServiceError::StoreUnavailable => r.append("Storage unavailable"),
        ServiceError::Unknown => r.append("Unknown or invalid command"),
    }
    proof {
        assert(r@ =~= resp_err(err_text(e, max_len as nat)));
    }
    r
}

/// Renders `OK: <payload>`.
pub fn render_ok(payload: &str) -> (r: String)
    ensures
        r@ == resp_ok(payload@),
{
    let mut r = String::from_str("OK: ");
    r.append(payload);
    r
}

/// Comma-separated rendering of a list of names.
pub open spec fn csv_of(items: Seq<Seq<char>>) -> Seq<char>
    decreases items.len(),
{
    if items.len() == 0 {
        Seq::empty()
    } else if items.len() == 1 {
        items[0]
    } else {
        items[0] + ", "@ + csv_of(items.drop_first())
    }
}

/// Renders a comma-separated list.
pub fn render_csv(items: &Vec<String>) -> (r: String)
    ensures
        r@ == csv_of(crate::crypto::views_of(items@)),
{
    let ghost full = crate::crypto::views_of(items@);
    let mut r = String::new();
    let mut i: usize = 0;
    proof {
        assert(full.skip(0) =~= full);
        assert(csv_of(full) =~= r@ + csv_of(full.skip(0)));
    }
    while i < items.len()
        invariant
            0 <= i <= items@.len(),
            full == crate::crypto::views_of(items@),
            csv_of(full) == r@ + csv_of(full.skip(i as int)),
        decreases items@.len() - i,
    {
        proof {
            assert(full.skip(i as int)[0] == full[i as int]);
            assert(full.skip(i as int).drop_first() =~= full.skip(i as int + 1));
        }
        let ghost pre = r@;
        r.append(items[i].as_str());
        if i + 1 < items.len() {
            r.append(", ");
            proof {
                assert(full.skip(i as int).len() > 1);
                assert(csv_of(full.skip(i as int)) =~= full[i as int] + ", "@ + csv_of(
                    full.skip(i as int + 1),
                ));
                assert(pre + csv_of(full.skip(i as int)) =~= r@ + csv_of(full.skip(i as int + 1)));
            }
        } else {
            proof {
                assert(full.skip(i as int).len() == 1);
                assert(csv_of(full.skip(i as int)) =~= full[i as int]);
                assert(full.skip(i as int + 1) =~= Seq::<Seq<char>>::empty());
                assert(pre + csv_of(full.skip(i as int)) =~= r@ + csv_of(full.skip(i as int + 1)));
            }
        }
        i = i + 1;
    }
    proof {
        assert(full.skip(items@.len() as int) =~= Seq::<Seq<char>>::empty());
        assert(csv_of(full) =~= r@);
    }
    r
}

/// The multi-line body: a header line, one line per message, each closed by
/// a newline. The host closes the batch with one more empty line.
pub open spec fn lines_block(lines: Seq<Seq<char>>) -> Seq<char>
    decreases lines.len(),
{
    if lines.len() == 0 {
        Seq::empty()
    } else {
        lines[0] + "\n"@ + lines_block(lines.drop_first())
    }
}

pub open spec fn multiline_response(lines: Seq<Seq<char>>) -> Seq<char> {
    "OK: Messages:\n"@ + lines_block(lines)
}

/// Renders the multi-line message response.
pub fn render_multiline(lines: &Vec<String>) -> (r: String)
    ensures
        r@ == multiline_response(crate::crypto::views_of(lines@)),
{
    let ghost full = crate::crypto::views_of(lines@);
    let mut r = String::from_str("OK: Messages:\n");
    let mut i: usize = 0;
    proof {
        assert(full.skip(0) =~= full);
        assert(multiline_response(full) =~= r@ + lines_block(full.skip(0)));
    }
    while i < lines.len()
        invariant
            0 <= i <= lines@.len(),
            full == crate::crypto::views_of(lines@),
            multiline_response(full) == r@ + lines_block(full.skip(i as int)),
        decreases lines@.len() - i,
    {
        proof {
            assert(full.skip(i as int)[0] == full[i as int]);
            assert(full.skip(i as int).drop_first() =~= full.skip(i as int + 1));
        }
        let ghost pre = r@;
        r.append(lines[i].as_str());
        r.append("\n");
        proof {
            assert(lines_block(full.skip(i as int)) =~= full[i as int] + "\n"@ + lines_block(
                full.skip(i as int + 1),
            ));
            assert(pre + lines_block(full.skip(i as int)) =~= r@ + lines_block(
                full.skip(i as int + 1),
            ));
        }
        i = i + 1;
    }
    proof {
        assert(full.skip(lines@.len() as int) =~= Seq::<Seq<char>>::empty());
        assert(multiline_response(full) =~= r@);
    }
    r
}

/// A whitespace character of the line protocol.
pub open spec fn is_space(c: char) -> bool {
    c == ' ' || c == '\t' || c == '\r' || c == '\n'
}

/// The words of a line after the characters of `s` are still to be read,
/// with `cur` the non-space run read so far and `out` the words already
/// closed: a space closes the run, anything else extends it.
pub open spec fn split_state(s: Seq<char>, cur: Seq<char>, out: Seq<Seq<char>>) -> Seq<Seq<char>>
    decreases s.len(),
{
    if s.len() == 0 {
        if cur.len() > 0 {
            out.push(cur)
        } else {
            out
        }
    } else if is_space(s[0]) {
        if cur.len() > 0 {
            split_state(s.drop_first(), Seq::empty(), out.push(cur))
        } else {
            split_state(s.drop_first(), Seq::empty(), out)
        }
    } else {
        split_state(s.drop_first(), cur.push(s[0]), out)
    }
}

/// The whitespace-separated words of a line: its maximal non-space runs, in
/// order.
pub open spec fn words_of(s: Seq<char>) -> Seq<Seq<char>> {
    split_state(s, Seq::empty(), Seq::empty())
}

/// Splits a request line into exactly its whitespace-separated words, in
/// order; each word is a non-empty run free of spaces.
pub fn split_words(line: &str) -> (r: Vec<String>)
    ensures
        crate::crypto::views_of(r@) == words_of(line@),
        forall|i: int|
            0 <= i < r@.len() ==> (#[trigger] r@[i])@.len() > 0 && (forall|j: int|
                0 <= j < r@[i]@.len() ==> !is_space(#[trigger] r@[i]@[j])),
{
    let n = line.unicode_len();
    let mut out: Vec<String> = Vec::new();
    let mut cur: Vec<char> = Vec::new();
    let mut i: usize = 0;
    proof {
        assert(line@.skip(0) =~= line@);
        assert(crate::crypto::views_of(out@) =~= Seq::<Seq<char>>::empty());
        assert(cur@ =~= Seq::<char>::empty());
    }
    while i < n
        invariant
            0 <= i <= n,
            n == line@.len(),
            words_of(line@) == split_state(
                line@.skip(i as int),
                cur@,
                crate::crypto::views_of(out@),
            ),
            forall|k: int|
                0 <= k < out@.len() ==> (#[trigger] out@[k])@.len() > 0 && (forall|j: int|
                    0 <= j < out@[k]@.len() ==> !is_space(#[trigger] out@[k]@[j])),
            forall|j: int| 0 <= j < cur@.len() ==> !is_space(#[trigger] cur@[j]),
        decreases n - i,
    {
        proof {
            assert(line@.skip(i as int)[0] == line@[i as int]);
            assert(line@.skip(i as int).drop_first() =~= line@.skip(i as int + 1));
        }
        let c = line.get_char(i);
        let ghost cur0 = cur@;
        let ghost out0 = crate::crypto::views_of(out@);
        let space = c == ' ' || c == '\t' || c == '\r' || c == '\n';
        if space {
            if cur.len() > 0 {
                let ghost pre = out@;
                let w = crate::textnum::chars_to_string(&cur);
                let ghost wv = w@;
                out.push(w);
                cur = Vec::new();
                proof {
                    assert(crate::crypto::views_of(out@) =~= crate::crypto::views_of(pre).push(
                        wv,
                    ));
                    assert(cur@ =~= Seq::<char>::empty());
                    assert(split_state(line@.skip(i as int), cur0, out0) == split_state(
                        line@.skip(i as int + 1),
                        cur@,
                        crate::crypto::views_of(out@),
                    ));
                }
            } else {
                proof {
                    assert(cur@ =~= Seq::<char>::empty());
                    assert(split_state(line@.skip(i as int), cur0, out0) == split_state(
                        line@.skip(i as int + 1),
                        cur@,
                        crate::crypto::views_of(out@),
                    ));
                }
            }
        } else {
            cur.push(c);
            proof {
                assert(cur@ == cur0.push(line@[i as int]));
                assert(split_state(line@.skip(i as int), cur0, out0) == split_state(
                    line@.skip(i as int + 1),
                    cur@,
                    crate::crypto::views_of(out@),
                ));
            }
        }
        i = i + 1;
    }
    proof {
        assert(line@.skip(n as int) =~= Seq::<char>::empty());
    }
    if cur.len() > 0 {
        let ghost pre = out@;
        let w = crate::textnum::chars_to_string(&cur);
        let ghost wv = w@;
        out.push(w);
        proof {
            assert(crate::crypto::views_of(out@) =~= crate::crypto::views_of(pre).push(wv));
        }
    }
    out
}

/// Joins words with single spaces: how a trailing free-text argument is
/// reassembled.
pub open spec fn joined_with_spaces(items: Seq<Seq<char>>) -> Seq<char>
    decreases items.len(),
{
    if items.len() == 0 {
        Seq::empty()
    } else if items.len() == 1 {
        items[0]
    } else {
        items[0] + " "@ + joined_with_spaces(items.drop_first())
    }
}

/// Joins the words from `from` on with single spaces.
pub fn join_from(args: &Vec<String>, from: usize) -> (r: String)
    requires
        from <= args@.len(),
    ensures
        r@ == joined_with_spaces(crate::crypto::views_of(args@).skip(from as int)),
{
    let ghost full = crate::crypto::views_of(args@).skip(from as int);
    let mut r = String::new();
    let mut i: usize = from;
    proof {
        assert(full.skip(0) =~= full);
        assert(joined_with_spaces(full) =~= r@ + joined_with_spaces(full.skip(0)));
    }
    while i < args.len()
        invariant
            from <= i <= args@.len(),
            full == crate::crypto::views_of(args@).skip(from as int),
            joined_with_spaces(full) == r@ + joined_with_spaces(
                full.skip(i as int - from as int),
            ),
        decreases args@.len() - i,
    {
        proof {
            assert(full.skip(i as int - from as int)[0] == full[i as int - from as int]);
            assert(full[i as int - from as int] == crate::crypto::views_of(args@)[i as int]);
            assert(full.skip(i as int - from as int).drop_first() =~= full.skip(
                i as int + 1 - from as int,
            ));
        }
        let ghost pre = r@;
        r.append(args[i].as_str());
        if i + 1 < args.len() {
            r.append(" ");
            proof {
                assert(full.skip(i as int - from as int).len() > 1);
                assert(joined_with_spaces(full.skip(i as int - from as int)) =~= full[i as int
                    - from as int] + " "@ + joined_with_spaces(full.skip(i as int + 1 - from as int)));
                assert(pre + joined_with_spaces(full.skip(i as int - from as int)) =~= r@
                    + joined_with_spaces(full.skip(i as int + 1 - from as int)));
            }
        } else {
            proof {
                assert(full.skip(i as int - from as int).len() == 1);
                assert(joined_with_spaces(full.skip(i as int - from as int)) =~= full[i as int
                    - from as int]);
                assert(full.skip(i as int + 1 - from as int) =~= Seq::<Seq<char>>::empty());
                assert(pre + joined_with_spaces(full.skip(i as int - from as int)) =~= r@
                    + joined_with_spaces(full.skip(i as int + 1 - from as int)));
            }
        }
        i = i + 1;
    }
    proof {
        assert(full.skip(args@.len() as int - from as int) =~= Seq::<Seq<char>>::empty());
        assert(joined_with_spaces(full) =~= r@);
    }
    r
}

/// `id:name` rendering of group entries.
pub open spec fn group_entry_texts(entries: Seq<(Seq<char>, Seq<char>)>) -> Seq<Seq<char>>
    decreases entries.len(),
{
    if entries.len() == 0 {
        Seq::empty()
    } else {
        seq![entries[0].0 + ":"@ + entries[0].1] + group_entry_texts(entries.drop_first())
    }
}

/// `<id>:<group> from:<user>` rendering of invite entries.
pub open spec fn invite_entry_texts(entries: Seq<(u64, Seq<char>, Seq<char>)>) -> Seq<Seq<char>>
    decreases entries.len(),
{
    if entries.len() == 0 {
        Seq::empty()
    } else {
        seq![
            dec_digits(entries[0].0 as nat) + ":"@ + entries[0].1 + " from:"@ + entries[0].2,
        ] + invite_entry_texts(entries.drop_first())
    }
}

/// `user: message` rendering of request pairs.
pub open spec fn pair_texts(entries: Seq<(Seq<char>, Seq<char>)>) -> Seq<Seq<char>>
    decreases entries.len(),
{
    if entries.len() == 0 {
        Seq::empty()
    } else {
        seq![entries[0].0 + ": "@ + entries[0].1] + pair_texts(entries.drop_first())
    }
}

/// Pipe-separated rendering of a list.
pub open spec fn piped_of(items: Seq<Seq<char>>) -> Seq<char>
    decreases items.len(),
{
    if items.len() == 0 {
        Seq::empty()
    } else if items.len() == 1 {
        items[0]
    } else {
        items[0] + " | "@ + piped_of(items.drop_first())
    }
}

/// Renders group entries as `id:name` strings.
fn render_group_entries(entries: &Vec<(String, String)>) -> (r: Vec<String>)
    ensures
        crate::crypto::views_of(r@) == group_entry_texts(crate::users::pair_views(entries@)),
{
    let ghost full = crate::users::pair_views(entries@);
    let mut out: Vec<String> = Vec::new();
    let mut i: usize = 0;
    proof {
        assert(full.skip(0) =~= full);
        assert(group_entry_texts(full) =~= crate::crypto::views_of(out@) + group_entry_texts(
            full.skip(0),
        ));
    }
    while i < entries.len()
        invariant
            0 <= i <= entries@.len(),
            full == crate::users::pair_views(entries@),
            group_entry_texts(full) == crate::crypto::views_of(out@) + group_entry_texts(
                full.skip(i as int),
            ),
        decreases entries@.len() - i,
    {
        proof {
            assert(full.skip(i as int)[0] == full[i as int]);
            assert(full.skip(i as int).drop_first() =~= full.skip(i as int + 1));
        }
        let mut t = String::new();
        t.append(entries[i].0.as_str());
        t.append(":");
        t.append(entries[i].1.as_str());
        let ghost pre = out@;
        out.push(t);
        proof {
            assert(crate::crypto::views_of(out@) =~= crate::crypto::views_of(pre).push(
                full[i as int].0 + ":"@ + full[i as int].1,
            ));
            assert(group_entry_texts(full.skip(i as int)) =~= seq![
                full[i as int].0 + ":"@ + full[i as int].1,
            ] + group_entry_texts(full.skip(i as int + 1)));
            assert(crate::crypto::views_of(pre) + group_entry_texts(full.skip(i as int))
                =~= crate::crypto::views_of(out@) + group_entry_texts(full.skip(i as int + 1)));
        }
        i = i + 1;
    }
    proof {
        assert(full.skip(entries@.len() as int) =~= Seq::<(Seq<char>, Seq<char>)>::empty());
        assert(group_entry_texts(full) =~= crate::crypto::views_of(out@));
    }
    out
}

/// Renders invite entries as `<id>:<group> from:<user>` strings.
fn render_invite_entries(entries: &Vec<(u64, String, String)>) -> (r: Vec<String>)
    ensures
        crate::crypto::views_of(r@) == invite_entry_texts(crate::groups::triple_views(entries@)),
{
    let ghost full = crate::groups::triple_views(entries@);
    let mut out: Vec<String> = Vec::new();
    let mut i: usize = 0;
    proof {
        assert(full.skip(0) =~= full);
        assert(invite_entry_texts(full) =~= crate::crypto::views_of(out@) + invite_entry_texts(
            full.skip(0),
        ));
    }
    while i < entries.len()
        invariant
            0 <= i <= entries@.len(),
            full == crate::groups::triple_views(entries@),
            invite_entry_texts(full) == crate::crypto::views_of(out@) + invite_entry_texts(
                full.skip(i as int),
            ),
        decreases entries@.len() - i,
    {
        proof {
            assert(full.skip(i as int)[0] == full[i as int]);
            assert(full.skip(i as int).drop_first() =~= full.skip(i as int + 1));
        }
        let mut t = fmt_u64(entries[i].0);
        t.append(":");
        t.append(entries[i].1.as_str());
        t.append(" from:");
        t.append(entries[i].2.as_str());
        let ghost pre = out@;
        out.push(t);
        proof {
            assert(crate::crypto::views_of(out@) =~= crate::crypto::views_of(pre).push(
                dec_digits(full[i as int].0 as nat) + ":"@ + full[i as int].1 + " from:"@
                    + full[i as int].2,
            ));
            assert(invite_entry_texts(full.skip(i as int)) =~= seq![
                dec_digits(full[i as int].0 as nat) + ":"@ + full[i as int].1 + " from:"@
                    + full[i as int].2,
            ] + invite_entry_texts(full.skip(i as int + 1)));
            assert(crate::crypto::views_of(pre) + invite_entry_texts(full.skip(i as int))
                =~= crate::crypto::views_of(out@) + invite_entry_texts(full.skip(i as int + 1)));
        }
        i = i + 1;
    }
    proof {
        assert(full.skip(entries@.len() as int) =~= Seq::<(u64, Seq<char>, Seq<char>)>::empty());
        assert(invite_entry_texts(full) =~= crate::crypto::views_of(out@));
    }
    out
}

/// Renders request pairs as `user: message` strings.
fn render_pair_entries(entries: &Vec<(String, String)>) -> (r: Vec<String>)
    ensures
        crate::crypto::views_of(r@) == pair_texts(crate::users::pair_views(entries@)),
{
    let ghost full = crate::users::pair_views(entries@);
    let mut out: Vec<String> = Vec::new();
    let mut i: usize = 0;
    proof {
        assert(full.skip(0) =~= full);
        assert(pair_texts(full) =~= crate::crypto::views_of(out@) + pair_texts(full.skip(0)));
    }
    while i < entries.len()
        invariant
            0 <= i <= entries@.len(),
            full == crate::users::pair_views(entries@),
            pair_texts(full) == crate::crypto::views_of(out@) + pair_texts(full.skip(i as int)),
        decreases entries@.len() - i,
    {
        proof {
            assert(full.skip(i as int)[0] == full[i as int]);
            assert(full.skip(i as int).drop_first() =~= full.skip(i as int + 1));
        }
        let mut t = String::new();
        t.append(entries[i].0.as_str());
        t.append(": ");
        t.append(entries[i].1.as_str());
        let ghost pre = out@;
        out.push(t);
        proof {
            assert(crate::crypto::views_of(out@) =~= crate::crypto::views_of(pre).push(
                full[i as int].0 + ": "@ + full[i as int].1,
            ));
            assert(pair_texts(full.skip(i as int)) =~= seq![full[i as int].0 + ": "@ + full[
                i as int
            ].1] + pair_texts(full.skip(i as int + 1)));
            assert(crate::crypto::views_of(pre) + pair_texts(full.skip(i as int))
                =~= crate::crypto::views_of(out@) + pair_texts(full.skip(i as int + 1)));
        }
        i = i + 1;
    }
    proof {
        assert(full.skip(entries@.len() as int) =~= Seq::<(Seq<char>, Seq<char>)>::empty());
        assert(pair_texts(full) =~= crate::crypto::views_of(out@));
    }
    out
}

/// Renders a pipe-separated list.
fn render_piped(items: &Vec<String>) -> (r: String)
    ensures
        r@ == piped_of(crate::crypto::views_of(items@)),
{
    let ghost full = crate::crypto::views_of(items@);
    let mut r = String::new();
    let mut i: usize = 0;
    proof {
        assert(full.skip(0) =~= full);
        assert(piped_of(full) =~= r@ + piped_of(full.skip(0)));
    }
    while i < items.len()
        invariant
            0 <= i <= items@.len(),
            full == crate::crypto::views_of(items@),
            piped_of(full) == r@ + piped_of(full.skip(i as int)),
        decreases items@.len() - i,
    {
        proof {
            assert(full.skip(i as int)[0] == full[i as int]);
            assert(full.skip(i as int).drop_first() =~= full.skip(i as int + 1));
        }
        let ghost pre = r@;
        r.append(items[i].as_str());
        if i + 1 < items.len() {
            r.append(" | ");
            proof {
                assert(full.skip(i as int).len() > 1);
                assert(piped_of(full.skip(i as int)) =~= full[i as int] + " | "@ + piped_of(
                    full.skip(i as int + 1),
                ));
                assert(pre + piped_of(full.skip(i as int)) =~= r@ + piped_of(
                    full.skip(i as int + 1),
                ));
            }
        } else {
            proof {
                assert(full.skip(i as int).len() == 1);
                assert(piped_of(full.skip(i as int)) =~= full[i as int]);
                assert(full.skip(i as int + 1) =~= Seq::<Seq<char>>::empty());
                assert(pre + piped_of(full.skip(i as int)) =~= r@ + piped_of(
                    full.skip(i as int + 1),
                ));
            }
        }
        i = i + 1;
    }
    proof {
        assert(full.skip(items@.len() as int) =~= Seq::<Seq<char>>::empty());
        assert(piped_of(full) =~= r@);
    }
    r
}

/// The recognised command set with its argument counts. A trailing
/// free-text argument makes the count a lower bound.
pub open spec fn recognized(cmd: Seq<char>, n: nat) -> bool {
    ||| (cmd == "/register"@ && n == 2)
    ||| (cmd == "/login"@ && n == 2)
    ||| (cmd == "/logout"@ && n == 1)
    ||| (cmd == "/validate_session"@ && n == 1)
    ||| (cmd == "/users"@ && n == 0)
    ||| (cmd == "/all_users"@ && n == 0)
    ||| (cmd == "/create_group"@ && n == 2)
    ||| (cmd == "/my_groups"@ && n == 1)
    ||| (cmd == "/invite"@ && n == 3)
    ||| (cmd == "/accept_invite"@ && n == 2)
    ||| (cmd == "/reject_invite"@ && n == 2)
    ||| (cmd == "/my_invites"@ && n == 1)
    ||| (cmd == "/join_group"@ && n == 2)
    ||| (cmd == "/leave_group"@ && n == 2)
    ||| (cmd == "/send_group_message"@ && n >= 3)
    ||| (cmd == "/send_private_message"@ && n >= 3)
    ||| (cmd == "/get_group_messages"@ && n == 2)
    ||| (cmd == "/get_private_messages"@ && n == 2)
    ||| (cmd == "/delete_group_messages"@ && n == 2)
    ||| (cmd == "/delete_private_messages"@ && n == 2)
    ||| (cmd == "/send_friend_request"@ && n >= 2)
    ||| (cmd == "/accept_friend_request"@ && n == 2)
    ||| (cmd == "/reject_friend_request"@ && n == 2)
    ||| (cmd == "/list_friends"@ && n == 1)
    ||| (cmd == "/received_friend_requests"@ && n == 1)
    ||| (cmd == "/sent_friend_requests"@ && n == 1)
    ||| (cmd == "/help"@ && n == 0)
    ||| (cmd == "/quit"@ && n == 0)
}

/// What `/register` answers and does.
pub open spec fn register_outcome(
    pre: ServerState,
    post: ServerState,
    uname: Seq<char>,
    pw: Seq<char>,
    resp: Seq<char>,
    max: nat,
) -> bool {
    &&& (resp == resp_ok("Registered"@) <==> crate::session::username_ok(uname)
        && crate::session::password_ok(pw) && !crate::model::user_named(pre.users@, uname))
    &&& (resp == resp_ok("Registered"@) ==> crate::model::user_named(post.users@, uname)
        && post.users@.len() == pre.users@.len() + 1 && post.same_but_users(pre))
    &&& (resp == resp_err(err_text(ServiceError::UsernameTaken, max)) <==> (
    crate::session::username_ok(uname) && crate::session::password_ok(pw)
        && crate::model::user_named(pre.users@, uname)))
    &&& (resp == resp_err(err_text(ServiceError::WeakCredential, max)) <==> !(
    crate::session::username_ok(uname) && crate::session::password_ok(pw)))
    &&& (resp != resp_ok("Registered"@) ==> post.same_as(pre))
}

/// What `/login` answers and does.
pub open spec fn login_outcome(
    pre: ServerState,
    post: ServerState,
    uname: Seq<char>,
    pw: Seq<char>,
    resp: Seq<char>,
    max: nat,
    now: i64,
) -> bool {
    &&& (!pre.creds_valid(uname, pw) ==> resp == resp_err(
        err_text(ServiceError::InvalidCredential, max),
    ) && post.same_as(pre))
    &&& (pre.creds_valid(uname, pw) ==> (exists|tok: Seq<char>|
        resp == resp_ok(#[trigger] ("Logged in SESSION:"@ + tok)) && crate::model::live_token(
            post.sessions@,
            tok,
            now,
        )) || (resp == resp_err(err_text(ServiceError::StoreUnavailable, max)) && post.same_as(
        pre,
    )))
}

/// What `/validate_session` answers.
pub open spec fn validate_outcome(
    pre: ServerState,
    post: ServerState,
    tok: Seq<char>,
    resp: Seq<char>,
    max: nat,
    now: i64,
) -> bool {
    &&& post.same_as(pre)
    &&& (crate::model::live_token(pre.sessions@, tok, now) ==> resp == resp_ok(
        crate::messaging::display_of(
            pre.users@,
            crate::model::token_user(pre.sessions@, tok, now)->Some_0,
        ),
    ))
    &&& (!crate::model::live_token(pre.sessions@, tok, now) ==> resp == resp_err(
        err_text(ServiceError::InvalidSession, max),
    ))
}

/// What `/logout` answers and does.
pub open spec fn logout_outcome(
    pre: ServerState,
    post: ServerState,
    tok: Seq<char>,
    resp: Seq<char>,
    max: nat,
    now: i64,
) -> bool {
    &&& (!crate::model::live_token(pre.sessions@, tok, now) ==> resp == resp_err(
        err_text(ServiceError::InvalidSession, max),
    ) && post.same_as(pre))
    &&& (crate::model::live_token(pre.sessions@, tok, now) ==> resp == resp_ok("Logged out"@)
        && !crate::model::token_present(post.sessions@, tok))
}

/// What a `/send_*` message command answers and does.
pub open spec fn send_outcome(
    pre: ServerState,
    post: ServerState,
    resp: Seq<char>,
    max: nat,
    live: bool,
    ok_cond: bool,
    not_found_err: ServiceError,
    not_found_cond: bool,
    not_member_cond: bool,
    too_long_cond: bool,
) -> bool {
    &&& (resp == resp_ok("Message sent"@) <==> ok_cond)
    &&& (resp == resp_ok("Message sent"@) ==> post.messages@.len() == pre.messages@.len() + 1
        && post.same_but_messages(pre))
    &&& (!live ==> resp == resp_err(err_text(ServiceError::InvalidSession, max)))
    &&& (not_found_cond ==> resp == resp_err(err_text(not_found_err, max)))
    &&& (not_member_cond ==> resp == resp_err(err_text(ServiceError::NotAMember, max)))
    &&& (too_long_cond ==> resp == resp_err(err_text(ServiceError::MessageTooLong, max)))
    &&& (resp != resp_ok("Message sent"@) ==> post.same_as(pre))
}

/// The two response shapes never coincide, and each prefix is cancellable.
pub proof fn lemma_response_shapes()
    ensures
        forall|a: Seq<char>, b: Seq<char>| #[trigger] resp_ok(a) != #[trigger] resp_err(b),
        forall|a: Seq<char>, b: Seq<char>| #![trigger resp_ok(a), resp_ok(b)] resp_ok(a) == resp_ok(b) ==> a == b,
        forall|a: Seq<char>, b: Seq<char>| #![trigger resp_err(a), resp_err(b)] resp_err(a) == resp_err(b) ==> a == b,
        forall|m: nat|
            err_text(ServiceError::UsernameTaken, m) != #[trigger] err_text(
                ServiceError::WeakCredential,
                m,
            ),
{
    reveal_strlit("OK: ");
    reveal_strlit("ERR: ");
    reveal_strlit("Username already taken");
    reveal_strlit("Invalid username or password");
    assert forall|a: Seq<char>, b: Seq<char>| #[trigger] resp_ok(a) != #[trigger] resp_err(
        b,
    ) by {
        assert(resp_ok(a)[0] == 'O');
        assert(resp_err(b)[0] == 'E');
    }
    assert forall|a: Seq<char>, b: Seq<char>| #![trigger resp_ok(a), resp_ok(b)] resp_ok(a)
        == resp_ok(b) implies a == b by {
        assert(resp_ok(a).skip(4) =~= a);
        assert(resp_ok(b).skip(4) =~= b);
    }
    assert forall|a: Seq<char>, b: Seq<char>| #![trigger resp_err(a), resp_err(b)] resp_err(a)
        == resp_err(b) implies a == b by {
        assert(resp_err(a).skip(5) =~= a);
        assert(resp_err(b).skip(5) =~= b);
    }
    assert forall|m: nat|
        err_text(ServiceError::UsernameTaken, m) != #[trigger] err_text(
            ServiceError::WeakCredential,
            m,
        ) by {
        assert(err_text(ServiceError::UsernameTaken, m)[0] == 'U');
        assert(err_text(ServiceError::WeakCredential, m)[0] == 'I');
    }
}

/// The command words are pairwise distinct: their lengths, and for the
/// equal-length pairs one differing character.
pub proof fn lemma_command_literals()
    ensures
        "/register"@.len() == 9,
        "/login"@.len() == 6,
        "/logout"@.len() == 7,
        "/validate_session"@.len() == 17,
        "/users"@.len() == 6,
        "/all_users"@.len() == 10,
        "/create_group"@.len() == 13,
        "/my_groups"@.len() == 10,
        "/invite"@.len() == 7,
        "/accept_invite"@.len() == 14,
        "/reject_invite"@.len() == 14,
        "/my_invites"@.len() == 11,
        "/join_group"@.len() == 11,
        "/leave_group"@.len() == 12,
        "/send_group_message"@.len() == 19,
        "/send_private_message"@.len() == 21,
        "/get_group_messages"@.len() == 19,
        "/get_private_messages"@.len() == 21,
        "/delete_group_messages"@.len() == 22,
        "/delete_private_messages"@.len() == 24,
        "/send_friend_request"@.len() == 20,
        "/accept_friend_request"@.len() == 22,
        "/reject_friend_request"@.len() == 22,
        "/list_friends"@.len() == 13,
        "/received_friend_requests"@.len() == 25,
        "/sent_friend_requests"@.len() == 21,
        "/help"@.len() == 5,
        "/quit"@.len() == 5,
        "/login"@ != "/users"@,
        "/logout"@ != "/invite"@,
        "/all_users"@ != "/my_groups"@,
        "/create_group"@ != "/list_friends"@,
        "/accept_invite"@ != "/reject_invite"@,
        "/my_invites"@ != "/join_group"@,
        "/send_group_message"@ != "/get_group_messages"@,
        "/send_private_message"@ != "/get_private_messages"@,
        "/send_private_message"@ != "/sent_friend_requests"@,
        "/get_private_messages"@ != "/sent_friend_requests"@,
        "/delete_group_messages"@ != "/accept_friend_request"@,
        "/delete_group_messages"@ != "/reject_friend_request"@,
        "/accept_friend_request"@ != "/reject_friend_request"@,
        "/help"@ != "/quit"@,
{
    reveal_strlit("/register");
    reveal_strlit("/login");
    reveal_strlit("/logout");
    reveal_strlit("/validate_session");
    reveal_strlit("/users");
    reveal_strlit("/all_users");
    reveal_strlit("/create_group");
    reveal_strlit("/my_groups");
    reveal_strlit("/invite");
    reveal_strlit("/accept_invite");
    reveal_strlit("/reject_invite");
    reveal_strlit("/my_invites");
    reveal_strlit("/join_group");
    reveal_strlit("/leave_group");
    reveal_strlit("/send_group_message");
    reveal_strlit("/send_private_message");
    reveal_strlit("/get_group_messages");
    reveal_strlit("/get_private_messages");
    reveal_strlit("/delete_group_messages");
    reveal_strlit("/delete_private_messages");
    reveal_strlit("/send_friend_request");
    reveal_strlit("/accept_friend_request");
    reveal_strlit("/reject_friend_request");
    reveal_strlit("/list_friends");
    reveal_strlit("/received_friend_requests");
    reveal_strlit("/sent_friend_requests");
    reveal_strlit("/help");
    reveal_strlit("/quit");
    assert(("/login"@)[1] != ("/users"@)[1]);
    assert(("/logout"@)[1] != ("/invite"@)[1]);
    assert(("/all_users"@)[1] != ("/my_groups"@)[1]);
    assert(("/create_group"@)[1] != ("/list_friends"@)[1]);
    assert(("/accept_invite"@)[1] != ("/reject_invite"@)[1]);
    assert(("/my_invites"@)[1] != ("/join_group"@)[1]);
    assert(("/send_group_message"@)[1] != ("/get_group_messages"@)[1]);
    assert(("/send_private_message"@)[1] != ("/get_private_messages"@)[1]);
    assert(("/send_private_message"@)[4] != ("/sent_friend_requests"@)[4]);
    assert(("/get_private_messages"@)[1] != ("/sent_friend_requests"@)[1]);
    assert(("/delete_group_messages"@)[1] != ("/accept_friend_request"@)[1]);
    assert(("/delete_group_messages"@)[1] != ("/reject_friend_request"@)[1]);
    assert(("/accept_friend_request"@)[1] != ("/reject_friend_request"@)[1]);
    assert(("/help"@)[1] != ("/quit"@)[1]);
}

/// What `/invite` answers and does.
pub open spec fn invite_outcome(
    pre: ServerState,
    post: ServerState,
    token: Seq<char>,
    group_id: Seq<char>,
    invitee: Seq<char>,
    resp: Seq<char>,
    max: nat,
    now: i64,
) -> bool {
    let live = crate::model::live_token(pre.sessions@, token, now);
    let uid = crate::model::token_user(pre.sessions@, token, now)->Some_0;
    let known = crate::model::group_with_id(pre.groups@, group_id);
    let actor_in = crate::model::is_member(pre.members@, group_id, uid);
    let named = crate::model::user_named(pre.users@, invitee);
    &&& (!live ==> resp == resp_err(err_text(ServiceError::InvalidSession, max)) && post.same_as(
        pre,
    ))
    &&& (live && !known ==> resp == resp_err(err_text(ServiceError::GroupNotFound, max))
        && post.same_as(pre))
    &&& (live && known && !actor_in ==> resp == resp_err(err_text(ServiceError::NotAMember, max))
        && post.same_as(pre))
    &&& (live && known && actor_in && !named ==> resp == resp_err(
        err_text(ServiceError::UserNotFound, max),
    ) && post.same_as(pre))
    &&& (resp == resp_ok("Invite sent: "@ + crate::textnum::dec_digits(pre.next_invite as nat))
        ==> crate::model::pending_invite(
        post.invites@,
        group_id,
        pre.users@[crate::model::user_index_named(pre.users@, invitee)].id@,
    ))
}

/// What one of the friend-request commands answers and does: `action`
/// 0 sends, 1 accepts, 2 rejects.
pub open spec fn friend_outcome(
    pre: ServerState,
    post: ServerState,
    token: Seq<char>,
    peer: Seq<char>,
    resp: Seq<char>,
    max: nat,
    now: i64,
    action: u8,
) -> bool {
    let live = crate::model::live_token(pre.sessions@, token, now);
    let uid = crate::model::token_user(pre.sessions@, token, now)->Some_0;
    let named = crate::model::user_named(pre.users@, peer);
    &&& (!live ==> resp == resp_err(err_text(ServiceError::InvalidSession, max)) && post.same_as(
        pre,
    ))
    &&& (live && !named ==> resp == resp_err(err_text(ServiceError::UserNotFound, max))
        && post.same_as(pre))
    &&& (action == 0 ==> (resp == resp_ok("Friend request sent"@) ==> live && named
        && crate::model::pending_request(
        post.friend_requests@,
        uid,
        pre.users@[crate::model::user_index_named(pre.users@, peer)].id@,
    )))
    &&& (action == 1 ==> (resp == resp_ok("Friend request accepted"@) ==> live && named
        && crate::model::are_friends(
        post.friend_requests@,
        uid,
        pre.users@[crate::model::user_index_named(pre.users@, peer)].id@,
    )))
}

/// The invite named by the argument text can be taken by this user: the
/// text is a decimal invite id, the invite exists, it is addressed to the
/// user, and it is still pending.
pub open spec fn invite_actionable(pre: ServerState, uid: Seq<char>, id_text: Seq<char>) -> bool {
    &&& id_text.len() > 0
    &&& crate::textnum::all_dec_digits(id_text)
    &&& crate::textnum::dec_val(id_text) <= u64::MAX
    &&& {
        let iid = crate::textnum::dec_val(id_text) as u64;
        &&& crate::model::invite_with_id(pre.invites@, iid)
        &&& pre.invites@[crate::model::invite_index_with_id(pre.invites@, iid)].to_user_id@ == uid
        &&& pre.invites@[crate::model::invite_index_with_id(pre.invites@, iid)].status
            == crate::model::RequestStatus::Pending
    }
}

/// The state change of a granted invite: its status flips to accepted, no
/// other invite moves, the user is a member of the invite's group, and
/// nothing else changes.
pub open spec fn invite_granted(pre: ServerState, post: ServerState, uid: Seq<char>, iid: u64) -> bool {
    let ii = crate::model::invite_index_with_id(pre.invites@, iid);
    let gid = pre.invites@[ii].group_id@;
    &&& post.invites@.len() == pre.invites@.len()
    &&& (forall|j: int|
        0 <= j < pre.invites@.len() && j != ii ==> post.invites@[j] == pre.invites@[j])
    &&& post.invites@[ii].status == crate::model::RequestStatus::Accepted
    &&& crate::model::is_member(post.members@, gid, uid)
    &&& (crate::model::is_member(pre.members@, gid, uid) ==> post.members@ == pre.members@)
    &&& (!crate::model::is_member(pre.members@, gid, uid) ==> post.members@.len()
        == pre.members@.len() + 1 && post.members@.drop_last() == pre.members@
        && post.members@.last().group_id@ == gid && post.members@.last().user_id@ == uid)
    &&& post.same_but_invites(pre)
}

/// What `/accept_invite` answers and does: a dead token is rejected; a live
/// one joins exactly when the invite is addressed to the caller and still
/// pending, flipping its status and inserting the membership row in one
/// step; anything else answers `NoSuchRequest` and changes nothing.
pub open spec fn accept_invite_outcome(
    pre: ServerState,
    post: ServerState,
    token: Seq<char>,
    id_text: Seq<char>,
    resp: Seq<char>,
    max: nat,
    now: i64,
) -> bool {
    let live = crate::model::live_token(pre.sessions@, token, now);
    let uid = crate::model::token_user(pre.sessions@, token, now)->Some_0;
    &&& (!live ==> resp == resp_err(err_text(ServiceError::InvalidSession, max)) && post.same_as(
        pre,
    ))
    &&& (live && !invite_actionable(pre, uid, id_text) ==> resp == resp_err(
        err_text(ServiceError::NoSuchRequest, max),
    ) && post.same_as(pre))
    &&& (live && invite_actionable(pre, uid, id_text) ==> resp == resp_ok("Joined"@)
        && invite_granted(pre, post, uid, crate::textnum::dec_val(id_text) as u64))
}

/// The state change of a rejected invite: its status flips to rejected, no
/// other invite moves, and nothing else changes.
pub open spec fn invite_rejected(pre: ServerState, post: ServerState, iid: u64) -> bool {
    let ii = crate::model::invite_index_with_id(pre.invites@, iid);
    &&& post.invites@.len() == pre.invites@.len()
    &&& (forall|j: int|
        0 <= j < pre.invites@.len() && j != ii ==> post.invites@[j] == pre.invites@[j])
    &&& post.invites@[ii].status == crate::model::RequestStatus::Rejected
    &&& post.members@ == pre.members@
    &&& post.same_but_invites(pre)
}

/// What `/reject_invite` answers and does: the mirror image of
/// `accept_invite_outcome`, flipping the invite to rejected and inserting
/// no membership.
pub open spec fn reject_invite_outcome(
    pre: ServerState,
    post: ServerState,
    token: Seq<char>,
    id_text: Seq<char>,
    resp: Seq<char>,
    max: nat,
    now: i64,
) -> bool {
    let live = crate::model::live_token(pre.sessions@, token, now);
    let uid = crate::model::token_user(pre.sessions@, token, now)->Some_0;
    &&& (!live ==> resp == resp_err(err_text(ServiceError::InvalidSession, max)) && post.same_as(
        pre,
    ))
    &&& (live && !invite_actionable(pre, uid, id_text) ==> resp == resp_err(
        err_text(ServiceError::NoSuchRequest, max),
    ) && post.same_as(pre))
    &&& (live && invite_actionable(pre, uid, id_text) ==> resp == resp_ok("Invite rejected"@)
        && invite_rejected(pre, post, crate::textnum::dec_val(id_text) as u64))
}

/// The commands the first routing stage answers, with their argument
/// counts.
pub open spec fn group_a_cmd(cmd: Seq<char>, n: nat) -> bool {
    ||| (cmd == "/register"@ && n == 2)
    ||| (cmd == "/login"@ && n == 2)
    ||| (cmd == "/logout"@ && n == 1)
    ||| (cmd == "/validate_session"@ && n == 1)
    ||| (cmd == "/users"@ && n == 0)
    ||| (cmd == "/all_users"@ && n == 0)
    ||| (cmd == "/create_group"@ && n == 2)
    ||| (cmd == "/my_groups"@ && n == 1)
    ||| (cmd == "/invite"@ && n == 3)
    ||| (cmd == "/accept_invite"@ && n == 2)
    ||| (cmd == "/reject_invite"@ && n == 2)
    ||| (cmd == "/my_invites"@ && n == 1)
    ||| (cmd == "/join_group"@ && n == 2)
    ||| (cmd == "/leave_group"@ && n == 2)
}

/// Everything one dispatched command answers and does, for each command of
/// the protocol: the response text and the state change, as a relation over
/// the state before and after, the command word, its arguments, the
/// response, the configured length bound and the request time.
pub open spec fn command_outcome(
    pre: ServerState,
    post: ServerState,
    cmd: Seq<char>,
    args: Seq<Seq<char>>,
    resp: Seq<char>,
    max: nat,
    now: i64,
) -> bool {
    &&& (!recognized(cmd, args.len() as nat) ==> resp == resp_err(
                err_text(ServiceError::Unknown, max),
            ) && post.same_as(pre))

    &&& (cmd == "/register"@ && args.len() == 2 ==> register_outcome(
                pre,
                post,
                args[0],
                args[1],
                resp,
                max,
            ))

    &&& (cmd == "/login"@ && args.len() == 2 ==> login_outcome(
                pre,
                post,
                args[0],
                args[1],
                resp,
                max,
                now,
            ))

    &&& (cmd == "/validate_session"@ && args.len() == 1 ==> validate_outcome(
                pre,
                post,
                args[0],
                resp,
                max,
                now,
            ))

    &&& (cmd == "/logout"@ && args.len() == 1 ==> logout_outcome(
                pre,
                post,
                args[0],
                resp,
                max,
                now,
            ))

    &&& (cmd == "/users"@ && args.len() == 0 ==> resp == resp_ok(
                csv_of(crate::users::online_names(pre.users@)),
            ) && post.same_as(pre))

    &&& (cmd == "/all_users"@ && args.len() == 0 ==> resp == resp_ok(
                csv_of(crate::users::all_names_except(pre.users@, None)),
            ) && post.same_as(pre))

    &&& (cmd == "/create_group"@ && args.len() == 2 ==> ({
                let live = crate::model::live_token(pre.sessions@, args[0], now);
                &&& (!live ==> resp == resp_err(
                    err_text(
                        ServiceError::InvalidSession,
                        max,
                    ),
                ) && post.same_as(pre))
                &&& (live ==> resp == resp_ok(
                    "Group created: "@ + crate::model::gid_str(
                        pre.next_group as nat,
                    ),
                ) && crate::model::group_with_id(
                    post.groups@,
                    crate::model::gid_str(pre.next_group as nat),
                ) && crate::model::is_member(
                    post.members@,
                    crate::model::gid_str(pre.next_group as nat),
                    crate::model::token_user(pre.sessions@, args[0], now)->Some_0,
                ))
            }))

    &&& (cmd == "/accept_invite"@ && args.len() == 2 ==> accept_invite_outcome(
                pre,
                post,
                args[0],
                args[1],
                resp,
                max,
                now,
            ))

    &&& (cmd == "/send_private_message"@ && args.len() >= 3 ==> ({
                let live = crate::model::live_token(pre.sessions@, args[0], now);
                let named = crate::model::user_named(pre.users@, args[1]);
                let msg = joined_with_spaces(args.skip(2));
                let max = max;
                send_outcome(
                    pre,
                    post,
                    resp,
                    max,
                    live,
                    live && named && msg.len() <= max,
                    ServiceError::UserNotFound,
                    live && !named,
                    false,
                    live && named && msg.len() > max,
                )
            }))

    &&& (cmd == "/send_group_message"@ && args.len() >= 3 ==> ({
                let live = crate::model::live_token(pre.sessions@, args[0], now);
                let known = crate::model::group_with_id(pre.groups@, args[1]);
                let member = live && known && crate::model::is_member(
                    pre.members@,
                    args[1],
                    crate::model::token_user(pre.sessions@, args[0], now)->Some_0,
                );
                let msg = joined_with_spaces(args.skip(2));
                let max = max;
                send_outcome(
                    pre,
                    post,
                    resp,
                    max,
                    live,
                    member && msg.len() <= max,
                    ServiceError::GroupNotFound,
                    live && !known,
                    live && known && !member,
                    member && msg.len() > max,
                )
            }))

    &&& (cmd == "/get_private_messages"@ && args.len() == 2 ==> ({
                let live = crate::model::live_token(pre.sessions@, args[0], now);
                let named = crate::model::user_named(pre.users@, args[1]);
                &&& post.same_as(pre)
                &&& (!live ==> resp == resp_err(
                    err_text(
                        ServiceError::InvalidSession,
                        max,
                    ),
                ))
                &&& (live && !named ==> resp == resp_err(
                    err_text(
                        ServiceError::UserNotFound,
                        max,
                    ),
                ))
                &&& (live && named ==> exists|ls: Seq<Seq<char>>|
                    resp == #[trigger] multiline_response(ls))
            }))

    &&& (cmd == "/get_group_messages"@ && args.len() == 2 ==> ({
                let live = crate::model::live_token(pre.sessions@, args[0], now);
                let known = crate::model::group_with_id(pre.groups@, args[1]);
                let member = live && known && crate::model::is_member(
                    pre.members@,
                    args[1],
                    crate::model::token_user(pre.sessions@, args[0], now)->Some_0,
                );
                &&& post.same_as(pre)
                &&& (!live ==> resp == resp_err(
                    err_text(
                        ServiceError::InvalidSession,
                        max,
                    ),
                ))
                &&& (live && known && !member ==> resp == resp_err(
                    err_text(
                        ServiceError::NotAMember,
                        max,
                    ),
                ))
                &&& (member ==> exists|ls: Seq<Seq<char>>|
                    resp == #[trigger] multiline_response(ls))
            }))

    &&& (cmd == "/invite"@ && args.len() == 3 ==> invite_outcome(
                pre,
                post,
                args[0],
                args[1],
                args[2],
                resp,
                max,
                now,
            ))

    &&& (cmd == "/reject_invite"@ && args.len() == 2 ==> reject_invite_outcome(
                pre,
                post,
                args[0],
                args[1],
                resp,
                max,
                now,
            ))

    &&& (cmd == "/send_friend_request"@ && args.len() >= 2 ==> friend_outcome(
                pre,
                post,
                args[0],
                args[1],
                resp,
                max,
                now,
                0,
            ))

    &&& (cmd == "/accept_friend_request"@ && args.len() == 2 ==> friend_outcome(
                pre,
                post,
                args[0],
                args[1],
                resp,
                max,
                now,
                1,
            ))

    &&& (cmd == "/reject_friend_request"@ && args.len() == 2 ==> friend_outcome(
                pre,
                post,
                args[0],
                args[1],
                resp,
                max,
                now,
                2,
            ))

    &&& (cmd == "/my_groups"@ && args.len() == 1 ==> ({
                let live = crate::model::live_token(pre.sessions@, args[0], now);
                &&& post.same_as(pre)
                &&& (!live ==> resp == resp_err(
                    err_text(
                        ServiceError::InvalidSession,
                        max,
                    ),
                ))
                &&& (live ==> resp == resp_ok(
                    "My groups: "@ + csv_of(
                        group_entry_texts(
                            crate::groups::group_entries(
                                pre.groups@,
                                pre.members@,
                                crate::model::token_user(
                                    pre.sessions@,
                                    args[0],
                                    now,
                                )->Some_0,
                            ),
                        ),
                    ),
                ))
            }))

    &&& (cmd == "/my_invites"@ && args.len() == 1 ==> ({
                let live = crate::model::live_token(pre.sessions@, args[0], now);
                &&& post.same_as(pre)
                &&& (!live ==> resp == resp_err(err_text(ServiceError::InvalidSession, max)))
                &&& (live ==> resp == resp_ok(
                    "Invites: "@ + piped_of(
                        invite_entry_texts(
                            crate::groups::invite_entries(
                                pre.invites@,
                                pre.groups@,
                                pre.users@,
                                crate::model::token_user(
                                    pre.sessions@,
                                    args[0],
                                    now,
                                )->Some_0,
                            ),
                        ),
                    ),
                ))
            }))

    &&& (cmd == "/list_friends"@ && args.len() == 1 ==> ({
                let live = crate::model::live_token(pre.sessions@, args[0], now);
                &&& post.same_as(pre)
                &&& (!live ==> resp == resp_err(err_text(ServiceError::InvalidSession, max)))
                &&& (live ==> resp == resp_ok(
                    "Friends: "@ + csv_of(
                        crate::users::friend_names(
                            pre.friend_requests@,
                            pre.users@,
                            crate::model::token_user(
                                pre.sessions@,
                                args[0],
                                now,
                            )->Some_0,
                        ),
                    ),
                ))
            }))

    &&& (cmd == "/received_friend_requests"@ && args.len() == 1 ==> ({
                let live = crate::model::live_token(pre.sessions@, args[0], now);
                &&& post.same_as(pre)
                &&& (!live ==> resp == resp_err(err_text(ServiceError::InvalidSession, max)))
                &&& (live ==> resp == resp_ok(
                    "Received requests: "@ + piped_of(
                        pair_texts(
                            crate::users::request_pairs(
                                pre.friend_requests@,
                                pre.users@,
                                crate::model::token_user(
                                    pre.sessions@,
                                    args[0],
                                    now,
                                )->Some_0,
                                true,
                            ),
                        ),
                    ),
                ))
            }))

    &&& (cmd == "/sent_friend_requests"@ && args.len() == 1 ==> ({
                let live = crate::model::live_token(pre.sessions@, args[0], now);
                &&& post.same_as(pre)
                &&& (!live ==> resp == resp_err(err_text(ServiceError::InvalidSession, max)))
                &&& (live ==> resp == resp_ok(
                    "Sent requests: "@ + piped_of(
                        pair_texts(
                            crate::users::request_pairs(
                                pre.friend_requests@,
                                pre.users@,
                                crate::model::token_user(
                                    pre.sessions@,
                                    args[0],
                                    now,
                                )->Some_0,
                                false,
                            ),
                        ),
                    ),
                ))
            }))

    &&& (cmd == "/join_group"@ && args.len() == 2 ==> ({
                let live = crate::model::live_token(pre.sessions@, args[0], now);
                let uid = crate::model::token_user(pre.sessions@, args[0], now)
                    ->Some_0;
                let known = crate::model::group_with_id(pre.groups@, args[1]);
                let member = crate::model::is_member(pre.members@, args[1], uid);
                &&& (!live ==> resp == resp_err(
                    err_text(
                        ServiceError::InvalidSession,
                        max,
                    ),
                ) && post.same_as(pre))
                &&& (live && !known ==> resp == resp_err(
                    err_text(
                        ServiceError::GroupNotFound,
                        max,
                    ),
                ) && post.same_as(pre))
                &&& (live && known && member ==> resp == resp_err(
                    err_text(
                        ServiceError::AlreadyMember,
                        max,
                    ),
                ) && post.same_as(pre))
                &&& (live && known && !member ==> resp == resp_ok("Joined group"@)
                    && crate::model::is_member(post.members@, args[1], uid))
            }))

    &&& (cmd == "/leave_group"@ && args.len() == 2 ==> ({
                let live = crate::model::live_token(pre.sessions@, args[0], now);
                let uid = crate::model::token_user(pre.sessions@, args[0], now)
                    ->Some_0;
                let member = crate::model::is_member(pre.members@, args[1], uid);
                &&& (!live ==> resp == resp_err(
                    err_text(
                        ServiceError::InvalidSession,
                        max,
                    ),
                ) && post.same_as(pre))
                &&& (live && !member ==> resp == resp_err(
                    err_text(
                        ServiceError::NotAMember,
                        max,
                    ),
                ) && post.same_as(pre))
                &&& (live && member ==> resp == resp_ok("Left group"@) && !crate::model::is_member(
                    post.members@,
                    args[1],
                    uid,
                ))
            }))

    &&& (cmd == "/delete_private_messages"@ && args.len() == 2 ==> ({
                let live = crate::model::live_token(pre.sessions@, args[0], now);
                let named = crate::model::user_named(pre.users@, args[1]);
                &&& (!live ==> resp == resp_err(
                    err_text(
                        ServiceError::InvalidSession,
                        max,
                    ),
                ) && post.same_as(pre))
                &&& (live && !named ==> resp == resp_err(
                    err_text(
                        ServiceError::UserNotFound,
                        max,
                    ),
                ) && post.same_as(pre))
                &&& (live && named ==> resp == resp_ok("Messages deleted"@) && ({
                    let me = crate::model::token_user(
                        pre.sessions@,
                        args[0],
                        now,
                    )->Some_0;
                    let other = pre.users@[crate::model::user_index_named(
                        pre.users@,
                        args[1],
                    )].id@;
                    crate::messaging::rows_of(
                        post.messages@,
                        crate::messaging::private_chat_id(me, other),
                    ).len() == 0
                }))
            }))

    &&& (cmd == "/delete_group_messages"@ && args.len() == 2 ==> ({
                let live = crate::model::live_token(pre.sessions@, args[0], now);
                let uid = crate::model::token_user(pre.sessions@, args[0], now)
                    ->Some_0;
                let member = crate::model::is_member(pre.members@, args[1], uid);
                &&& (!live ==> resp == resp_err(
                    err_text(
                        ServiceError::InvalidSession,
                        max,
                    ),
                ) && post.same_as(pre))
                &&& (live && !member ==> resp == resp_err(
                    err_text(
                        ServiceError::NotAMember,
                        max,
                    ),
                ) && post.same_as(pre))
                &&& (live && member ==> resp == resp_ok("Messages deleted"@)
                    && crate::messaging::rows_of(
                    post.messages@,
                    crate::messaging::group_chat_id(args[1]),
                ).len() == 0)
            }))

    &&& (cmd == "/quit"@ && args.len() == 0 ==> resp == resp_ok("Disconnected"@)
                && post.same_as(pre))
}

impl Server {

    /// `/register`.
    fn do_register(&mut self, uname: &str, pw: &str) -> (r: String)
        requires
            old(self).state.wf(),
            old(self).state.next_user < u64::MAX,
        ensures
            final(self).state.wf(),
            final(self).config == old(self).config,
            register_outcome(
                old(self).state,
                final(self).state,
                uname@,
                pw@,
                r@,
                old(self).config.max_message_length as nat,
            ),
    {
        proof {
            lemma_response_shapes();
        }
        let max_len = self.config.max_message_length;
        match self.state.register(uname, pw) {
            Ok(_) => render_ok("Registered"),
            Err(e) => render_err(e, max_len),
        }
    }

    /// `/login`.
    fn do_login(&mut self, uname: &str, pw: &str, now: i64) -> (r: String)
        requires
            old(self).state.wf(),
            old(self).state.next_event < u64::MAX,
            old(self).config.session_ttl >= 1,
            now < i64::MAX,
        ensures
            final(self).state.wf(),
            final(self).config == old(self).config,
            login_outcome(
                old(self).state,
                final(self).state,
                uname@,
                pw@,
                r@,
                old(self).config.max_message_length as nat,
                now,
            ),
    {
        proof {
            lemma_response_shapes();
        }
        let max_len = self.config.max_message_length;
        let ttl = self.config.session_ttl;
        match self.state.login(uname, pw, now, ttl) {
            Ok(tok) => {
                let mut p = String::from_str("Logged in SESSION:");
                p.append(tok.as_str());
                let r = render_ok(p.as_str());
                proof {
                    assert(r@ == resp_ok("Logged in SESSION:"@ + tok@));
                }
                r
            },
            Err(e) => render_err(e, max_len),
        }
    }

    /// `/logout`.
    fn do_logout(&mut self, token: &str, now: i64) -> (r: String)
        requires
            old(self).state.wf(),
            old(self).state.next_event < u64::MAX,
        ensures
            final(self).state.wf(),
            final(self).config == old(self).config,
            logout_outcome(
                old(self).state,
                final(self).state,
                token@,
                r@,
                old(self).config.max_message_length as nat,
                now,
            ),
    {
        proof {
            lemma_response_shapes();
        }
        let max_len = self.config.max_message_length;
        match self.state.validate(token, now) {
            None => render_err(ServiceError::InvalidSession, max_len),
            Some(_) => {
                match self.state.logout(token, now) {
                    Ok(_) => render_ok("Logged out"),
                    Err(e) => render_err(e, max_len),
                }
            },
        }
    }

    /// `/validate_session`.
    fn do_validate(&mut self, token: &str, now: i64) -> (r: String)
        requires
            old(self).state.wf(),
        ensures
            final(self).state.wf(),
            final(self).config == old(self).config,
            validate_outcome(
                old(self).state,
                final(self).state,
                token@,
                r@,
                old(self).config.max_message_length as nat,
                now,
            ),
    {
        proof {
            lemma_response_shapes();
        }
        let max_len = self.config.max_message_length;
        match self.state.validate(token, now) {
            None => render_err(ServiceError::InvalidSession, max_len),
            Some(uid) => {
                let name = self.state.display_name(uid.as_str());
                render_ok(name.as_str())
            },
        }
    }

    /// `/create_group`.
    fn do_create_group(&mut self, token: &str, name: &str, now: i64) -> (r: String)
        requires
            old(self).state.wf(),
            old(self).state.next_group < u64::MAX,
        ensures
            final(self).state.wf(),
            final(self).config == old(self).config,
            !crate::model::live_token(old(self).state.sessions@, token@, now) ==> r@ == resp_err(
                err_text(
                    ServiceError::InvalidSession,
                    old(self).config.max_message_length as nat,
                ),
            ) && final(self).state.same_as(old(self).state),
            crate::model::live_token(old(self).state.sessions@, token@, now) ==> r@ == resp_ok(
                "Group created: "@ + crate::model::gid_str(old(self).state.next_group as nat),
            ) && crate::model::group_with_id(
                final(self).state.groups@,
                crate::model::gid_str(old(self).state.next_group as nat),
            ) && crate::model::is_member(
                final(self).state.members@,
                crate::model::gid_str(old(self).state.next_group as nat),
                crate::model::token_user(old(self).state.sessions@, token@, now)->Some_0,
            ),
    {
        proof {
            lemma_response_shapes();
        }
        let max_len = self.config.max_message_length;
        match self.state.validate(token, now) {
            None => render_err(ServiceError::InvalidSession, max_len),
            Some(uid) => {
                let gid = self.state.create_group(uid.as_str(), name, now);
                let mut p = String::from_str("Group created: ");
                p.append(gid.as_str());
                let r = render_ok(p.as_str());
                proof {
                    assert(p@ =~= "Group created: "@ + gid@);
                }
                r
            },
        }
    }

    /// `/accept_invite`.
    fn do_accept_invite(&mut self, token: &str, id_text: &str, now: i64) -> (r: String)
        requires
            old(self).state.wf(),
        ensures
            final(self).state.wf(),
            final(self).config == old(self).config,
            accept_invite_outcome(
                old(self).state,
                final(self).state,
                token@,
                id_text@,
                r@,
                old(self).config.max_message_length as nat,
                now,
            ),
    {
        proof {
            lemma_response_shapes();
        }
        let max_len = self.config.max_message_length;
        match self.state.validate(token, now) {
            None => render_err(ServiceError::InvalidSession, max_len),
            Some(uid) => {
                match crate::textnum::parse_u64(id_text) {
                    None => render_err(ServiceError::NoSuchRequest, max_len),
                    Some(iid) => {
                        match self.state.accept_invite(uid.as_str(), iid, now) {
                            Ok(_) => render_ok("Joined"),
                            Err(e) => render_err(e, max_len),
                        }
                    },
                }
            },
        }
    }

    /// `/reject_invite`.
    fn do_reject_invite(&mut self, token: &str, id_text: &str, now: i64) -> (r: String)
        requires
            old(self).state.wf(),
        ensures
            final(self).state.wf(),
            final(self).config == old(self).config,
            reject_invite_outcome(
                old(self).state,
                final(self).state,
                token@,
                id_text@,
                r@,
                old(self).config.max_message_length as nat,
                now,
            ),
    {
        proof {
            lemma_response_shapes();
        }
        let max_len = self.config.max_message_length;
        match self.state.validate(token, now) {
            None => render_err(ServiceError::InvalidSession, max_len),
            Some(uid) => {
                match crate::textnum::parse_u64(id_text) {
                    None => render_err(ServiceError::NoSuchRequest, max_len),
                    Some(iid) => {
                        match self.state.reject_invite(uid.as_str(), iid) {
                            Ok(_) => render_ok("Invite rejected"),
                            Err(e) => render_err(e, max_len),
                        }
                    },
                }
            },
        }
    }

    /// `/send_private_message` and `/send_group_message`.
    fn do_send(&mut self, token: &str, target: &str, msg: &str, now: i64, private: bool) -> (r:
        String)
        requires
            old(self).state.wf(),
            old(self).state.next_message < u64::MAX,
            old(self).config.max_message_length <= 0x100_0000,
        ensures
            final(self).state.wf(),
            final(self).config == old(self).config,
            private ==> ({
                let live = crate::model::live_token(old(self).state.sessions@, token@, now);
                let named = crate::model::user_named(old(self).state.users@, target@);
                let max = old(self).config.max_message_length as nat;
                send_outcome(
                    old(self).state,
                    final(self).state,
                    r@,
                    max,
                    live,
                    live && named && msg@.len() <= max,
                    ServiceError::UserNotFound,
                    live && !named,
                    false,
                    live && named && msg@.len() > max,
                )
            }),
            !private ==> ({
                let live = crate::model::live_token(old(self).state.sessions@, token@, now);
                let known = crate::model::group_with_id(old(self).state.groups@, target@);
                let member = live && known && crate::model::is_member(
                    old(self).state.members@,
                    target@,
                    crate::model::token_user(old(self).state.sessions@, token@, now)->Some_0,
                );
                let max = old(self).config.max_message_length as nat;
                send_outcome(
                    old(self).state,
                    final(self).state,
                    r@,
                    max,
                    live,
                    member && msg@.len() <= max,
                    ServiceError::GroupNotFound,
                    live && !known,
                    live && known && !member,
                    member && msg@.len() > max,
                )
            }),
    {
        proof {
            lemma_response_shapes();
        }
        let max_len = self.config.max_message_length;
        let enable = self.config.enable_encryption;
        let master = self.config.master_key.clone();
        let res = if private {
            crate::messaging::send_private_message(
                &mut self.state,
                token,
                target,
                msg,
                now,
                max_len,
                enable,
                master.as_str(),
            )
        } else {
            crate::messaging::send_group_message(
                &mut self.state,
                token,
                target,
                msg,
                now,
                max_len,
                enable,
                master.as_str(),
            )
        };
        match res {
            Ok(_) => render_ok("Message sent"),
            Err(e) => render_err(e, max_len),
        }
    }

    /// `/get_private_messages` and `/get_group_messages`.
    fn do_get(&mut self, token: &str, target: &str, now: i64, private: bool) -> (r: String)
        requires
            old(self).state.wf(),
        ensures
            final(self).state.wf(),
            final(self).config == old(self).config,
            final(self).state.same_as(old(self).state),
            private ==> ({
                let live = crate::model::live_token(old(self).state.sessions@, token@, now);
                let named = crate::model::user_named(old(self).state.users@, target@);
                &&& (!live ==> r@ == resp_err(
                    err_text(
                        ServiceError::InvalidSession,
                        old(self).config.max_message_length as nat,
                    ),
                ))
                &&& (live && !named ==> r@ == resp_err(
                    err_text(
                        ServiceError::UserNotFound,
                        old(self).config.max_message_length as nat,
                    ),
                ))
                &&& (live && named ==> exists|ls: Seq<Seq<char>>|
                    r@ == #[trigger] multiline_response(ls))
            }),
            !private ==> ({
                let live = crate::model::live_token(old(self).state.sessions@, token@, now);
                let known = crate::model::group_with_id(old(self).state.groups@, target@);
                let member = live && known && crate::model::is_member(
                    old(self).state.members@,
                    target@,
                    crate::model::token_user(old(self).state.sessions@, token@, now)->Some_0,
                );
                &&& (!live ==> r@ == resp_err(
                    err_text(
                        ServiceError::InvalidSession,
                        old(self).config.max_message_length as nat,
                    ),
                ))
                &&& (live && known && !member ==> r@ == resp_err(
                    err_text(
                        ServiceError::NotAMember,
                        old(self).config.max_message_length as nat,
                    ),
                ))
                &&& (member ==> exists|ls: Seq<Seq<char>>|
                    r@ == #[trigger] multiline_response(ls))
            }),
    {
        proof {
            lemma_response_shapes();
        }
        let max_len = self.config.max_message_length;
        let enable = self.config.enable_encryption;
        let master = self.config.master_key.clone();
        if private {
            match crate::messaging::get_private_messages(
                &self.state,
                token,
                target,
                now,
                enable,
                master.as_str(),
            ) {
                Ok(lines) => render_multiline(&lines),
                Err(e) => render_err(e, max_len),
            }
        } else {
            match crate::messaging::get_group_messages(
                &self.state,
                token,
                target,
                now,
                enable,
                master.as_str(),
            ) {
                Ok(lines) => render_multiline(&lines),
                Err(e) => render_err(e, max_len),
            }
        }
    }


    /// `/invite`.
    fn do_invite(&mut self, token: &str, group_id: &str, invitee: &str, now: i64) -> (r: String)
        requires
            old(self).state.wf(),
            old(self).state.next_invite < u64::MAX,
        ensures
            final(self).state.wf(),
            final(self).config == old(self).config,
            invite_outcome(
                old(self).state,
                final(self).state,
                token@,
                group_id@,
                invitee@,
                r@,
                old(self).config.max_message_length as nat,
                now,
            ),
    {
        proof {
            lemma_response_shapes();
        }
        let max_len = self.config.max_message_length;
        match self.state.validate(token, now) {
            None => render_err(ServiceError::InvalidSession, max_len),
            Some(uid) => {
                match self.state.invite(uid.as_str(), group_id, invitee, now) {
                    Ok(iid) => {
                        let mut p = String::from_str("Invite sent: ");
                        let d = fmt_u64(iid);
                        p.append(d.as_str());
                        let r = render_ok(p.as_str());
                        proof {
                            assert(p@ =~= "Invite sent: "@ + crate::textnum::dec_digits(
                                iid as nat,
                            ));
                        }
                        r
                    },
                    Err(e) => render_err(e, max_len),
                }
            },
        }
    }

    /// `/send_friend_request`, `/accept_friend_request` and
    /// `/reject_friend_request`.
    fn do_friend(&mut self, token: &str, peer: &str, msg: &str, now: i64, action: u8) -> (r:
        String)
        requires
            old(self).state.wf(),
            action <= 2,
        ensures
            final(self).state.wf(),
            final(self).config == old(self).config,
            friend_outcome(
                old(self).state,
                final(self).state,
                token@,
                peer@,
                r@,
                old(self).config.max_message_length as nat,
                now,
                action,
            ),
    {
        proof {
            lemma_response_shapes();
        }
        let max_len = self.config.max_message_length;
        match self.state.validate(token, now) {
            None => render_err(ServiceError::InvalidSession, max_len),
            Some(uid) => {
                if action == 0 {
                    match self.state.send_friend_request(uid.as_str(), peer, msg, now) {
                        Ok(_) => render_ok("Friend request sent"),
                        Err(e) => render_err(e, max_len),
                    }
                } else if action == 1 {
                    match self.state.accept_friend_request(uid.as_str(), peer) {
                        Ok(_) => render_ok("Friend request accepted"),
                        Err(e) => render_err(e, max_len),
                    }
                } else {
                    match self.state.reject_friend_request(uid.as_str(), peer) {
                        Ok(_) => render_ok("Friend request rejected"),
                        Err(e) => render_err(e, max_len),
                    }
                }
            },
        }
    }

    /// Routes one parsed request: checks the command and its argument count,
    /// validates the session where one is required, performs the operation
    /// and renders the one-line (or multi-line) response, all as
    /// `command_outcome` states.
    pub fn handle_command(&mut self, cmd: &str, args: &Vec<String>, now: i64) -> (r: String)
        requires
            old(self).state.wf(),
            old(self).config.session_ttl >= 1,
            old(self).state.next_user < u64::MAX,
            old(self).state.next_group < u64::MAX,
            old(self).state.next_invite < u64::MAX,
            old(self).state.next_message < u64::MAX,
            old(self).state.next_event < u64::MAX,
            old(self).config.max_message_length <= 0x100_0000,
            now < i64::MAX,
        ensures
            final(self).state.wf(),
            final(self).config.max_message_length == old(self).config.max_message_length,
            final(self).config.session_ttl == old(self).config.session_ttl,
            final(self).config.enable_encryption == old(self).config.enable_encryption,
            final(self).config.master_key@ == old(self).config.master_key@,
            command_outcome(
                old(self).state,
                final(self).state,
                cmd@,
                crate::crypto::views_of(args@),
                r@,
                old(self).config.max_message_length as nat,
                now,
            ),
    {
        let r = self.route_command(cmd, args, now);
        proof {
            let av = crate::crypto::views_of(args@);
            assert(av.len() == args@.len());
            assert forall|i: int| 0 <= i < av.len() implies #[trigger] av[i] == args@[i]@ by {}
        }
        r
    }

    /// The first routing stage: answers the session, account, group and
    /// invite commands; `None` for anything else.
    #[verifier::rlimit(100)]
    fn route_group_a(&mut self, cmd: &str, args: &Vec<String>, now: i64) -> (r: Option<String>)
        requires
            old(self).state.wf(),
            old(self).config.session_ttl >= 1,
            old(self).state.next_user < u64::MAX,
            old(self).state.next_group < u64::MAX,
            old(self).state.next_invite < u64::MAX,
            old(self).state.next_message < u64::MAX,
            old(self).state.next_event < u64::MAX,
            now < i64::MAX,
        ensures
            final(self).state.wf(),
            final(self).config.max_message_length == old(self).config.max_message_length,
            final(self).config.session_ttl == old(self).config.session_ttl,
            final(self).config.enable_encryption == old(self).config.enable_encryption,
            final(self).config.master_key@ == old(self).config.master_key@,
            r is None ==> final(self).state.same_as(old(self).state) && !group_a_cmd(
                cmd@,
                args@.len() as nat,
            ),
            r is Some ==> group_a_cmd(cmd@, args@.len() as nat),
            cmd@ == "/register"@ && args@.len() == 2 ==> (r matches Some(resp) && (register_outcome(
                old(self).state,
                final(self).state,
                args@[0]@,
                args@[1]@,
                resp@,
                old(self).config.max_message_length as nat,
            ))),
            cmd@ == "/login"@ && args@.len() == 2 ==> (r matches Some(resp) && (login_outcome(
                old(self).state,
                final(self).state,
                args@[0]@,
                args@[1]@,
                resp@,
                old(self).config.max_message_length as nat,
                now,
            ))),
            cmd@ == "/validate_session"@ && args@.len() == 1 ==> (r matches Some(resp) && (validate_outcome(
                old(self).state,
                final(self).state,
                args@[0]@,
                resp@,
                old(self).config.max_message_length as nat,
                now,
            ))),
            cmd@ == "/logout"@ && args@.len() == 1 ==> (r matches Some(resp) && (logout_outcome(
                old(self).state,
                final(self).state,
                args@[0]@,
                resp@,
                old(self).config.max_message_length as nat,
                now,
            ))),
            cmd@ == "/users"@ && args@.len() == 0 ==> (r matches Some(resp) && (resp@ == resp_ok(
                csv_of(crate::users::online_names(old(self).state.users@)),
            ) && final(self).state.same_as(old(self).state))),
            cmd@ == "/all_users"@ && args@.len() == 0 ==> (r matches Some(resp) && (resp@ == resp_ok(
                csv_of(crate::users::all_names_except(old(self).state.users@, None)),
            ) && final(self).state.same_as(old(self).state))),
            cmd@ == "/create_group"@ && args@.len() == 2 ==> (r matches Some(resp) && (({
                let live = crate::model::live_token(old(self).state.sessions@, args@[0]@, now);
                &&& (!live ==> resp@ == resp_err(
                    err_text(
                        ServiceError::InvalidSession,
                        old(self).config.max_message_length as nat,
                    ),
                ) && final(self).state.same_as(old(self).state))
                &&& (live ==> resp@ == resp_ok(
                    "Group created: "@ + crate::model::gid_str(
                        old(self).state.next_group as nat,
                    ),
                ) && crate::model::group_with_id(
                    final(self).state.groups@,
                    crate::model::gid_str(old(self).state.next_group as nat),
                ) && crate::model::is_member(
                    final(self).state.members@,
                    crate::model::gid_str(old(self).state.next_group as nat),
                    crate::model::token_user(old(self).state.sessions@, args@[0]@, now)->Some_0,
                ))
            }))),
            cmd@ == "/accept_invite"@ && args@.len() == 2 ==> (r matches Some(resp) && (accept_invite_outcome(
                old(self).state,
                final(self).state,
                args@[0]@,
                args@[1]@,
                resp@,
                old(self).config.max_message_length as nat,
                now,
            ))),
            cmd@ == "/invite"@ && args@.len() == 3 ==> (r matches Some(resp) && (invite_outcome(
                old(self).state,
                final(self).state,
                args@[0]@,
                args@[1]@,
                args@[2]@,
                resp@,
                old(self).config.max_message_length as nat,
                now,
            ))),
            cmd@ == "/reject_invite"@ && args@.len() == 2 ==> (r matches Some(resp) && (reject_invite_outcome(
                old(self).state,
                final(self).state,
                args@[0]@,
                args@[1]@,
                resp@,
                old(self).config.max_message_length as nat,
                now,
            ))),
            cmd@ == "/my_groups"@ && args@.len() == 1 ==> (r matches Some(resp) && (({
                let live = crate::model::live_token(old(self).state.sessions@, args@[0]@, now);
                &&& final(self).state.same_as(old(self).state)
                &&& (!live ==> resp@ == resp_err(
                    err_text(
                        ServiceError::InvalidSession,
                        old(self).config.max_message_length as nat,
                    ),
                ))
                &&& (live ==> resp@ == resp_ok(
                    "My groups: "@ + csv_of(
                        group_entry_texts(
                            crate::groups::group_entries(
                                old(self).state.groups@,
                                old(self).state.members@,
                                crate::model::token_user(
                                    old(self).state.sessions@,
                                    args@[0]@,
                                    now,
                                )->Some_0,
                            ),
                        ),
                    ),
                ))
            }))),
            cmd@ == "/my_invites"@ && args@.len() == 1 ==> (r matches Some(resp) && (({
                let live = crate::model::live_token(old(self).state.sessions@, args@[0]@, now);
                &&& final(self).state.same_as(old(self).state)
                &&& (!live ==> resp@ == resp_err(err_text(ServiceError::InvalidSession, old(self).config.max_message_length as nat)))
                &&& (live ==> resp@ == resp_ok(
                    "Invites: "@ + piped_of(
                        invite_entry_texts(
                            crate::groups::invite_entries(
                                old(self).state.invites@,
                                old(self).state.groups@,
                                old(self).state.users@,
                                crate::model::token_user(
                                    old(self).state.sessions@,
                                    args@[0]@,
                                    now,
                                )->Some_0,
                            ),
                        ),
                    ),
                ))
            }))),
            cmd@ == "/join_group"@ && args@.len() == 2 ==> (r matches Some(resp) && (({
                let live = crate::model::live_token(old(self).state.sessions@, args@[0]@, now);
                let uid = crate::model::token_user(old(self).state.sessions@, args@[0]@, now)
                    ->Some_0;
                let known = crate::model::group_with_id(old(self).state.groups@, args@[1]@);
                let member = crate::model::is_member(old(self).state.members@, args@[1]@, uid);
                &&& (!live ==> resp@ == resp_err(
                    err_text(
                        ServiceError::InvalidSession,
                        old(self).config.max_message_length as nat,
                    ),
                ) && final(self).state.same_as(old(self).state))
                &&& (live && !known ==> resp@ == resp_err(
                    err_text(
                        ServiceError::GroupNotFound,
                        old(self).config.max_message_length as nat,
                    ),
                ) && final(self).state.same_as(old(self).state))
                &&& (live && known && member ==> resp@ == resp_err(
                    err_text(
                        ServiceError::AlreadyMember,
                        old(self).config.max_message_length as nat,
                    ),
                ) && final(self).state.same_as(old(self).state))
                &&& (live && known && !member ==> resp@ == resp_ok("Joined group"@)
                    && crate::model::is_member(final(self).state.members@, args@[1]@, uid))
            }))),
            cmd@ == "/leave_group"@ && args@.len() == 2 ==> (r matches Some(resp) && (({
                let live = crate::model::live_token(old(self).state.sessions@, args@[0]@, now);
                let uid = crate::model::token_user(old(self).state.sessions@, args@[0]@, now)
                    ->Some_0;
                let member = crate::model::is_member(old(self).state.members@, args@[1]@, uid);
                &&& (!live ==> resp@ == resp_err(
                    err_text(
                        ServiceError::InvalidSession,
                        old(self).config.max_message_length as nat,
                    ),
                ) && final(self).state.same_as(old(self).state))
                &&& (live && !member ==> resp@ == resp_err(
                    err_text(
                        ServiceError::NotAMember,
                        old(self).config.max_message_length as nat,
                    ),
                ) && final(self).state.same_as(old(self).state))
                &&& (live && member ==> resp@ == resp_ok("Left group"@) && !crate::model::is_member(
                    final(self).state.members@,
                    args@[1]@,
                    uid,
                ))
            }))),
    {
        proof {
            lemma_response_shapes();
            lemma_command_literals();
        }
        let max_len = self.config.max_message_length;
        if str_eq(cmd, "/register") && args.len() == 2 {
            return Some(self.do_register(args[0].as_str(), args[1].as_str()));
        }
        if str_eq(cmd, "/login") && args.len() == 2 {
            return Some(self.do_login(args[0].as_str(), args[1].as_str(), now));
        }
        if str_eq(cmd, "/logout") && args.len() == 1 {
            return Some(self.do_logout(args[0].as_str(), now));
        }
        if str_eq(cmd, "/validate_session") && args.len() == 1 {
            return Some(self.do_validate(args[0].as_str(), now));
        }
        if str_eq(cmd, "/users") && args.len() == 0 {
            let names = self.state.list_online();
            let csv = render_csv(&names);
            return Some(render_ok(csv.as_str()));
        }
        if str_eq(cmd, "/all_users") && args.len() == 0 {
            let names = self.state.list_all(None);
            let csv = render_csv(&names);
            return Some(render_ok(csv.as_str()));
        }
        if str_eq(cmd, "/create_group") && args.len() == 2 {
            return Some(self.do_create_group(args[0].as_str(), args[1].as_str(), now));
        }
        if str_eq(cmd, "/my_groups") && args.len() == 1 {
            return Some(match self.state.validate(args[0].as_str(), now) {
                None => render_err(ServiceError::InvalidSession, max_len),
                Some(uid) => {
                    let entries = self.state.my_groups(uid.as_str());
                    let texts = render_group_entries(&entries);
                    let csv = render_csv(&texts);
                    let mut p = String::from_str("My groups: ");
                    p.append(csv.as_str());
                    render_ok(p.as_str())
                },
            });
        }
        if str_eq(cmd, "/invite") && args.len() == 3 {
            return Some(self.do_invite(args[0].as_str(), args[1].as_str(), args[2].as_str(), now));
        }
        if str_eq(cmd, "/accept_invite") && args.len() == 2 {
            return Some(self.do_accept_invite(args[0].as_str(), args[1].as_str(), now));
        }
        if str_eq(cmd, "/reject_invite") && args.len() == 2 {
            return Some(self.do_reject_invite(args[0].as_str(), args[1].as_str(), now));
        }
        if str_eq(cmd, "/my_invites") && args.len() == 1 {
            return Some(match self.state.validate(args[0].as_str(), now) {
                None => render_err(ServiceError::InvalidSession, max_len),
                Some(uid) => {
                    let entries = self.state.my_invites(uid.as_str());
                    let texts = render_invite_entries(&entries);
                    let piped = render_piped(&texts);
                    let mut p = String::from_str("Invites: ");
                    p.append(piped.as_str());
                    render_ok(p.as_str())
                },
            });
        }
        if str_eq(cmd, "/join_group") && args.len() == 2 {
            return Some(match self.state.validate(args[0].as_str(), now) {
                None => render_err(ServiceError::InvalidSession, max_len),
                Some(uid) => {
                    match self.state.join_group(uid.as_str(), args[1].as_str(), now) {
                        Ok(_) => render_ok("Joined group"),
                        Err(e) => render_err(e, max_len),
                    }
                },
            });
        }
        if str_eq(cmd, "/leave_group") && args.len() == 2 {
            return Some(match self.state.validate(args[0].as_str(), now) {
                None => render_err(ServiceError::InvalidSession, max_len),
                Some(uid) => {
                    match self.state.leave_group(uid.as_str(), args[1].as_str()) {
                        Ok(_) => render_ok("Left group"),
                        Err(e) => render_err(e, max_len),
                    }
                },
            });
        }
        None
    }

    /// Routes one parsed request: checks the command and its argument count,
    /// validates the session where one is required, performs the operation
    /// and renders the one-line (or multi-line) response.
    #[verifier::rlimit(100)]
    fn route_command(&mut self, cmd: &str, args: &Vec<String>, now: i64) -> (r: String)
        requires
            old(self).state.wf(),
            old(self).config.session_ttl >= 1,
            old(self).state.next_user < u64::MAX,
            old(self).state.next_group < u64::MAX,
            old(self).state.next_invite < u64::MAX,
            old(self).state.next_message < u64::MAX,
            old(self).state.next_event < u64::MAX,
            old(self).config.max_message_length <= 0x100_0000,
            now < i64::MAX,
        ensures
            final(self).state.wf(),
            final(self).config.max_message_length == old(self).config.max_message_length,
            final(self).config.session_ttl == old(self).config.session_ttl,
            final(self).config.enable_encryption == old(self).config.enable_encryption,
            final(self).config.master_key@ == old(self).config.master_key@,
    !recognized(cmd@, args@.len() as nat) ==> r@ == resp_err(
                err_text(ServiceError::Unknown, old(self).config.max_message_length as nat),
            ) && final(self).state.same_as(old(self).state),
    cmd@ == "/register"@ && args@.len() == 2 ==> register_outcome(
                old(self).state,
                final(self).state,
                args@[0]@,
                args@[1]@,
                r@,
                old(self).config.max_message_length as nat,
            ),
    cmd@ == "/login"@ && args@.len() == 2 ==> login_outcome(
                old(self).state,
                final(self).state,
                args@[0]@,
                args@[1]@,
                r@,
                old(self).config.max_message_length as nat,
                now,
            ),
    cmd@ == "/validate_session"@ && args@.len() == 1 ==> validate_outcome(
                old(self).state,
                final(self).state,
                args@[0]@,
                r@,
                old(self).config.max_message_length as nat,
                now,
            ),
    cmd@ == "/logout"@ && args@.len() == 1 ==> logout_outcome(
                old(self).state,
                final(self).state,
                args@[0]@,
                r@,
                old(self).config.max_message_length as nat,
                now,
            ),
    cmd@ == "/users"@ && args@.len() == 0 ==> r@ == resp_ok(
                csv_of(crate::users::online_names(old(self).state.users@)),
            ) && final(self).state.same_as(old(self).state),
    cmd@ == "/all_users"@ && args@.len() == 0 ==> r@ == resp_ok(
                csv_of(crate::users::all_names_except(old(self).state.users@, None)),
            ) && final(self).state.same_as(old(self).state),
    cmd@ == "/create_group"@ && args@.len() == 2 ==> ({
                let live = crate::model::live_token(old(self).state.sessions@, args@[0]@, now);
                &&& (!live ==> r@ == resp_err(
                    err_text(
                        ServiceError::InvalidSession,
                        old(self).config.max_message_length as nat,
                    ),
                ) && final(self).state.same_as(old(self).state))
                &&& (live ==> r@ == resp_ok(
                    "Group created: "@ + crate::model::gid_str(
                        old(self).state.next_group as nat,
                    ),
                ) && crate::model::group_with_id(
                    final(self).state.groups@,
                    crate::model::gid_str(old(self).state.next_group as nat),
                ) && crate::model::is_member(
                    final(self).state.members@,
                    crate::model::gid_str(old(self).state.next_group as nat),
                    crate::model::token_user(old(self).state.sessions@, args@[0]@, now)->Some_0,
                ))
            }),
    cmd@ == "/accept_invite"@ && args@.len() == 2 ==> accept_invite_outcome(
                old(self).state,
                final(self).state,
                args@[0]@,
                args@[1]@,
                r@,
                old(self).config.max_message_length as nat,
                now,
            ),
    cmd@ == "/send_private_message"@ && args@.len() >= 3 ==> ({
                let live = crate::model::live_token(old(self).state.sessions@, args@[0]@, now);
                let named = crate::model::user_named(old(self).state.users@, args@[1]@);
                let msg = joined_with_spaces(crate::crypto::views_of(args@).skip(2));
                let max = old(self).config.max_message_length as nat;
                send_outcome(
                    old(self).state,
                    final(self).state,
                    r@,
                    old(self).config.max_message_length as nat,
                    live,
                    live && named && msg.len() <= old(self).config.max_message_length as nat,
                    ServiceError::UserNotFound,
                    live && !named,
                    false,
                    live && named && msg.len() > old(self).config.max_message_length as nat,
                )
            }),
    cmd@ == "/send_group_message"@ && args@.len() >= 3 ==> ({
                let live = crate::model::live_token(old(self).state.sessions@, args@[0]@, now);
                let known = crate::model::group_with_id(old(self).state.groups@, args@[1]@);
                let member = live && known && crate::model::is_member(
                    old(self).state.members@,
                    args@[1]@,
                    crate::model::token_user(old(self).state.sessions@, args@[0]@, now)->Some_0,
                );
                let msg = joined_with_spaces(crate::crypto::views_of(args@).skip(2));
                let max = old(self).config.max_message_length as nat;
                send_outcome(
                    old(self).state,
                    final(self).state,
                    r@,
                    old(self).config.max_message_length as nat,
                    live,
                    member && msg.len() <= old(self).config.max_message_length as nat,
                    ServiceError::GroupNotFound,
                    live && !known,
                    live && known && !member,
                    member && msg.len() > old(self).config.max_message_length as nat,
                )
            }),
    cmd@ == "/get_private_messages"@ && args@.len() == 2 ==> ({
                let live = crate::model::live_token(old(self).state.sessions@, args@[0]@, now);
                let named = crate::model::user_named(old(self).state.users@, args@[1]@);
                &&& final(self).state.same_as(old(self).state)
                &&& (!live ==> r@ == resp_err(
                    err_text(
                        ServiceError::InvalidSession,
                        old(self).config.max_message_length as nat,
                    ),
                ))
                &&& (live && !named ==> r@ == resp_err(
                    err_text(
                        ServiceError::UserNotFound,
                        old(self).config.max_message_length as nat,
                    ),
                ))
                &&& (live && named ==> exists|ls: Seq<Seq<char>>|
                    r@ == #[trigger] multiline_response(ls))
            }),
    cmd@ == "/get_group_messages"@ && args@.len() == 2 ==> ({
                let live = crate::model::live_token(old(self).state.sessions@, args@[0]@, now);
                let known = crate::model::group_with_id(old(self).state.groups@, args@[1]@);
                let member = live && known && crate::model::is_member(
                    old(self).state.members@,
                    args@[1]@,
                    crate::model::token_user(old(self).state.sessions@, args@[0]@, now)->Some_0,
                );
                &&& final(self).state.same_as(old(self).state)
                &&& (!live ==> r@ == resp_err(
                    err_text(
                        ServiceError::InvalidSession,
                        old(self).config.max_message_length as nat,
                    ),
                ))
                &&& (live && known && !member ==> r@ == resp_err(
                    err_text(
                        ServiceError::NotAMember,
                        old(self).config.max_message_length as nat,
                    ),
                ))
                &&& (member ==> exists|ls: Seq<Seq<char>>|
                    r@ == #[trigger] multiline_response(ls))
            }),
    cmd@ == "/invite"@ && args@.len() == 3 ==> invite_outcome(
                old(self).state,
                final(self).state,
                args@[0]@,
                args@[1]@,
                args@[2]@,
                r@,
                old(self).config.max_message_length as nat,
                now,
            ),
    cmd@ == "/reject_invite"@ && args@.len() == 2 ==> reject_invite_outcome(
                old(self).state,
                final(self).state,
                args@[0]@,
                args@[1]@,
                r@,
                old(self).config.max_message_length as nat,
                now,
            ),
    cmd@ == "/send_friend_request"@ && args@.len() >= 2 ==> friend_outcome(
                old(self).state,
                final(self).state,
                args@[0]@,
                args@[1]@,
                r@,
                old(self).config.max_message_length as nat,
                now,
                0,
            ),
    cmd@ == "/accept_friend_request"@ && args@.len() == 2 ==> friend_outcome(
                old(self).state,
                final(self).state,
                args@[0]@,
                args@[1]@,
                r@,
                old(self).config.max_message_length as nat,
                now,
                1,
            ),
    cmd@ == "/reject_friend_request"@ && args@.len() == 2 ==> friend_outcome(
                old(self).state,
                final(self).state,
                args@[0]@,
                args@[1]@,
                r@,
                old(self).config.max_message_length as nat,
                now,
                2,
            ),
    cmd@ == "/my_groups"@ && args@.len() == 1 ==> ({
                let live = crate::model::live_token(old(self).state.sessions@, args@[0]@, now);
                &&& final(self).state.same_as(old(self).state)
                &&& (!live ==> r@ == resp_err(
                    err_text(
                        ServiceError::InvalidSession,
                        old(self).config.max_message_length as nat,
                    ),
                ))
                &&& (live ==> r@ == resp_ok(
                    "My groups: "@ + csv_of(
                        group_entry_texts(
                            crate::groups::group_entries(
                                old(self).state.groups@,
                                old(self).state.members@,
                                crate::model::token_user(
                                    old(self).state.sessions@,
                                    args@[0]@,
                                    now,
                                )->Some_0,
                            ),
                        ),
                    ),
                ))
            }),
    cmd@ == "/my_invites"@ && args@.len() == 1 ==> ({
                let live = crate::model::live_token(old(self).state.sessions@, args@[0]@, now);
                &&& final(self).state.same_as(old(self).state)
                &&& (!live ==> r@ == resp_err(err_text(ServiceError::InvalidSession, old(self).config.max_message_length as nat)))
                &&& (live ==> r@ == resp_ok(
                    "Invites: "@ + piped_of(
                        invite_entry_texts(
                            crate::groups::invite_entries(
                                old(self).state.invites@,
                                old(self).state.groups@,
                                old(self).state.users@,
                                crate::model::token_user(
                                    old(self).state.sessions@,
                                    args@[0]@,
                                    now,
                                )->Some_0,
                            ),
                        ),
                    ),
                ))
            }),
    cmd@ == "/list_friends"@ && args@.len() == 1 ==> ({
                let live = crate::model::live_token(old(self).state.sessions@, args@[0]@, now);
                &&& final(self).state.same_as(old(self).state)
                &&& (!live ==> r@ == resp_err(err_text(ServiceError::InvalidSession, old(self).config.max_message_length as nat)))
                &&& (live ==> r@ == resp_ok(
                    "Friends: "@ + csv_of(
                        crate::users::friend_names(
                            old(self).state.friend_requests@,
                            old(self).state.users@,
                            crate::model::token_user(
                                old(self).state.sessions@,
                                args@[0]@,
                                now,
                            )->Some_0,
                        ),
                    ),
                ))
            }),
    cmd@ == "/received_friend_requests"@ && args@.len() == 1 ==> ({
                let live = crate::model::live_token(old(self).state.sessions@, args@[0]@, now);
                &&& final(self).state.same_as(old(self).state)
                &&& (!live ==> r@ == resp_err(err_text(ServiceError::InvalidSession, old(self).config.max_message_length as nat)))
                &&& (live ==> r@ == resp_ok(
                    "Received requests: "@ + piped_of(
                        pair_texts(
                            crate::users::request_pairs(
                                old(self).state.friend_requests@,
                                old(self).state.users@,
                                crate::model::token_user(
                                    old(self).state.sessions@,
                                    args@[0]@,
                                    now,
                                )->Some_0,
                                true,
                            ),
                        ),
                    ),
                ))
            }),
    cmd@ == "/sent_friend_requests"@ && args@.len() == 1 ==> ({
                let live = crate::model::live_token(old(self).state.sessions@, args@[0]@, now);
                &&& final(self).state.same_as(old(self).state)
                &&& (!live ==> r@ == resp_err(err_text(ServiceError::InvalidSession, old(self).config.max_message_length as nat)))
                &&& (live ==> r@ == resp_ok(
                    "Sent requests: "@ + piped_of(
                        pair_texts(
                            crate::users::request_pairs(
                                old(self).state.friend_requests@,
                                old(self).state.users@,
                                crate::model::token_user(
                                    old(self).state.sessions@,
                                    args@[0]@,
                                    now,
                                )->Some_0,
                                false,
                            ),
                        ),
                    ),
                ))
            }),
    cmd@ == "/join_group"@ && args@.len() == 2 ==> ({
                let live = crate::model::live_token(old(self).state.sessions@, args@[0]@, now);
                let uid = crate::model::token_user(old(self).state.sessions@, args@[0]@, now)
                    ->Some_0;
                let known = crate::model::group_with_id(old(self).state.groups@, args@[1]@);
                let member = crate::model::is_member(old(self).state.members@, args@[1]@, uid);
                &&& (!live ==> r@ == resp_err(
                    err_text(
                        ServiceError::InvalidSession,
                        old(self).config.max_message_length as nat,
                    ),
                ) && final(self).state.same_as(old(self).state))
                &&& (live && !known ==> r@ == resp_err(
                    err_text(
                        ServiceError::GroupNotFound,
                        old(self).config.max_message_length as nat,
                    ),
                ) && final(self).state.same_as(old(self).state))
                &&& (live && known && member ==> r@ == resp_err(
                    err_text(
                        ServiceError::AlreadyMember,
                        old(self).config.max_message_length as nat,
                    ),
                ) && final(self).state.same_as(old(self).state))
                &&& (live && known && !member ==> r@ == resp_ok("Joined group"@)
                    && crate::model::is_member(final(self).state.members@, args@[1]@, uid))
            }),
    cmd@ == "/leave_group"@ && args@.len() == 2 ==> ({
                let live = crate::model::live_token(old(self).state.sessions@, args@[0]@, now);
                let uid = crate::model::token_user(old(self).state.sessions@, args@[0]@, now)
                    ->Some_0;
                let member = crate::model::is_member(old(self).state.members@, args@[1]@, uid);
                &&& (!live ==> r@ == resp_err(
                    err_text(
                        ServiceError::InvalidSession,
                        old(self).config.max_message_length as nat,
                    ),
                ) && final(self).state.same_as(old(self).state))
                &&& (live && !member ==> r@ == resp_err(
                    err_text(
                        ServiceError::NotAMember,
                        old(self).config.max_message_length as nat,
                    ),
                ) && final(self).state.same_as(old(self).state))
                &&& (live && member ==> r@ == resp_ok("Left group"@) && !crate::model::is_member(
                    final(self).state.members@,
                    args@[1]@,
                    uid,
                ))
            }),
    cmd@ == "/delete_private_messages"@ && args@.len() == 2 ==> ({
                let live = crate::model::live_token(old(self).state.sessions@, args@[0]@, now);
                let named = crate::model::user_named(old(self).state.users@, args@[1]@);
                &&& (!live ==> r@ == resp_err(
                    err_text(
                        ServiceError::InvalidSession,
                        old(self).config.max_message_length as nat,
                    ),
                ) && final(self).state.same_as(old(self).state))
                &&& (live && !named ==> r@ == resp_err(
                    err_text(
                        ServiceError::UserNotFound,
                        old(self).config.max_message_length as nat,
                    ),
                ) && final(self).state.same_as(old(self).state))
                &&& (live && named ==> r@ == resp_ok("Messages deleted"@) && ({
                    let me = crate::model::token_user(
                        old(self).state.sessions@,
                        args@[0]@,
                        now,
                    )->Some_0;
                    let other = old(self).state.users@[crate::model::user_index_named(
                        old(self).state.users@,
                        args@[1]@,
                    )].id@;
                    crate::messaging::rows_of(
                        final(self).state.messages@,
                        crate::messaging::private_chat_id(me, other),
                    ).len() == 0
                }))
            }),
    cmd@ == "/delete_group_messages"@ && args@.len() == 2 ==> ({
                let live = crate::model::live_token(old(self).state.sessions@, args@[0]@, now);
                let uid = crate::model::token_user(old(self).state.sessions@, args@[0]@, now)
                    ->Some_0;
                let member = crate::model::is_member(old(self).state.members@, args@[1]@, uid);
                &&& (!live ==> r@ == resp_err(
                    err_text(
                        ServiceError::InvalidSession,
                        old(self).config.max_message_length as nat,
                    ),
                ) && final(self).state.same_as(old(self).state))
                &&& (live && !member ==> r@ == resp_err(
                    err_text(
                        ServiceError::NotAMember,
                        old(self).config.max_message_length as nat,
                    ),
                ) && final(self).state.same_as(old(self).state))
                &&& (live && member ==> r@ == resp_ok("Messages deleted"@)
                    && crate::messaging::rows_of(
                    final(self).state.messages@,
                    crate::messaging::group_chat_id(args@[1]@),
                ).len() == 0)
            }),
    cmd@ == "/quit"@ && args@.len() == 0 ==> r@ == resp_ok("Disconnected"@)
                && final(self).state.same_as(old(self).state),
    {
        proof {
            lemma_response_shapes();
            lemma_command_literals();
        }
        match self.route_group_a(cmd, args, now) {
            Some(resp) => {
                return resp;
            },
            None => {},
        }
        let max_len = self.config.max_message_length;
        if str_eq(cmd, "/send_group_message") && args.len() >= 3 {
            let msg = join_from(args, 2);
            return self.do_send(args[0].as_str(), args[1].as_str(), msg.as_str(), now, false);
        }
        if str_eq(cmd, "/send_private_message") && args.len() >= 3 {
            let msg = join_from(args, 2);
            return self.do_send(args[0].as_str(), args[1].as_str(), msg.as_str(), now, true);
        }
        if str_eq(cmd, "/get_group_messages") && args.len() == 2 {
            return self.do_get(args[0].as_str(), args[1].as_str(), now, false);
        }
        if str_eq(cmd, "/get_private_messages") && args.len() == 2 {
            return self.do_get(args[0].as_str(), args[1].as_str(), now, true);
        }
        if str_eq(cmd, "/delete_group_messages") && args.len() == 2 {
            return match crate::messaging::delete_group_messages(
                &mut self.state,
                args[0].as_str(),
                args[1].as_str(),
                now,
            ) {
                Ok(_) => render_ok("Messages deleted"),
                Err(e) => render_err(e, max_len),
            };
        }
        if str_eq(cmd, "/delete_private_messages") && args.len() == 2 {
            return match crate::messaging::delete_private_messages(
                &mut self.state,
                args[0].as_str(),
                args[1].as_str(),
                now,
            ) {
                Ok(_) => render_ok("Messages deleted"),
                Err(e) => render_err(e, max_len),
            };
        }
        if str_eq(cmd, "/send_friend_request") && args.len() >= 2 {
            let msg = join_from(args, 2);
            return self.do_friend(args[0].as_str(), args[1].as_str(), msg.as_str(), now, 0);
        }
        if str_eq(cmd, "/accept_friend_request") && args.len() == 2 {
            return self.do_friend(args[0].as_str(), args[1].as_str(), "", now, 1);
        }
        if str_eq(cmd, "/reject_friend_request") && args.len() == 2 {
            return self.do_friend(args[0].as_str(), args[1].as_str(), "", now, 2);
        }
        if str_eq(cmd, "/list_friends") && args.len() == 1 {
            return match self.state.validate(args[0].as_str(), now) {
                None => render_err(ServiceError::InvalidSession, max_len),
                Some(uid) => {
                    let names = self.state.list_friends(uid.as_str());
                    let csv = render_csv(&names);
                    let mut p = String::from_str("Friends: ");
                    p.append(csv.as_str());
                    render_ok(p.as_str())
                },
            };
        }
        if str_eq(cmd, "/received_friend_requests") && args.len() == 1 {
            return match self.state.validate(args[0].as_str(), now) {
                None => render_err(ServiceError::InvalidSession, max_len),
                Some(uid) => {
                    let entries = self.state.received_friend_requests(uid.as_str());
                    let texts = render_pair_entries(&entries);
                    let piped = render_piped(&texts);
                    let mut p = String::from_str("Received requests: ");
                    p.append(piped.as_str());
                    render_ok(p.as_str())
                },
            };
        }
        if str_eq(cmd, "/sent_friend_requests") && args.len() == 1 {
            return match self.state.validate(args[0].as_str(), now) {
                None => render_err(ServiceError::InvalidSession, max_len),
                Some(uid) => {
                    let entries = self.state.sent_friend_requests(uid.as_str());
                    let texts = render_pair_entries(&entries);
                    let piped = render_piped(&texts);
                    let mut p = String::from_str("Sent requests: ");
                    p.append(piped.as_str());
                    render_ok(p.as_str())
                },
            };
        }
        if str_eq(cmd, "/help") && args.len() == 0 {
            return render_ok(
                "Commands: /register /login /logout /validate_session /users /all_users /create_group /my_groups /invite /accept_invite /reject_invite /my_invites /join_group /leave_group /send_group_message /send_private_message /get_group_messages /get_private_messages /delete_group_messages /delete_private_messages /send_friend_request /accept_friend_request /reject_friend_request /list_friends /received_friend_requests /sent_friend_requests /help /quit",
            );
        }
        if str_eq(cmd, "/quit") && args.len() == 0 {
            return render_ok("Disconnected");
        }
        render_err(ServiceError::Unknown, max_len)
    }

    /// Splits a raw request line into its whitespace-separated words and
    /// routes it: a line with no words (empty or all whitespace) answers the
    /// empty string and changes nothing; any other line answers exactly as
    /// `handle_command` does on its first word and the remaining words.
    pub fn handle_line(&mut self, line: &str, now: i64) -> (r: String)
        requires
            old(self).state.wf(),
            old(self).config.session_ttl >= 1,
            old(self).state.next_user < u64::MAX,
            old(self).state.next_group < u64::MAX,
            old(self).state.next_invite < u64::MAX,
            old(self).state.next_message < u64::MAX,
            old(self).state.next_event < u64::MAX,
            old(self).config.max_message_length <= 0x100_0000,
            now < i64::MAX,
        ensures
            final(self).state.wf(),
            final(self).config.max_message_length == old(self).config.max_message_length,
            final(self).config.session_ttl == old(self).config.session_ttl,
            final(self).config.enable_encryption == old(self).config.enable_encryption,
            final(self).config.master_key@ == old(self).config.master_key@,
            words_of(line@).len() == 0 ==> r@ == Seq::<char>::empty()
                && final(self).state.same_as(old(self).state),
            words_of(line@).len() > 0 ==> command_outcome(
                old(self).state,
                final(self).state,
                words_of(line@)[0],
                words_of(line@).drop_first(),
                r@,
                old(self).config.max_message_length as nat,
                now,
            ),
    {
        let words = split_words(line);
        let ghost wv = crate::crypto::views_of(words@);
        if words.len() == 0 {
            proof {
                assert(wv =~= Seq::<Seq<char>>::empty());
                assert(words_of(line@).len() == 0);
            }
            return String::new();
        }
        let cmd = words[0].clone();
        let mut rest: Vec<String> = Vec::new();
        let mut i: usize = 1;
        while i < words.len()
            invariant
                1 <= i <= words@.len(),
                wv == crate::crypto::views_of(words@),
                crate::crypto::views_of(rest@) == wv.subrange(1, i as int),
            decreases words@.len() - i,
        {
            let ghost pre = rest@;
            rest.push(words[i].clone());
            proof {
                assert(crate::crypto::views_of(rest@) =~= crate::crypto::views_of(pre).push(
                    wv[i as int],
                ));
                assert(crate::crypto::views_of(rest@) =~= wv.subrange(1, i as int + 1));
            }
            i = i + 1;
        }
        proof {
            assert(crate::crypto::views_of(rest@) =~= wv.drop_first());
            assert(cmd@ == wv[0]);
        }
        self.handle_command(cmd.as_str(), &rest, now)
    }
}

} // verus!
