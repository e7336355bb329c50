//! Client-side parsing of the server's multi-line message responses. The
//! batch framing parsed here is the same framing the dispatcher renders: a
//! batch rendered by the server reads back as exactly its lines.
use vstd::prelude::*;

use crate::client_model::ChatMessage;
use crate::dispatch::{lines_block, multiline_response};
use crate::crypto::views_of;
use crate::textnum::parse_i64;

verus! {

/// A whitespace character.
pub open spec fn ws_char(c: char) -> bool {
    c == ' ' || c == '\t' || c == '\r' || c == '\n'
}

/// A line as the dispatcher renders it into a batch: non-empty, no embedded
/// newline, and no whitespace at either edge.
pub open spec fn clean_line(l: Seq<char>) -> bool {
    &&& l.len() > 0
    &&& !ws_char(l[0])
    &&& !ws_char(l[l.len() - 1])
    &&& forall|i: int| 0 <= i < l.len() ==> (#[trigger] l[i]) != '\n'
}

/// The response begins with the batch header.
pub open spec fn has_batch_header(s: Seq<char>) -> bool {
    s.len() >= 13 && s.subrange(0, 13) == "OK: Messages:"@
}

/// How many whitespace characters the string starts with.
pub open spec fn ltrim(s: Seq<char>) -> int
    decreases s.len(),
{
    if s.len() == 0 || !ws_char(s[0]) {
        0
    } else {
        1 + ltrim(s.drop_first())
    }
}

/// The string with its leading whitespace removed.
pub open spec fn ltrimmed(s: Seq<char>) -> Seq<char> {
    s.skip(ltrim(s))
}

/// A scan that stops at the first non-whitespace character stands exactly at
/// the leading-whitespace count.
proof fn lemma_ltrim_at(s: Seq<char>, a: int)
    requires
        0 <= a <= s.len(),
        forall|j: int| 0 <= j < a ==> ws_char(#[trigger] s[j]),
        a < s.len() ==> !ws_char(s[a]),
    ensures
        ltrim(s) == a,
    decreases a,
{
    if a == 0 {
    } else {
        assert(ws_char(s[0]));
        let rest = s.drop_first();
        assert forall|j: int| 0 <= j < a - 1 implies ws_char(#[trigger] rest[j]) by {
            assert(rest[j] == s[j + 1]);
        }
        if a - 1 < rest.len() {
            assert(rest[a - 1] == s[a]);
        }
        lemma_ltrim_at(rest, a - 1);
    }
}

/// Decides `ws_char`.
fn ws_exec(c: char) -> (r: bool)
    ensures
        r == ws_char(c),
{
    c == ' ' || c == '\t' || c == '\r' || c == '\n'
}

/// First index at or after `from` holding a newline; the length of the
/// string when there is none.
fn find_newline(s: &str, from: usize) -> (r: usize)
    requires
        from <= s@.len(),
    ensures
        from <= r <= s@.len(),
        forall|j: int| from <= j < r ==> (#[trigger] s@[j]) != '\n',
        r < s@.len() ==> s@[r as int] == '\n',
{
    let n = s.unicode_len();
    let mut i: usize = from;
    while i < n
        invariant
            from <= i <= n,
            n == s@.len(),
            forall|j: int| from <= j < i ==> (#[trigger] s@[j]) != '\n',
        decreases n - i,
    {
        if s.get_char(i) == '\n' {
            return i;
        }
        i = i + 1;
    }
    n
}

/// Strips whitespace from both edges of a segment.
fn trim_segment(s: &str, lo: usize, hi: usize) -> (r: String)
    requires
        lo <= hi <= s@.len(),
    ensures
        clean_line(s@.subrange(lo as int, hi as int)) ==> r@ == s@.subrange(
            lo as int,
            hi as int,
        ),
        (hi - lo >= 1 && s@[lo as int] == ' ' && clean_line(
            s@.subrange(lo as int + 1, hi as int),
        )) ==> r@ == s@.subrange(lo as int + 1, hi as int),
        r@.len() <= hi - lo,
        r@.len() > 0 ==> !ws_char(r@[0]) && !ws_char(r@[r@.len() - 1]),
{
    let mut a = lo;
    let mut b = hi;
    while a < b && ws_exec(s.get_char(a))
        invariant
            lo <= a <= b <= hi,
            hi <= s@.len(),
            forall|j: int| lo <= j < a ==> ws_char(#[trigger] s@[j]),
        decreases b - a,
    {
        a = a + 1;
    }
    while b > a && ws_exec(s.get_char(b - 1))
        invariant
            lo <= a <= b <= hi,
            hi <= s@.len(),
            forall|j: int| b <= j < hi ==> ws_char(#[trigger] s@[j]),
            a < b ==> !ws_char(s@[a as int]),
        decreases b - a,
    {
        b = b - 1;
    }
    let piece = s.substring_char(a, b);
    let r = piece.to_owned();
    proof {
        assert(r@ == s@.subrange(a as int, b as int));
        if clean_line(s@.subrange(lo as int, hi as int)) {
            let seg = s@.subrange(lo as int, hi as int);
            if a != lo {
                assert(ws_char(s@[lo as int]));
                assert(seg[0] == s@[lo as int]);
            }
            assert(a == lo);
            if b != hi {
                assert(ws_char(s@[hi - 1]));
                assert(seg[seg.len() - 1] == s@[hi - 1]);
            }
            assert(b == hi);
            assert(r@ =~= seg);
        }
        if hi - lo >= 1 && s@[lo as int] == ' ' && clean_line(
            s@.subrange(lo as int + 1, hi as int),
        ) {
            let tail = s@.subrange(lo as int + 1, hi as int);
            assert(a != lo) by {
                if a == lo {
                    assert(!ws_char(s@[a as int]) || a == b);
                    assert(tail.len() > 0);
                    assert(tail[tail.len() - 1] == s@[hi - 1]);
                }
            }
            if a != lo + 1 {
                assert(ws_char(s@[lo as int + 1]));
                assert(tail[0] == s@[lo as int + 1]);
            }
            assert(a == lo + 1);
            if b != hi {
                assert(ws_char(s@[hi - 1]));
                assert(tail[tail.len() - 1] == s@[hi - 1]);
            }
            assert(b == hi);
            assert(r@ =~= tail);
        }
    }
    r
}

/// Reads a batch response into its message lines, ignoring leading
/// whitespace as the client does. A response whose trimmed text is a batch
/// rendered by the dispatcher from clean lines reads back as exactly those
/// lines; one whose trimmed text does not start with the batch header is
/// rejected with the one parse error.
pub fn parse_messages(resp: &str) -> (r: Result<Vec<String>, &'static str>)
    ensures
        r is Ok <==> has_batch_header(ltrimmed(resp@)),
        r matches Err(e) ==> e@ == "unexpected response format"@,
        forall|ls: Seq<Seq<char>>|
            (forall|i: int| 0 <= i < ls.len() ==> clean_line(#[trigger] ls[i])) && ltrimmed(resp@)
                == #[trigger] multiline_response(ls) ==> (r matches Ok(v) && views_of(v@) == ls),
{
    proof {
        reveal_strlit("unexpected response format");
    }
    let full_len = resp.unicode_len();
    let mut a: usize = 0;
    while a < full_len && ws_exec(resp.get_char(a))
        invariant
            0 <= a <= full_len,
            full_len == resp@.len(),
            forall|j: int| 0 <= j < a ==> ws_char(#[trigger] resp@[j]),
        decreases full_len - a,
    {
        a = a + 1;
    }
    proof {
        lemma_ltrim_at(resp@, a as int);
    }
    let trimmed_piece = resp.substring_char(a, full_len);
    let t = trimmed_piece.to_owned();
    proof {
        assert(t@ == ltrimmed(resp@));
    }
    let t = t.as_str();

    proof {
        reveal_strlit("OK: Messages:");
        reveal_strlit("OK: Messages:\n");
        assert("OK: Messages:\n"@.subrange(0, 13) =~= "OK: Messages:"@);
    }
    let n = t.unicode_len();
    if n < 13 {
        proof {
            assert forall|ls: Seq<Seq<char>>|
                !((forall|i: int| 0 <= i < ls.len() ==> clean_line(#[trigger] ls[i])) && t@
                    == #[trigger] multiline_response(ls)) by {
                if t@ == multiline_response(ls) {
                    assert(t@.len() >= 14);
                }
            }
        }
        return Err("unexpected response format");
    }
    let head = t.substring_char(0, 13);
    if !crate::lex::str_eq(head, "OK: Messages:") {
        proof {
            assert forall|ls: Seq<Seq<char>>|
                !((forall|i: int| 0 <= i < ls.len() ==> clean_line(#[trigger] ls[i])) && t@
                    == #[trigger] multiline_response(ls)) by {
                if t@ == multiline_response(ls) {
                    assert(t@.subrange(0, 13) =~= "OK: Messages:"@);
                    assert(head@ == t@.subrange(0, 13));
                }
            }
        }
        return Err("unexpected response format");
    }
    proof {
        assert(has_batch_header(t@));
    }
    let first_nl = find_newline(t, 13);
    let mut out: Vec<String> = Vec::new();
    if first_nl >= n {
        proof {
            assert forall|ls: Seq<Seq<char>>|
                (forall|i: int| 0 <= i < ls.len() ==> clean_line(#[trigger] ls[i])) && t@
                    == #[trigger] multiline_response(ls) implies views_of(out@) == ls by {
                assert(t@[13] == '\n');
            }
        }
        return Ok(out);
    }
    let ghost whole = t@;
    let mut p: usize = first_nl + 1;
    proof {
        assert forall|ls: Seq<Seq<char>>|
            (forall|i: int| 0 <= i < ls.len() ==> clean_line(#[trigger] ls[i])) && whole
                == #[trigger] multiline_response(ls) implies parse_progress(
            ls,
            views_of(out@),
            p as int,
        ) by {
            assert(whole[13] == '\n');
            assert(first_nl == 13);
            assert(views_of(out@) =~= Seq::<Seq<char>>::empty());
            assert(ls.subrange(0, 0) =~= Seq::<Seq<char>>::empty());
            assert(lines_block(ls.subrange(0, 0)).len() == 0);
            assert(views_of(out@) == ls.subrange(0, 0));
        }
    }
    while p < n
        invariant
            first_nl + 1 <= p <= n,
            n == t@.len(),
            whole == t@,
            first_nl < n,
            t@[first_nl as int] == '\n',
            forall|j: int| 13 <= j < first_nl ==> (#[trigger] t@[j]) != '\n',
            has_batch_header(t@),
            forall|k: int|
                0 <= k < out@.len() ==> (#[trigger] out@[k])@.len() > 0 && !ws_char(out@[k]@[0])
                    && !ws_char(out@[k]@[out@[k]@.len() - 1]),
            forall|ls: Seq<Seq<char>>|
                (forall|i: int| 0 <= i < ls.len() ==> clean_line(#[trigger] ls[i])) && whole
                    == #[trigger] multiline_response(ls) ==> parse_progress(
                    ls,
                    views_of(out@),
                    p as int,
                ),
        decreases n - p,
    {
        let e = find_newline(t, p);
        let seg = trim_segment(t, p, e);
        let ghost segview = seg@;
        let ghost pre_out = out@;
        if seg.unicode_len() > 0 {
            out.push(seg);
        }
        proof {
            assert forall|ls: Seq<Seq<char>>|
                (forall|i: int| 0 <= i < ls.len() ==> clean_line(#[trigger] ls[i])) && whole
                    == #[trigger] multiline_response(ls) implies parse_progress(
                ls,
                views_of(out@),
                if e < n {
                    e as int + 1
                } else {
                    n as int
                },
            ) by {
                if segview.len() > 0 {
                    assert(views_of(out@) =~= views_of(pre_out).push(segview));
                } else {
                    assert(views_of(out@) =~= views_of(pre_out));
                }
                lemma_parse_step(
                    ls,
                    views_of(pre_out),
                    whole,
                    p as int,
                    e as int,
                    segview,
                    views_of(out@),
                );
            }
        }
        if e >= n {
            p = n;
        } else {
            p = e + 1;
        }
    }
    proof {
        assert forall|ls: Seq<Seq<char>>|
            (forall|i: int| 0 <= i < ls.len() ==> clean_line(#[trigger] ls[i])) && whole
                == #[trigger] multiline_response(ls) implies views_of(out@) == ls by {
            assert(parse_progress(ls, views_of(out@), n as int));
            lemma_parse_done(ls, views_of(out@), whole);
        }
    }
    Ok(out)
}

/// The parse has consumed exactly the first `count` lines when it stands at
/// position `p`: the collected lines are a prefix of the batch and `p` is
/// the start of the next line's segment.
pub open spec fn parse_progress(ls: Seq<Seq<char>>, got: Seq<Seq<char>>, p: int) -> bool {
    &&& got.len() <= ls.len()
    &&& got == ls.subrange(0, got.len() as int)
    &&& p == 14 + lines_block(ls.subrange(0, got.len() as int)).len()
}

/// The rendered batch positions each line's segment directly after the
/// previous newline; scanning one segment advances the parse by one line.
proof fn lemma_parse_step(
    ls: Seq<Seq<char>>,
    got: Seq<Seq<char>>,
    whole: Seq<char>,
    p: int,
    e: int,
    seg: Seq<char>,
    got2: Seq<Seq<char>>,
)
    requires
        forall|i: int| 0 <= i < ls.len() ==> clean_line(#[trigger] ls[i]),
        whole == multiline_response(ls),
        parse_progress(ls, got, p),
        p <= e <= whole.len(),
        forall|j: int| p <= j < e ==> (#[trigger] whole[j]) != '\n',
        e < whole.len() ==> whole[e] == '\n',
        p < whole.len(),
        clean_line(whole.subrange(p, e)) ==> seg == whole.subrange(p, e),
        seg.len() <= e - p,
        got2 == if seg.len() > 0 {
            got.push(seg)
        } else {
            got
        },
    ensures
        parse_progress(
            ls,
            got2,
            if e < whole.len() {
                e + 1
            } else {
                whole.len() as int
            },
        ),
    decreases 0int,
{
    reveal_strlit("OK: Messages:\n");
    reveal_strlit("\n");
    let k = got.len() as int;
    lemma_lines_block_len(ls, k);
    assert(k < ls.len()) by {
        if k == ls.len() {
            assert(ls.subrange(0, k) =~= ls);
            assert(whole.len() == 14 + lines_block(ls).len());
        }
    }
    let lk = ls[k];
    lemma_lines_block_split(ls, k);
    assert(whole.subrange(p, p + lk.len() as int) =~= lk);
    assert(whole[p + lk.len()] == '\n');
    assert forall|j: int| p <= j < p + lk.len() implies whole[j] != '\n' by {
        assert(whole[j] == lk[j - p]);
    }
    assert(e == p + lk.len()) by {
        if e < p + lk.len() {
            assert(whole[e] == lk[e - p]);
            assert(whole[e] == '\n');
        }
        if e > p + lk.len() {
            assert(whole[p + lk.len()] != '\n');
        }
    }
    assert(whole.subrange(p, e) =~= lk);
    assert(clean_line(whole.subrange(p, e)));
    assert(seg == lk);
    assert(seg.len() > 0);
    assert(got2 =~= ls.subrange(0, k + 1));
    assert(lines_block(ls.subrange(0, k + 1)) =~= lines_block(ls.subrange(0, k)) + lk + "\n"@)
        by {
        lemma_lines_block_snoc(ls, k);
    }
    assert(e + 1 == 14 + lines_block(ls.subrange(0, k + 1)).len());
    assert(e < whole.len()) by {
        lemma_lines_block_len(ls, k + 1);
    }
}

/// When the parse reaches the end of a rendered batch, it has read all of
/// its lines.
proof fn lemma_parse_done(ls: Seq<Seq<char>>, got: Seq<Seq<char>>, whole: Seq<char>)
    requires
        forall|i: int| 0 <= i < ls.len() ==> clean_line(#[trigger] ls[i]),
        whole == multiline_response(ls),
        parse_progress(ls, got, whole.len() as int),
    ensures
        got == ls,
{
    reveal_strlit("OK: Messages:\n");
    reveal_strlit("\n");
    let k = got.len() as int;
    if k < ls.len() {
        lemma_lines_block_len(ls, k);
        lemma_lines_block_len(ls, k + 1);
        lemma_lines_block_snoc(ls, k);
        assert(lines_block(ls.subrange(0, k + 1)).len() <= lines_block(ls).len()) by {
            lemma_lines_block_prefix(ls, k + 1);
        }
        assert(whole.len() == 14 + lines_block(ls).len());
        assert(ls[k].len() > 0);
    }
    assert(got =~= ls);
}

/// The rendered length of a prefix of the batch grows with the prefix.
proof fn lemma_lines_block_prefix(ls: Seq<Seq<char>>, k: int)
    requires
        0 <= k <= ls.len(),
    ensures
        lines_block(ls.subrange(0, k)).len() <= lines_block(ls).len(),
    decreases k,
{
    lemma_lines_block_concat(ls, k);
}

/// The whole batch is the rendered prefix followed by the rendered rest.
proof fn lemma_lines_block_concat(ls: Seq<Seq<char>>, k: int)
    requires
        0 <= k <= ls.len(),
    ensures
        lines_block(ls) == lines_block(ls.subrange(0, k)) + lines_block(
            ls.subrange(k, ls.len() as int),
        ),
    decreases k,
{
    if k == 0 {
        assert(ls.subrange(0, 0) =~= Seq::<Seq<char>>::empty());
        assert(ls.subrange(0, ls.len() as int) =~= ls);
        assert(lines_block(ls) =~= lines_block(ls.subrange(0, 0)) + lines_block(
            ls.subrange(0, ls.len() as int),
        ));
    } else {
        let rest = ls.drop_first();
        assert(ls.subrange(0, k).drop_first() =~= rest.subrange(0, k - 1));
        assert(ls.subrange(k, ls.len() as int) =~= rest.subrange(k - 1, rest.len() as int));
        lemma_lines_block_concat(rest, k - 1);
        assert(lines_block(ls.subrange(0, k)) =~= ls[0] + "\n"@ + lines_block(
            rest.subrange(0, k - 1),
        ));
        assert(lines_block(ls) =~= ls[0] + "\n"@ + lines_block(rest));
        assert(lines_block(ls) =~= lines_block(ls.subrange(0, k)) + lines_block(
            ls.subrange(k, ls.len() as int),
        ));
    }
}

/// Rendering one more line appends it and a newline.
proof fn lemma_lines_block_snoc(ls: Seq<Seq<char>>, k: int)
    requires
        0 <= k < ls.len(),
    ensures
        lines_block(ls.subrange(0, k + 1)) == lines_block(ls.subrange(0, k)) + ls[k] + "\n"@,
    decreases k,
{
    if k == 0 {
        assert(ls.subrange(0, 1).drop_first() =~= Seq::<Seq<char>>::empty());
        assert(ls.subrange(0, 0) =~= Seq::<Seq<char>>::empty());
        assert(lines_block(Seq::<Seq<char>>::empty()) =~= Seq::<char>::empty());
        assert(ls.subrange(0, 1)[0] == ls[0]);
        assert(lines_block(ls.subrange(0, 1)) =~= ls.subrange(0, 1)[0] + "\n"@ + lines_block(
            ls.subrange(0, 1).drop_first(),
        ));
        assert(lines_block(ls.subrange(0, 1)) =~= ls[0] + "\n"@);
        assert(lines_block(ls.subrange(0, 0)) + ls[0] + "\n"@ =~= ls[0] + "\n"@);
    } else {
        let rest = ls.drop_first();
        assert(ls.subrange(0, k + 1).drop_first() =~= rest.subrange(0, k));
        assert(ls.subrange(0, k).drop_first() =~= rest.subrange(0, k - 1));
        lemma_lines_block_snoc(rest, k - 1);
        assert(rest[k - 1] == ls[k]);
        assert(lines_block(ls.subrange(0, k + 1)) =~= ls[0] + "\n"@ + lines_block(
            rest.subrange(0, k),
        ));
        assert(lines_block(ls.subrange(0, k)) =~= ls[0] + "\n"@ + lines_block(
            rest.subrange(0, k - 1),
        ));
        assert(lines_block(ls.subrange(0, k + 1)) =~= lines_block(ls.subrange(0, k)) + ls[k]
            + "\n"@);
    }
}

/// Positions inside a rendered batch: the segment of line `k` starts right
/// after the rendered prefix.
proof fn lemma_lines_block_split(ls: Seq<Seq<char>>, k: int)
    requires
        0 <= k < ls.len(),
        forall|i: int| 0 <= i < ls.len() ==> clean_line(#[trigger] ls[i]),
    ensures
        ({
            let whole = multiline_response(ls);
            let p = 14 + lines_block(ls.subrange(0, k)).len();
            &&& p + ls[k].len() < whole.len()
            &&& whole.subrange(p as int, p + ls[k].len() as int) == ls[k]
            &&& whole[p + ls[k].len() as int] == '\n'
        }),
{
    reveal_strlit("OK: Messages:\n");
    reveal_strlit("\n");
    lemma_lines_block_concat(ls, k);
    let tail = ls.subrange(k, ls.len() as int);
    assert(tail.len() > 0);
    assert(tail[0] == ls[k]);
    assert(lines_block(tail) =~= ls[k] + "\n"@ + lines_block(tail.drop_first()));
    let whole = multiline_response(ls);
    let p = 14 + lines_block(ls.subrange(0, k)).len() as int;
    assert(whole =~= "OK: Messages:\n"@ + lines_block(ls.subrange(0, k)) + lines_block(tail));
    assert(whole.subrange(p, p + ls[k].len() as int) =~= ls[k]);
    assert(whole[p + ls[k].len() as int] == '\n');
}

/// A rendered prefix is never longer than the full batch.
proof fn lemma_lines_block_len(ls: Seq<Seq<char>>, k: int)
    requires
        0 <= k <= ls.len(),
    ensures
        14 + lines_block(ls.subrange(0, k)).len() <= 14 + lines_block(ls).len(),
{
    lemma_lines_block_concat(ls, k);
}

/// Relies on chrono's timestamp conversion and local-time formatting: the
/// rendering of the moment `ts` as `HH:MM`, which depends on the machine's
/// time zone; the empty string for a timestamp out of chrono's range.
#[verifier::external_body]
pub fn format_timestamp(ts: i64) -> (r: String)
    ensures
        r@.len() == 5 || r@.len() == 0,
{
    match chrono::DateTime::from_timestamp(ts, 0) {
        Some(dt) => dt.with_timezone(&chrono::Local).format("%H:%M").to_string(),
        None => String::new(),
    }
}

/// One of the parsed messages carries exactly these fields.
pub open spec fn message_present(
    v: Seq<ChatMessage>,
    ts: i64,
    sender: Seq<char>,
    text: Seq<char>,
) -> bool {
    exists|j: int|
        0 <= j < v.len() && (#[trigger] v[j]).timestamp == ts && v[j].sent_at == ts
            && v[j].sender@ == sender && v[j].content@ == text
}

/// Reads a batch response into displayed chat messages: each line of the
/// shape `[<timestamp>] <sender>: <text>` becomes one message carrying that
/// line's timestamp, sender and text; malformed lines are skipped, never an
/// error; and the result is ordered by timestamp. A batch the dispatcher
/// rendered from such lines comes back as one message per line.
pub fn parse_private_messages(resp: &str) -> (r: Result<Vec<ChatMessage>, &'static str>)
    ensures
        r is Ok <==> has_batch_header(ltrimmed(resp@)),
        r matches Err(e) ==> e@ == "unexpected response format"@,
        r matches Ok(v) ==> forall|a: int, b: int|
            0 <= a < b < v@.len() ==> (#[trigger] v@[a]).timestamp <= (#[trigger] v@[b]).timestamp,
        forall|ls: Seq<Seq<char>>|
            (forall|i: int| 0 <= i < ls.len() ==> clean_line(#[trigger] ls[i])) && ltrimmed(resp@)
                == #[trigger] multiline_response(ls) ==> (r matches Ok(v) && v@.len() <= ls.len()
                && (forall|k: int, ts: i64, sender: Seq<char>, text: Seq<char>|
                #![trigger ls[k], message_present(v@, ts, sender, text)]
                0 <= k < ls.len() && ts >= 0 && plain_name(sender) && clean_line(text) && ls[k]
                    == crate::messaging::message_line(ts, sender, text) ==> message_present(
                    v@,
                    ts,
                    sender,
                    text,
                ))),
{
    let lines = match parse_messages(resp) {
        Ok(ls) => ls,
        Err(e) => {
            return Err(e);
        },
    };
    let ghost lv = views_of(lines@);
    let mut out: Vec<ChatMessage> = Vec::new();
    let mut i: usize = 0;
    while i < lines.len()
        invariant
            0 <= i <= lines@.len(),
            lv == views_of(lines@),
            out@.len() <= i,
            forall|a: int, b: int|
                0 <= a < b < out@.len() ==> (#[trigger] out@[a]).timestamp <= (
                #[trigger] out@[b]).timestamp,
            forall|k: int, ts: i64, sender: Seq<char>, text: Seq<char>|
                #![trigger lv[k], message_present(out@, ts, sender, text)]
                0 <= k < i && ts >= 0 && plain_name(sender) && clean_line(text) && lv[k]
                    == crate::messaging::message_line(ts, sender, text) ==> message_present(
                    out@,
                    ts,
                    sender,
                    text,
                ),
        decreases lines@.len() - i,
    {
        let ghost cur_line = lv[i as int];
        proof {
            assert(lines@[i as int]@ == lv[i as int]);
        }
        match parse_message_line(lines[i].as_str()) {
            Some(m) => {
                let ghost mrec = m;
                let mut j: usize = 0;
                while j < out.len() && out[j].timestamp <= m.timestamp
                    invariant
                        0 <= j <= out@.len(),
                        forall|a: int| 0 <= a < j ==> (#[trigger] out@[a]).timestamp <= m.timestamp,
                    decreases out@.len() - j,
                {
                    j = j + 1;
                }
                let ghost pre = out@;
                let ghost mts = m.timestamp;
                proof {
                    if j < out@.len() {
                        assert(!(out@[j as int].timestamp <= mts) || j == out@.len());
                    }
                }
                out.insert(j, m);
                proof {
                    let nv = out@;
                    let ji = j as int;
                    assert forall|a: int, b: int| 0 <= a < b < nv.len() implies (
                    #[trigger] nv[a]).timestamp <= (#[trigger] nv[b]).timestamp by {
                        if a < ji && b == ji {
                            assert(nv[a] == pre[a]);
                        } else if a == ji && b > ji {
                            assert(nv[b] == pre[b - 1]);
                        } else if a < ji && b > ji {
                            assert(nv[a] == pre[a] && nv[b] == pre[b - 1]);
                        } else if b < ji {
                            assert(nv[a] == pre[a] && nv[b] == pre[b]);
                        } else if a > ji {
                            assert(nv[a] == pre[a - 1] && nv[b] == pre[b - 1]);
                        }
                    }
                    assert forall|k: int, ts: i64, sender: Seq<char>, text: Seq<char>|
                        #![trigger lv[k], message_present(nv, ts, sender, text)]
                        0 <= k < i + 1 && ts >= 0 && plain_name(sender) && clean_line(text)
                            && lv[k] == crate::messaging::message_line(ts, sender, text)
                            implies message_present(nv, ts, sender, text) by {
                        if k < i {
                            assert(message_present(pre, ts, sender, text));
                            let w = choose|w: int|
                                0 <= w < pre.len() && (#[trigger] pre[w]).timestamp == ts
                                    && pre[w].sent_at == ts && pre[w].sender@ == sender
                                    && pre[w].content@ == text;
                            if w < ji {
                                assert(nv[w] == pre[w]);
                            } else {
                                assert(nv[w + 1] == pre[w]);
                            }
                        } else {
                            assert(cur_line == crate::messaging::message_line(ts, sender, text));
                            assert(mrec.timestamp == ts && mrec.sender@ == sender
                                && mrec.content@ == text);
                            assert(nv[ji] == mrec);
                        }
                    }
                }
            },
            None => {
                proof {
                    assert forall|k: int, ts: i64, sender: Seq<char>, text: Seq<char>|
                        #![trigger lv[k], message_present(out@, ts, sender, text)]
                        0 <= k < i + 1 && ts >= 0 && plain_name(sender) && clean_line(text)
                            && lv[k] == crate::messaging::message_line(ts, sender, text)
                            implies message_present(out@, ts, sender, text) by {
                        if k == i {
                            assert(cur_line == crate::messaging::message_line(ts, sender, text));
                            assert(false);
                        } else {
                            assert(message_present(out@, ts, sender, text));
                        }
                    }
                }
            },
        }
        i = i + 1;
    }
    proof {
        assert forall|ls: Seq<Seq<char>>|
            (forall|q: int| 0 <= q < ls.len() ==> clean_line(#[trigger] ls[q])) && ltrimmed(resp@)
                == #[trigger] multiline_response(ls) implies lv == ls by {
            assert(views_of(lines@) == ls);
        }
    }
    Ok(out)
}

/// A username as the server displays it: non-empty, letters and digits.
pub open spec fn plain_name(s: Seq<char>) -> bool {
    s.len() > 0 && forall|i: int| 0 <= i < s.len() ==> crate::session::is_alnum(#[trigger] s[i])
}

/// Reads one `[<timestamp>] <sender>: <text>` line; `None` when the line
/// does not have that shape. A line the dispatcher rendered from a
/// non-negative timestamp, a username and clean text reads back exactly.
#[verifier::rlimit(100)]
pub fn parse_message_line(line: &str) -> (r: Option<ChatMessage>)
    ensures
        r matches Some(m) ==> m.sent_at == m.timestamp,
        forall|ts: i64, sender: Seq<char>, text: Seq<char>|
            ts >= 0 && plain_name(sender) && clean_line(text) && line@
                == #[trigger] crate::messaging::message_line(ts, sender, text) ==> (r matches Some(
                m,
            ) && m.timestamp == ts && m.sender@ == sender && m.content@ == text),
{
    proof {
        reveal_strlit("[");
        reveal_strlit("] ");
        reveal_strlit(": ");
    }
    let n = line.unicode_len();
    if n == 0 || line.get_char(0) != '[' {
        proof {
            assert forall|ts: i64, sender: Seq<char>, text: Seq<char>|
                !(ts >= 0 && plain_name(sender) && clean_line(text) && line@
                    == #[trigger] crate::messaging::message_line(ts, sender, text)) by {
                if ts >= 0 && plain_name(sender) && clean_line(text) && line@
                    == crate::messaging::message_line(ts, sender, text) {
                    lemma_rendered_line_facts(line@, ts, sender, text);
                }
            }
        }
        return None;
    }
    let mut br: usize = 1;
    while br < n && line.get_char(br) != ']'
        invariant
            1 <= br <= n,
            n == line@.len(),
            forall|j: int| 1 <= j < br ==> (#[trigger] line@[j]) != ']',
        decreases n - br,
    {
        br = br + 1;
    }
    if br >= n {
        proof {
            assert forall|ts: i64, sender: Seq<char>, text: Seq<char>|
                !(ts >= 0 && plain_name(sender) && clean_line(text) && line@
                    == #[trigger] crate::messaging::message_line(ts, sender, text)) by {
                if ts >= 0 && plain_name(sender) && clean_line(text) && line@
                    == crate::messaging::message_line(ts, sender, text) {
                    lemma_rendered_line_facts(line@, ts, sender, text);
                    let dlen = crate::textnum::dec_digits(ts as nat).len() as int;
                    assert(line@[1 + dlen] == ']');
                }
            }
        }
        return None;
    }
    let ts_text = line.substring_char(1, br);
    let ts = match parse_i64(ts_text) {
        Some(t) => t,
        None => {
            proof {
                assert forall|ts0: i64, sender: Seq<char>, text: Seq<char>|
                    !(ts0 >= 0 && plain_name(sender) && clean_line(text) && line@
                        == #[trigger] crate::messaging::message_line(ts0, sender, text)) by {
                    if ts0 >= 0 && plain_name(sender) && clean_line(text) && line@
                        == crate::messaging::message_line(ts0, sender, text) {
                        lemma_rendered_line_facts(line@, ts0, sender, text);
                        let dlen = crate::textnum::dec_digits(ts0 as nat).len() as int;
                        assert(br == 1 + dlen) by {
                            if br < 1 + dlen {
                                assert(line@[br as int] != ']');
                            }
                            if br > 1 + dlen {
                                assert(line@[1 + dlen] == ']');
                            }
                        }
                        assert(ts_text@ =~= crate::textnum::dec_digits(ts0 as nat));
                        crate::textnum::lemma_dec_digits_val(ts0 as nat);
                        assert(crate::textnum::parses_as_i64(ts_text@));
                    }
                }
            }
            return None;
        },
    };
    let mut rs: usize = br + 1;
    while rs < n && line.get_char(rs) == ' '
        invariant
            br + 1 <= rs <= n,
            n == line@.len(),
            forall|j: int| br + 1 <= j < rs ==> (#[trigger] line@[j]) == ' ',
        decreases n - rs,
    {
        rs = rs + 1;
    }
    let mut cp: usize = rs;
    while cp < n && line.get_char(cp) != ':'
        invariant
            rs <= cp <= n,
            n == line@.len(),
            forall|j: int| rs <= j < cp ==> (#[trigger] line@[j]) != ':',
        decreases n - cp,
    {
        cp = cp + 1;
    }
    if cp >= n {
        proof {
            assert forall|ts0: i64, sender: Seq<char>, text: Seq<char>|
                !(ts0 >= 0 && plain_name(sender) && clean_line(text) && line@
                    == #[trigger] crate::messaging::message_line(ts0, sender, text)) by {
                if ts0 >= 0 && plain_name(sender) && clean_line(text) && line@
                    == crate::messaging::message_line(ts0, sender, text) {
                    lemma_rendered_line_facts(line@, ts0, sender, text);
                    let dlen = crate::textnum::dec_digits(ts0 as nat).len() as int;
                    assert(br == 1 + dlen) by {
                        if br < 1 + dlen {
                            assert(line@[br as int] != ']');
                        }
                        if br > 1 + dlen {
                            assert(line@[1 + dlen] == ']');
                        }
                    }
                    assert(rs == br + 2) by {
                        assert(line@[br + 1] == ' ');
                        assert(line@[br + 2] != ' ');
                        if rs > br + 2 {
                            assert(line@[br + 2] == ' ');
                        }
                    }
                    assert(line@[3 + dlen + sender.len() as int] == ':');
                }
            }
        }
        return None;
    }
    let sender = trim_segment(line, rs, cp);
    let content = if cp + 1 <= n {
        trim_segment(line, cp + 1, n)
    } else {
        String::new()
    };
    proof {
        assert forall|ts0: i64, sender0: Seq<char>, text0: Seq<char>|
            ts0 >= 0 && plain_name(sender0) && clean_line(text0) && line@
                == #[trigger] crate::messaging::message_line(ts0, sender0, text0) implies (ts
            == ts0 && sender@ == sender0 && content@ == text0) by {
            lemma_rendered_line_facts(line@, ts0, sender0, text0);
            let dlen = crate::textnum::dec_digits(ts0 as nat).len() as int;
            assert(br == 1 + dlen) by {
                if br < 1 + dlen {
                    assert(line@[br as int] != ']');
                }
                if br > 1 + dlen {
                    assert(line@[1 + dlen] == ']');
                }
            }
            assert(ts_text@ =~= crate::textnum::dec_digits(ts0 as nat));
            crate::textnum::lemma_dec_digits_val(ts0 as nat);
            assert(ts == ts0);
            assert(rs == br + 2) by {
                assert(line@[br + 1] == ' ');
                assert(line@[br + 2] != ' ');
                if rs > br + 2 {
                    assert(line@[br + 2] == ' ');
                }
            }
            let slen = sender0.len() as int;
            assert(cp == rs + slen) by {
                if cp < rs + slen {
                    assert(line@[cp as int] != ':');
                }
                if cp > rs + slen {
                    assert(line@[rs + slen] == ':');
                }
            }
            assert(line@.subrange(rs as int, cp as int) =~= sender0);
            assert(clean_line(line@.subrange(rs as int, cp as int)));
            assert(sender@ == sender0);
            assert(line@[cp as int + 1] == ' ');
            assert(line@.subrange(cp as int + 2, n as int) =~= text0);
            assert(clean_line(line@.subrange(cp as int + 2, n as int)));
            assert(content@ == text0);
        }
    }
    let formatted_time = format_timestamp(ts);
    Some(
        ChatMessage { sender, content, timestamp: ts, formatted_time, sent_at: ts },
    )
}

/// The character layout of a rendered message line.
pub open spec fn line_facts(
    line: Seq<char>,
    ts: i64,
    sender: Seq<char>,
    text: Seq<char>,
) -> bool {
    let d = crate::textnum::dec_digits(ts as nat);
    &&& line.len() == 5 + d.len() + sender.len() + text.len()
    &&& line[0] == '['
    &&& (forall|j: int| 0 <= j < d.len() ==> line[1 + j] == d[j] && (#[trigger] d[j]) != ']')
    &&& line[1 + d.len() as int] == ']'
    &&& line[2 + d.len() as int] == ' '
    &&& (forall|j: int|
        0 <= j < sender.len() ==> line[3 + d.len() + j] == sender[j] && (#[trigger] sender[j])
            != ':' && sender[j] != ']')
    &&& line[3 + d.len() + sender.len() as int] == ':'
    &&& line[4 + d.len() + sender.len() as int] == ' '
    &&& (forall|j: int| 0 <= j < text.len() ==> line[5 + d.len() + sender.len() + j] == text[j])
}

/// A rendered line from a non-negative timestamp, a username and clean text
/// lays out its pieces at fixed offsets, with no stray delimiters inside
/// the timestamp or the sender.
proof fn lemma_rendered_line_facts(line: Seq<char>, ts: i64, sender: Seq<char>, text: Seq<char>)
    requires
        ts >= 0,
        plain_name(sender),
        clean_line(text),
        line == crate::messaging::message_line(ts, sender, text),
    ensures
        line_facts(line, ts, sender, text),
{
    reveal_strlit("[");
    reveal_strlit("] ");
    reveal_strlit(": ");
    crate::textnum::lemma_dec_digits_val(ts as nat);
    let d = crate::textnum::dec_digits(ts as nat);
    assert(crate::textnum::dec_digits_i64(ts as int) == d);
    assert forall|j: int| 0 <= j < d.len() implies line[1 + j] == d[j] && (#[trigger] d[j])
        != ']' by {
        assert(crate::textnum::is_dec_digit(d[j]));
        assert((']' as u32) == 93);
        vstd::utf8::char_u32_cast(d[j], d[j] as u32);
    }
    assert forall|j: int| 0 <= j < sender.len() implies line[3 + d.len() + j] == sender[j] && (
    #[trigger] sender[j]) != ':' && sender[j] != ']' by {
        assert(crate::session::is_alnum(sender[j]));
        assert((':' as u32) == 58);
        assert((']' as u32) == 93);
        vstd::utf8::char_u32_cast(sender[j], sender[j] as u32);
    }
}

} // verus!
