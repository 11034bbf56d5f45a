//! Room logs: one text file per room, one line per posted message, each line
//! a timestamp, the author and the body, separated by tabs.

use crate::decimal::{
    i64_text, i64_to_text, lemma_i64_text_chars, lemma_i64_text_parses, parse_i64, parse_i64_text,
};
use crate::server::response::{entries_view, ChatEntry};
use crate::text::{
    char_rows, fields_of, lemma_lines_single, lemma_lines_unbroken, lemma_split_first,
    lemma_split_single, lines, push_char, split_on, string_rows,
};
use vstd::prelude::*;

verus! {

/// A chat message as the specifications see it: its author and its body.
pub type ChatView = (Seq<char>, Seq<char>);

/// A room log line that the server cannot read: its place among the log's
/// lines, counting from 0.
#[derive(Debug, Clone, Copy, PartialEq, Eq, Structural)]
pub struct MalformedLine {
    pub index: usize,
}

/// The tab-separated fields of a log line.
pub open spec fn line_fields(l: Seq<char>) -> Seq<Seq<char>> {
    split_on(l, '\t')
}

/// The timestamp at the start of a log line, if its first field is a number.
pub open spec fn line_stamp(l: Seq<char>) -> Option<i64> {
    parse_i64(line_fields(l)[0])
}

/// The messages of the lines `ls` that are newer than `since`, in order, and
/// the timestamp of the last of them; or the index of the first line that
/// cannot be read. A line cannot be read when its first field is not a
/// number, or when it is newer than `since` and has fewer than three fields;
/// older lines are only asked for their timestamp.
pub open spec fn collect_since(ls: Seq<Seq<char>>, since: i64) -> Result<
    (Seq<ChatView>, Option<i64>),
    int,
>
    decreases ls.len(),
{
    if ls.len() == 0 {
        Ok((seq![], None))
    } else {
        match collect_since(ls.drop_last(), since) {
            Err(i) => Err(i),
            Ok((msgs, last)) => {
                let f = line_fields(ls.last());
                match parse_i64(f[0]) {
                    None => Err(ls.len() - 1),
                    Some(ts) => if ts > since {
                        if f.len() >= 3 {
                            Ok((msgs.push((f[1], f[2])), Some(ts)))
                        } else {
                            Err(ls.len() - 1)
                        }
                    } else {
                        Ok((msgs, last))
                    },
                }
            },
        }
    }
}

/// What a poll by `user` finds in the lines `ls`: the messages newer than
/// `since`, the timestamp of the last newer line looked at, and whether a
/// newer line by `user` itself was met. Meeting one ends the poll with no
/// messages at all (the lines after it are not read); otherwise every newer
/// message is found. Or the index of the first line that cannot be read
/// before that point.
pub open spec fn poll_scan(ls: Seq<Seq<char>>, since: i64, user: Seq<char>) -> Result<
    (Seq<ChatView>, Option<i64>, bool),
    int,
>
    decreases ls.len(),
{
    if ls.len() == 0 {
        Ok((seq![], None, false))
    } else {
        match poll_scan(ls.drop_last(), since, user) {
            Err(i) => Err(i),
            Ok((msgs, last, saw)) => if saw {
                Ok((msgs, last, saw))
            } else {
                let f = line_fields(ls.last());
                match parse_i64(f[0]) {
                    None => Err(ls.len() - 1),
                    Some(ts) => if ts > since {
                        if f.len() < 2 {
                            Err(ls.len() - 1)
                        } else if f[1] == user {
                            Ok((seq![], Some(ts), true))
                        } else if f.len() < 3 {
                            Err(ls.len() - 1)
                        } else {
                            Ok((msgs.push((f[1], f[2])), Some(ts), false))
                        }
                    } else {
                        Ok((msgs, last, false))
                    },
                }
            },
        }
    }
}

/// The line of a posted message: timestamp, author and body joined by tabs.
pub open spec fn entry_line(log_time: i64, username: Seq<char>, body: Seq<char>) -> Seq<char> {
    i64_text(log_time) + seq!['\t'] + username + seq!['\t'] + body
}

/// What posting appends to a room log: the message's line, ended by a line
/// break unless the body is empty.
pub open spec fn log_entry(log_time: i64, username: Seq<char>, body: Seq<char>) -> Seq<char> {
    if body.len() == 0 {
        entry_line(log_time, username, body)
    } else {
        entry_line(log_time, username, body).push('\n')
    }
}

/// The text that posting `body` as `username` at `log_time` appends to a room log.
pub fn log_entry_text(log_time: i64, username: &str, body: &str) -> (r: String)
    ensures
        r@ == log_entry(log_time, username@, body@),
{
    let mut r = i64_to_text(log_time);
    push_char(&mut r, '\t');
    let mut line = r.concat(username);
    push_char(&mut line, '\t');
    let mut entry = line.concat(body);
    if !body.is_empty() {
        push_char(&mut entry, '\n');
    }
    entry
}

/// A field that can stand in a log line: no tab and no line break.
pub open spec fn plain_field(f: Seq<char>) -> bool {
    !f.contains('\t') && !f.contains('\n')
}

/// A posted message whose author and body are plain fields, and whose body
/// does not end in a carriage return, is read back from its entry as one line
/// holding its timestamp, author and body.
pub proof fn lemma_entry_reads_back(log_time: i64, username: Seq<char>, body: Seq<char>)
    requires
        plain_field(username),
        plain_field(body),
        !(body.len() > 0 && body.last() == '\r'),
    ensures
        lines(log_entry(log_time, username, body)) == seq![entry_line(log_time, username, body)],
        line_fields(entry_line(log_time, username, body)) == seq![i64_text(log_time), username, body],
        line_stamp(entry_line(log_time, username, body)) == Some(log_time),
{
    let t = i64_text(log_time);
    let line = entry_line(log_time, username, body);
    lemma_i64_text_chars(log_time);
    lemma_i64_text_parses(log_time);
    assert(!t.contains('\t') && !t.contains('\n')) by {
        if t.contains('\t') {
            let i = choose|i: int| 0 <= i < t.len() && t[i] == '\t';
            assert(crate::decimal::is_digit(t[i]) || t[i] == '-');
        }
        if t.contains('\n') {
            let i = choose|i: int| 0 <= i < t.len() && t[i] == '\n';
            assert(crate::decimal::is_digit(t[i]) || t[i] == '-');
        }
    }
    let rest = username + seq!['\t'] + body;
    assert(line =~= t + seq!['\t'] + rest);
    lemma_split_first(t, rest, '\t');
    lemma_split_first(username, body, '\t');
    lemma_split_single(body, '\t');
    assert(line_fields(line) =~= seq![t, username, body]);
    assert(!line.contains('\n')) by {
        if line.contains('\n') {
            let i = choose|i: int| 0 <= i < line.len() && line[i] == '\n';
            if i < t.len() {
                assert(t[i] == '\n');
                assert(t.contains('\n'));
            } else if i == t.len() {
            } else if i < t.len() + 1 + username.len() {
                assert(username[i - t.len() - 1] == '\n');
                assert(username.contains('\n'));
            } else if i == t.len() + 1 + username.len() {
            } else {
                assert(body[i - t.len() - 2 - username.len()] == '\n');
                assert(body.contains('\n'));
            }
        }
    }
    if body.len() == 0 {
        lemma_lines_unbroken(line);
    } else {
        assert(line.last() == body.last());
        lemma_lines_single(line);
    }
}

/// A line at least as old as `since`: its first field is a timestamp no
/// later than `since`.
pub open spec fn old_line(l: Seq<char>, since: i64) -> bool {
    line_stamp(l) matches Some(t) && t <= since
}

/// A line that a scan from `since` can read: its first field is a
/// timestamp, and if that is newer than `since` it has an author and a body.
pub open spec fn readable_line(l: Seq<char>, since: i64) -> bool {
    line_stamp(l) matches Some(t) && (t > since ==> line_fields(l).len() >= 3)
}

/// A line by `user` newer than `since`.
pub open spec fn own_newer_line(l: Seq<char>, since: i64, user: Seq<char>) -> bool {
    line_stamp(l) matches Some(t) && t > since && line_fields(l).len() >= 2 && line_fields(l)[1]
        == user
}

/// The contents of a collected scan.
pub open spec fn collected_view(r: Result<(Vec<ChatEntry>, Option<i64>), MalformedLine>) -> Result<
    (Seq<ChatView>, Option<i64>),
    int,
> {
    match r {
        Ok((v, last)) => Ok((entries_view(v@), last)),
        Err(e) => Err(e.index as int),
    }
}

/// The contents of a poll scan.
pub open spec fn polled_view(r: Result<(Vec<ChatEntry>, Option<i64>, bool), MalformedLine>) -> Result<
    (Seq<ChatView>, Option<i64>, bool),
    int,
> {
    match r {
        Ok((v, last, saw)) => Ok((entries_view(v@), last, saw)),
        Err(e) => Err(e.index as int),
    }
}

/// The time a scan reports is that of a line newer than `since`, and a scan
/// that reports no time found no messages.
pub proof fn lemma_collect_last_is_newer(ls: Seq<Seq<char>>, since: i64)
    ensures
        collect_since(ls, since) matches Ok((msgs, last)) ==> match last {
            Some(t) => t > since,
            None => msgs.len() == 0,
        },
    decreases ls.len(),
{
    if ls.len() > 0 {
        lemma_collect_last_is_newer(ls.drop_last(), since);
    }
}

/// A poll never answers the poller with a message of their own.
pub proof fn lemma_poll_skips_own(ls: Seq<Seq<char>>, since: i64, user: Seq<char>)
    ensures
        poll_scan(ls, since, user) matches Ok((msgs, _, _)) ==> forall|i: int|
            0 <= i < msgs.len() ==> (#[trigger] msgs[i]).0 != user,
    decreases ls.len(),
{
    if ls.len() > 0 {
        lemma_poll_skips_own(ls.drop_last(), since, user);
    }
}

pub proof fn lemma_collect_error_stays(ls: Seq<Seq<char>>, since: i64, j: int)
    requires
        0 <= j <= ls.len(),
        collect_since(ls.take(j), since) is Err,
    ensures
        collect_since(ls, since) == collect_since(ls.take(j), since),
    decreases ls.len() - j,
{
    if j == ls.len() {
        assert(ls.take(j) =~= ls);
    } else {
        assert(ls.take(j + 1).drop_last() =~= ls.take(j));
        lemma_collect_error_stays(ls, since, j + 1);
    }
}

pub proof fn lemma_poll_end_stays(ls: Seq<Seq<char>>, since: i64, user: Seq<char>, j: int)
    requires
        0 <= j <= ls.len(),
        poll_scan(ls.take(j), since, user) is Err || poll_scan(ls.take(j), since, user)->Ok_0.2,
    ensures
        poll_scan(ls, since, user) == poll_scan(ls.take(j), since, user),
    decreases ls.len() - j,
{
    if j == ls.len() {
        assert(ls.take(j) =~= ls);
    } else {
        assert(ls.take(j + 1).drop_last() =~= ls.take(j));
        lemma_poll_end_stays(ls, since, user, j + 1);
    }
}

/// The messages of the given lines newer than `since` (see [`collect_since`]).
pub(crate) fn collect_lines_since(rows: &Vec<Vec<char>>, since: i64) -> (r: Result<
    (Vec<ChatEntry>, Option<i64>),
    MalformedLine,
>)
    ensures
        collected_view(r) == collect_since(char_rows(rows@), since),
{
    let ghost ls = char_rows(rows@);
    let mut msgs: Vec<ChatEntry> = Vec::new();
    let mut last: Option<i64> = None;
    let mut i: usize = 0;
    assert(ls.take(0) =~= Seq::<Seq<char>>::empty());
    assert(entries_view(msgs@) =~= Seq::<ChatView>::empty());
    while i < rows.len()
        invariant
            i <= rows.len(),
            ls == char_rows(rows@),
            collect_since(ls.take(i as int), since) == Ok::<_, int>((entries_view(msgs@), last)),
        decreases rows.len() - i,
    {
        let ghost prefix = ls.take(i + 1);
        assert(prefix.drop_last() =~= ls.take(i as int));
        assert(prefix.last() == rows@[i as int]@);
        let fields = fields_of(&rows[i]);
        assert(string_rows(fields@)[0] == fields@[0]@);
        match parse_i64_text(fields[0].as_str()) {
            None => {
                proof {
                    lemma_collect_error_stays(ls, since, i + 1);
                }
                return Err(MalformedLine { index: i });
            },
            Some(ts) => {
                if ts > since {
                    if fields.len() < 3 {
                        proof {
                            lemma_collect_error_stays(ls, since, i + 1);
                        }
                        return Err(MalformedLine { index: i });
                    }
                    assert(string_rows(fields@)[1] == fields@[1]@);
                    assert(string_rows(fields@)[2] == fields@[2]@);
                    let entry = ChatEntry { username: fields[1].clone(), body: fields[2].clone() };
                    let ghost old_msgs = msgs@;
                    msgs.push(entry);
                    assert(entries_view(msgs@) =~= entries_view(old_msgs).push(
                        (fields@[1]@, fields@[2]@),
                    ));
                    last = Some(ts);
                }
            },
        }
        i = i + 1;
    }
    assert(ls.take(rows.len() as int) =~= ls);
    Ok((msgs, last))
}

/// What a poll by `user` finds in the given lines (see [`poll_scan`]).
pub(crate) fn poll_lines(rows: &Vec<Vec<char>>, since: i64, user: &String) -> (r: Result<
    (Vec<ChatEntry>, Option<i64>, bool),
    MalformedLine,
>)
    ensures
        polled_view(r) == poll_scan(char_rows(rows@), since, user@),
{
    let ghost ls = char_rows(rows@);
    let mut msgs: Vec<ChatEntry> = Vec::new();
    let mut last: Option<i64> = None;
    let mut saw = false;
    let mut i: usize = 0;
    assert(ls.take(0) =~= Seq::<Seq<char>>::empty());
    assert(entries_view(msgs@) =~= Seq::<ChatView>::empty());
    while i < rows.len() && !saw
        invariant
            i <= rows.len(),
            ls == char_rows(rows@),
            poll_scan(ls.take(i as int), since, user@) == Ok::<_, int>(
                (entries_view(msgs@), last, saw),
            ),
        decreases rows.len() - i,
    {
        let ghost prefix = ls.take(i + 1);
        assert(prefix.drop_last() =~= ls.take(i as int));
        assert(prefix.last() == rows@[i as int]@);
        let fields = fields_of(&rows[i]);
        assert(string_rows(fields@)[0] == fields@[0]@);
        match parse_i64_text(fields[0].as_str()) {
            None => {
                proof {
                    lemma_poll_end_stays(ls, since, user@, i + 1);
                }
                return Err(MalformedLine { index: i });
            },
            Some(ts) => {
                if ts > since {
                    if fields.len() < 2 {
                        proof {
                            lemma_poll_end_stays(ls, since, user@, i + 1);
                        }
                        return Err(MalformedLine { index: i });
                    }
                    assert(string_rows(fields@)[1] == fields@[1]@);
                    if fields[1].eq(user) {
                        msgs = Vec::new();
                        assert(entries_view(msgs@) =~= Seq::<ChatView>::empty());
                        last = Some(ts);
                        saw = true;
                    } else {
                        if fields.len() < 3 {
                            proof {
                                lemma_poll_end_stays(ls, since, user@, i + 1);
                            }
                            return Err(MalformedLine { index: i });
                        }
                        assert(string_rows(fields@)[2] == fields@[2]@);
                        let entry = ChatEntry { username: fields[1].clone(), body: fields[2].clone() };
                        let ghost old_msgs = msgs@;
                        msgs.push(entry);
                        assert(entries_view(msgs@) =~= entries_view(old_msgs).push(
                            (fields@[1]@, fields@[2]@),
                        ));
                        last = Some(ts);
                    }
                }
            },
        }
        i = i + 1;
    }
    proof {
        if saw {
            lemma_poll_end_stays(ls, since, user@, i as int);
        } else {
            assert(ls.take(rows.len() as int) =~= ls);
        }
    }
    Ok((msgs, last, saw))
}

} // verus!
