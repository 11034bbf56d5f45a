//! What holds of the server's answers across requests.

use crate::server::handlers::{
    login_answer, login_outcome, post_answer, reply_spec, Reply, Status,
};
use crate::server::message::RequestKind;
use crate::server::room_log::{
    collect_since, entry_line, lemma_collect_last_is_newer, lemma_entry_reads_back,
    lemma_poll_end_stays, line_stamp, log_entry, old_line, own_newer_line,
    plain_field, poll_scan, readable_line, ChatView,
};
use crate::text::{ends_line, lemma_lines_append, lines};
use vstd::prelude::*;

verus! {

/// A message posted to a room is read back by the poster's own answer: when
/// the room log was readable before, the answer holds the messages it held,
/// then the new one (when it is newer than the poster's last message), with
/// the time it was logged. The author and body must be plain fields, the body
/// must not end in a carriage return, and the log must end in a line break.
pub proof fn lemma_post_is_read_back(
    room_log: Seq<char>,
    since: i64,
    log_time: i64,
    username: Seq<char>,
    body: Seq<char>,
)
    requires
        ends_line(room_log),
        plain_field(username),
        plain_field(body),
        !(body.len() > 0 && body.last() == '\r'),
        since < log_time,
        collect_since(lines(room_log), since) is Ok,
    ensures
        post_answer(since, log_time, room_log + log_entry(log_time, username, body)) == Ok::<
            _,
            int,
        >((collect_since(lines(room_log), since)->Ok_0.0.push((username, body)), log_time)),
{
    let entry = log_entry(log_time, username, body);
    lemma_entry_reads_back(log_time, username, body);
    lemma_lines_append(room_log, entry);
    let ls = lines(room_log + entry);
    assert(ls.drop_last() =~= lines(room_log));
    assert(ls.last() == entry_line(log_time, username, body));
}

/// A message posted to a room reaches a poll of that room that had not yet
/// met the poller's own message: a poll by anyone else answers it after the
/// messages found before, and a poll by its author ends on it with no
/// messages at all.
pub proof fn lemma_poll_sees_post(
    room_log: Seq<char>,
    since: i64,
    log_time: i64,
    author: Seq<char>,
    body: Seq<char>,
    poller: Seq<char>,
)
    requires
        ends_line(room_log),
        plain_field(author),
        plain_field(body),
        !(body.len() > 0 && body.last() == '\r'),
        since < log_time,
        poll_scan(lines(room_log), since, poller) matches Ok((msgs, _, saw)) && !saw,
    ensures
        ({
            let (msgs, _, _) = poll_scan(lines(room_log), since, poller)->Ok_0;
            poll_scan(lines(room_log + log_entry(log_time, author, body)), since, poller) == if author
                == poller {
                Ok::<_, int>((Seq::<ChatView>::empty(), Some(log_time), true))
            } else {
                Ok::<_, int>((msgs.push((author, body)), Some(log_time), false))
            }
        }),
{
    let entry = log_entry(log_time, author, body);
    lemma_entry_reads_back(log_time, author, body);
    lemma_lines_append(room_log, entry);
    let ls = lines(room_log + entry);
    assert(ls.drop_last() =~= lines(room_log));
    assert(ls.last() == entry_line(log_time, author, body));
}

/// A login (whose last-received time is 0) is answered unauthorized exactly
/// when the name is already in the users log, as long as the clock does not
/// read 0 and the room log can be read.
pub proof fn lemma_login_refused_iff_taken(
    name: Seq<char>,
    now: i64,
    users_log: Seq<char>,
    room_log: Seq<char>,
)
    requires
        now != 0,
        login_answer(0, now, room_log) is Ok,
    ensures
        ({
            let answer = login_outcome(name, 0, now, users_log, room_log).1;
            answer is Ok && (reply_spec(
                RequestKind::Login,
                answer->Ok_0.0.len() == 0,
                answer->Ok_0.1,
            ).status == Status::Unauthorized <==> lines(users_log).contains(name))
        }),
{
    lemma_collect_last_is_newer(lines(room_log), 0);
}

/// A room log whose every line can be read from `since` (a numeric
/// timestamp, and three fields on the lines newer than `since`) is always
/// read: lines no newer than `since` never make a scan fail.
pub proof fn lemma_readable_log_is_read(ls: Seq<Seq<char>>, since: i64)
    requires
        forall|i: int| 0 <= i < ls.len() ==> readable_line(#[trigger] ls[i], since),
    ensures
        collect_since(ls, since) is Ok,
    decreases ls.len(),
{
    if ls.len() > 0 {
        let init = ls.drop_last();
        assert forall|i: int| 0 <= i < init.len() implies readable_line(#[trigger] init[i], since) by {
            assert(init[i] == ls[i]);
        }
        lemma_readable_log_is_read(init, since);
        assert(readable_line(ls[ls.len() - 1], since));
    }
}

proof fn lemma_collect_all_old(old: Seq<Seq<char>>, since: i64)
    requires
        forall|i: int| 0 <= i < old.len() ==> old_line(#[trigger] old[i], since),
    ensures
        collect_since(old, since) == Ok::<_, int>((Seq::<ChatView>::empty(), None::<i64>)),
    decreases old.len(),
{
    if old.len() > 0 {
        let init = old.drop_last();
        assert forall|i: int| 0 <= i < init.len() implies old_line(#[trigger] init[i], since) by {
            assert(init[i] == old[i]);
        }
        lemma_collect_all_old(init, since);
        assert(old_line(old[old.len() - 1], since));
    }
}

/// Lines no newer than `since` do not change what a scan from `since`
/// finds: putting them before a log leaves its messages and time as they are.
pub proof fn lemma_collect_ignores_old(old: Seq<Seq<char>>, ls: Seq<Seq<char>>, since: i64)
    requires
        forall|i: int| 0 <= i < old.len() ==> old_line(#[trigger] old[i], since),
    ensures
        collect_since(old + ls, since) == match collect_since(ls, since) {
            Ok(found) => Ok(found),
            Err(i) => Err(i + old.len()),
        },
    decreases ls.len(),
{
    if ls.len() == 0 {
        assert(old + ls =~= old);
        lemma_collect_all_old(old, since);
    } else {
        lemma_collect_ignores_old(old, ls.drop_last(), since);
        assert((old + ls).drop_last() =~= old + ls.drop_last());
        assert((old + ls).last() == ls.last());
    }
}

proof fn lemma_poll_all_old(old: Seq<Seq<char>>, since: i64, user: Seq<char>)
    requires
        forall|i: int| 0 <= i < old.len() ==> old_line(#[trigger] old[i], since),
    ensures
        poll_scan(old, since, user) == Ok::<_, int>((Seq::<ChatView>::empty(), None::<i64>, false)),
    decreases old.len(),
{
    if old.len() > 0 {
        let init = old.drop_last();
        assert forall|i: int| 0 <= i < init.len() implies old_line(#[trigger] init[i], since) by {
            assert(init[i] == old[i]);
        }
        lemma_poll_all_old(init, since, user);
        assert(old_line(old[old.len() - 1], since));
    }
}

/// Lines no newer than the poll's `since` do not change what the poll
/// finds, whoever wrote them: a poller's own old lines do not end a poll.
pub proof fn lemma_poll_ignores_old(
    old: Seq<Seq<char>>,
    ls: Seq<Seq<char>>,
    since: i64,
    user: Seq<char>,
)
    requires
        forall|i: int| 0 <= i < old.len() ==> old_line(#[trigger] old[i], since),
    ensures
        poll_scan(old + ls, since, user) == match poll_scan(ls, since, user) {
            Ok(found) => Ok(found),
            Err(i) => Err(i + old.len()),
        },
    decreases ls.len(),
{
    if ls.len() == 0 {
        assert(old + ls =~= old);
        lemma_poll_all_old(old, since, user);
    } else {
        lemma_poll_ignores_old(old, ls.drop_last(), since, user);
        assert((old + ls).drop_last() =~= old + ls.drop_last());
        assert((old + ls).last() == ls.last());
    }
}

/// A poll over a readable log with no newer line by the poller finds what a
/// login or post finds there: every newer message, whoever wrote it, with
/// the time of the last.
pub proof fn lemma_poll_without_own_finds_all(ls: Seq<Seq<char>>, since: i64, user: Seq<char>)
    requires
        forall|i: int|
            0 <= i < ls.len() ==> readable_line(#[trigger] ls[i], since) && !own_newer_line(
                ls[i],
                since,
                user,
            ),
    ensures
        collect_since(ls, since) is Ok,
        poll_scan(ls, since, user) == Ok::<_, int>(
            (collect_since(ls, since)->Ok_0.0, collect_since(ls, since)->Ok_0.1, false),
        ),
    decreases ls.len(),
{
    if ls.len() > 0 {
        let init = ls.drop_last();
        assert forall|i: int| 0 <= i < init.len() implies readable_line(#[trigger] init[i], since)
            && !own_newer_line(init[i], since, user) by {
            assert(init[i] == ls[i]);
        }
        lemma_poll_without_own_finds_all(init, since, user);
        assert(readable_line(ls[ls.len() - 1], since));
        assert(!own_newer_line(ls[ls.len() - 1], since, user));
    }
}

/// A poll over a log whose first newer line by the poller comes after
/// readable lines ends there with no messages, at that line's time.
pub proof fn lemma_poll_stops_on_own(ls: Seq<Seq<char>>, j: int, since: i64, user: Seq<char>)
    requires
        0 <= j < ls.len(),
        forall|i: int|
            0 <= i < j ==> readable_line(#[trigger] ls[i], since) && !own_newer_line(
                ls[i],
                since,
                user,
            ),
        own_newer_line(ls[j], since, user),
    ensures
        poll_scan(ls, since, user) == Ok::<_, int>(
            (Seq::<ChatView>::empty(), line_stamp(ls[j]), true),
        ),
{
    let prefix = ls.take(j);
    assert forall|i: int| 0 <= i < prefix.len() implies readable_line(#[trigger] prefix[i], since)
        && !own_newer_line(prefix[i], since, user) by {
        assert(prefix[i] == ls[i]);
    }
    lemma_poll_without_own_finds_all(prefix, since, user);
    assert(ls.take(j + 1).drop_last() =~= prefix);
    assert(ls.take(j + 1).last() == ls[j]);
    lemma_poll_end_stays(ls, since, user, j + 1);
}

/// An accepted login answers every message of the room newer than its
/// time, whoever wrote it, the user's own included: a line appended to a
/// readable room log adds its message to the end of the answer, at its time.
pub proof fn lemma_login_answers_every_author(
    name: Seq<char>,
    since: i64,
    now: i64,
    users_log: Seq<char>,
    room_log: Seq<char>,
    log_time: i64,
    author: Seq<char>,
    body: Seq<char>,
)
    requires
        !lines(users_log).contains(name),
        ends_line(room_log),
        plain_field(author),
        plain_field(body),
        !(body.len() > 0 && body.last() == '\r'),
        since < log_time,
        login_outcome(name, since, now, users_log, room_log).1 is Ok,
    ensures
        login_outcome(name, since, now, users_log, room_log + log_entry(log_time, author, body))
            == (
            Some(name.push('\n')),
            Ok::<_, int>(
                (
                    login_outcome(name, since, now, users_log, room_log).1->Ok_0.0.push(
                        (author, body),
                    ),
                    log_time,
                ),
            ),
        ),
{
    let entry = log_entry(log_time, author, body);
    lemma_entry_reads_back(log_time, author, body);
    lemma_lines_append(room_log, entry);
    let ls = lines(room_log + entry);
    assert(ls.drop_last() =~= lines(room_log));
    assert(ls.last() == entry_line(log_time, author, body));
}

/// Every answer but a logout's carries the response in its body exactly when
/// it is a success; a poll is "no content" exactly when it found no
/// messages; a post always succeeds; a login is refused exactly on the empty
/// response with time 0.
pub proof fn lemma_reply_statuses(kind: RequestKind, no_messages: bool, last_received: i64)
    ensures
        ({
            let r = reply_spec(kind, no_messages, last_received);
            &&& r.with_body <==> (r.status == Status::Success && kind != RequestKind::Logout)
            &&& kind == RequestKind::Logout ==> r == Reply { status: Status::Success, with_body: false }
            &&& kind == RequestKind::Post ==> r.status == Status::Success
            &&& kind == RequestKind::Poll ==> (r.status == Status::NoContent <==> no_messages)
            &&& kind == RequestKind::Poll ==> (r.status == Status::Success <==> !no_messages)
            &&& kind == RequestKind::Login ==> (r.status == Status::Unauthorized <==> (no_messages
                && last_received == 0))
            &&& kind == RequestKind::Login ==> (r.status != Status::NoContent)
        }),
{
}

} // verus!
