//! The users log: the text file that holds one line per logged-in user.

use crate::server::message::Message;
use crate::text::{
    char_rows, chars_of, ends_line, join_lines, lemma_lines_append, lemma_lines_have_no_break,
    lemma_join_lines_of, lemma_lines_join, lemma_lines_single, lines, lines_of, plain_line, push_char, push_chars,
    same_chars,
};
use vstd::prelude::*;

verus! {

/// The lines of `ls` other than `name`, in their order.
pub open spec fn other_users(ls: Seq<Seq<char>>, name: Seq<char>) -> Seq<Seq<char>>
    decreases ls.len(),
{
    if ls.len() == 0 {
        ls
    } else if ls.last() == name {
        other_users(ls.drop_last(), name)
    } else {
        other_users(ls.drop_last(), name).push(ls.last())
    }
}

/// The users log after `name` logs out: every other line, each ended by a line break.
pub open spec fn log_without(users_log: Seq<char>, name: Seq<char>) -> Seq<char> {
    join_lines(other_users(lines(users_log), name))
}

/// A users log whose lines that `name`'s logout keeps are all written back
/// unchanged: none of them ends in a carriage return.
pub open spec fn clean_log(users_log: Seq<char>, name: Seq<char>) -> bool {
    forall|i: int|
        0 <= i < lines(users_log).len() && lines(users_log)[i] != name ==> (#[trigger] lines(
            users_log,
        )[i]).len() == 0 || lines(users_log)[i].last() != '\r'
}

/// Whether `username` is one of the lines of the users log.
pub fn user_is_logged_in(users_log: &str, username: &str) -> (r: bool)
    ensures
        r == lines(users_log@).contains(username@),
{
    let text = chars_of(users_log);
    let rows = lines_of(&text);
    let name = chars_of(username);
    let ghost ls = lines(users_log@);
    let mut i: usize = 0;
    while i < rows.len()
        invariant
            i <= rows.len(),
            char_rows(rows@) == ls,
            ls == lines(users_log@),
            name@ == username@,
            forall|j: int| 0 <= j < i ==> ls[j] != username@,
        decreases rows.len() - i,
    {
        assert(ls[i as int] == rows@[i as int]@);
        if same_chars(&rows[i], &name) {
            assert(ls[i as int] == username@);
            assert(ls.contains(username@));
            return true;
        }
        i = i + 1;
    }
    assert(!ls.contains(username@)) by {
        if ls.contains(username@) {
            let j = choose|j: int| 0 <= j < ls.len() && ls[j] == username@;
            assert(ls[j] != username@);
        }
    }
    false
}

/// The line that logging in appends to the users log: the name and a line break.
pub fn user_entry(username: &str) -> (r: String)
    ensures
        r@ == username@.push('\n'),
{
    let mut r = username.to_owned();
    push_char(&mut r, '\n');
    r
}

/// Given a logout request, the users log with every line that holds the
/// requester's name removed.
pub fn logout(request: &Message, users_log: &str) -> (r: String)
    ensures
        r@ == log_without(users_log@, request.username@),
{
    let text = chars_of(users_log);
    let rows = lines_of(&text);
    let name = chars_of(request.username.as_str());
    let ghost ls = lines(users_log@);
    let ghost u = request.username@;
    let mut kept = String::new();
    let mut i: usize = 0;
    assert(ls.take(0) =~= Seq::<Seq<char>>::empty());
    while i < rows.len()
        invariant
            i <= rows.len(),
            char_rows(rows@) == ls,
            name@ == u,
            kept@ == join_lines(other_users(ls.take(i as int), u)),
        decreases rows.len() - i,
    {
        let ghost before = ls.take(i as int);
        assert(ls.take(i + 1).drop_last() =~= before);
        assert(ls.take(i + 1).last() == rows@[i as int]@);
        let ghost row = rows@[i as int]@;
        if !same_chars(&rows[i], &name) {
            push_chars(&mut kept, &rows[i]);
            push_char(&mut kept, '\n');
            let ghost o = other_users(before, u);
            assert(other_users(ls.take(i + 1), u) == o.push(row));
            assert(o.push(row).drop_last() =~= o);
            assert(kept@ =~= join_lines(o) + row.push('\n'));
        } else {
            assert(other_users(ls.take(i + 1), u) == other_users(before, u));
        }
        i = i + 1;
    }
    assert(ls.take(rows.len() as int) =~= ls);
    kept
}

proof fn lemma_other_users_members(ls: Seq<Seq<char>>, name: Seq<char>)
    ensures
        forall|i: int|
            0 <= i < other_users(ls, name).len() ==> #[trigger] other_users(ls, name)[i] != name
                && ls.contains(other_users(ls, name)[i]),
    decreases ls.len(),
{
    if ls.len() > 0 {
        let init = ls.drop_last();
        lemma_other_users_members(init, name);
        let o = other_users(ls, name);
        assert forall|i: int| 0 <= i < o.len() implies #[trigger] o[i] != name && ls.contains(
            o[i],
        ) by {
            if i < other_users(init, name).len() {
                assert(o[i] == other_users(init, name)[i]);
                let j = choose|j: int| 0 <= j < init.len() && init[j] == o[i];
                assert(ls[j] == init[j]);
            } else {
                assert(ls[ls.len() - 1] == o[i]);
            }
        }
    }
}

/// Logging out removes the user from the users log and keeps every other
/// line, in order: read back, the new log is the old one without the user.
pub proof fn lemma_logout_removes_only_user(users_log: Seq<char>, name: Seq<char>)
    requires
        clean_log(users_log, name),
    ensures
        lines(log_without(users_log, name)) == other_users(lines(users_log), name),
        !lines(log_without(users_log, name)).contains(name),
{
    let ls = lines(users_log);
    let kept = other_users(ls, name);
    lemma_other_users_members(ls, name);
    lemma_lines_have_no_break(users_log);
    assert forall|i: int| 0 <= i < kept.len() implies plain_line(#[trigger] kept[i]) by {
        let j = choose|j: int| 0 <= j < ls.len() && ls[j] == kept[i];
        assert(!ls[j].contains('\n'));
    }
    lemma_lines_join(kept);
    if kept.contains(name) {
        let j = choose|j: int| 0 <= j < kept.len() && kept[j] == name;
        assert(kept[j] != name);
    }
}

/// After a login appends its entry to a users log, the user is logged in.
pub proof fn lemma_login_registers_user(users_log: Seq<char>, name: Seq<char>)
    requires
        ends_line(users_log),
        plain_line(name),
    ensures
        lines(users_log + name.push('\n')).contains(name),
{
    lemma_lines_append(users_log, name.push('\n'));
    lemma_lines_single(name);
    let ls = lines(users_log + name.push('\n'));
    assert(ls[ls.len() - 1] == name);
}

proof fn lemma_other_users_again(ls: Seq<Seq<char>>, name: Seq<char>)
    ensures
        other_users(other_users(ls, name), name) == other_users(ls, name),
    decreases ls.len(),
{
    if ls.len() > 0 {
        lemma_other_users_again(ls.drop_last(), name);
        let o = other_users(ls.drop_last(), name);
        if ls.last() != name {
            assert(o.push(ls.last()).drop_last() =~= o);
        }
    }
}

proof fn lemma_other_users_absent(ls: Seq<Seq<char>>, name: Seq<char>)
    requires
        !ls.contains(name),
    ensures
        other_users(ls, name) == ls,
    decreases ls.len(),
{
    if ls.len() > 0 {
        let init = ls.drop_last();
        if init.contains(name) {
            let j = choose|j: int| 0 <= j < init.len() && init[j] == name;
            assert(ls[j] == name);
        }
        assert(ls[ls.len() - 1] != name);
        lemma_other_users_absent(init, name);
        assert(init.push(ls.last()) =~= ls);
    }
}

/// Logging the same user out twice leaves the users log as logging out once
/// does.
pub proof fn lemma_logout_twice(users_log: Seq<char>, name: Seq<char>)
    requires
        clean_log(users_log, name),
    ensures
        log_without(log_without(users_log, name), name) == log_without(users_log, name),
{
    lemma_logout_removes_only_user(users_log, name);
    lemma_other_users_again(lines(users_log), name);
}

/// Logging in a user who is not in a users log and then logging them out
/// gives back the log as it was, when the log has no carriage returns and
/// ends in a line break (or is empty).
pub proof fn lemma_login_logout_restores(users_log: Seq<char>, name: Seq<char>)
    requires
        ends_line(users_log),
        !users_log.contains('\r'),
        plain_line(name),
        !lines(users_log).contains(name),
    ensures
        log_without(users_log + name.push('\n'), name) == users_log,
{
    lemma_login_then_logout(users_log, name);
    lemma_other_users_absent(lines(users_log), name);
    lemma_join_lines_of(users_log);
}

/// Logging out right after logging in leaves the users log as logging out
/// alone would have left it.
pub proof fn lemma_login_then_logout(users_log: Seq<char>, name: Seq<char>)
    requires
        ends_line(users_log),
        plain_line(name),
    ensures
        log_without(users_log + name.push('\n'), name) == log_without(users_log, name),
{
    lemma_lines_append(users_log, name.push('\n'));
    lemma_lines_single(name);
    let ls = lines(users_log + name.push('\n'));
    assert(ls.drop_last() =~= lines(users_log));
}

} // verus!
