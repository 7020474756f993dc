//! The process behind a stopped call: which of its threads leads it, and how a
//! descriptor of it is reached.

use crate::broker::address::BrokerError;
use crate::broker::control;
use crate::broker::machine::ErrorNumbers;
use crate::sys;
use crate::text;
use vstd::prelude::*;

verus! {

/// How a process is reached, from the best way down.
#[derive(Clone, Copy, Debug, PartialEq, Eq, Structural)]
pub enum PidfdAttempt {
    /// By the thread itself, which newer kernels can.
    Thread,
    /// By the thread, where it leads its process.
    Plain,
    /// By the thread that leads its process.
    Leader,
}

/// What follows from an attempt that failed.
#[derive(Clone, Copy, Debug, PartialEq, Eq, Structural)]
pub enum PidfdStep {
    Try(PidfdAttempt),
    Fail(BrokerError),
}

/// What follows from an attempt that failed with an error number: an older
/// kernel rejects the flag, and without it takes only the leading thread.
pub fn duplicate_target_fd(
    errors: &ErrorNumbers,
    attempt: PidfdAttempt,
    errno: i32,
) -> (step: PidfdStep)
    ensures
        step == (if attempt == PidfdAttempt::Thread && (errno == sys::EINVAL || errno
            == errors.enosys) {
            PidfdStep::Try(PidfdAttempt::Plain)
        } else if attempt == PidfdAttempt::Plain && errno == sys::EINVAL {
            PidfdStep::Try(PidfdAttempt::Leader)
        } else {
            PidfdStep::Fail(BrokerError::SystemCall { errno })
        }),
{
    if attempt == PidfdAttempt::Thread && (errno == sys::EINVAL || errno == errors.enosys) {
        return PidfdStep::Try(PidfdAttempt::Plain);
    }
    if attempt == PidfdAttempt::Plain && errno == sys::EINVAL {
        return PidfdStep::Try(PidfdAttempt::Leader);
    }
    PidfdStep::Fail(BrokerError::SystemCall { errno })
}

/// Whether a character is white space.
pub open spec fn is_space(character: char) -> bool {
    let code = character as int;
    9 <= code <= 13 || code == 0x20 || code == 0x85 || code == 0xa0 || code == 0x1680 || 0x2000
        <= code <= 0x200a || code == 0x2028 || code == 0x2029 || code == 0x202f || code == 0x205f
        || code == 0x3000
}

fn is_space_char(character: char) -> (yes: bool)
    ensures
        yes == is_space(character),
{
    let code: u32 = character as u32;
    (9 <= code && code <= 13) || code == 0x20 || code == 0x85 || code == 0xa0 || code == 0x1680 || (
    0x2000 <= code && code <= 0x200a) || code == 0x2028 || code == 0x2029 || code == 0x202f || code
        == 0x205f || code == 0x3000
}

/// A text without white space at its ends.
pub open spec fn trimmed(text: Seq<char>) -> Seq<char>
    decreases text.len(),
{
    if text.len() > 0 && is_space(text[0]) {
        trimmed(text.skip(1))
    } else if text.len() > 0 && is_space(text.last()) {
        trimmed(text.drop_last())
    } else {
        text
    }
}

/// The length of the first line of a text.
pub open spec fn line_len(text: Seq<char>) -> int
    decreases text.len(),
{
    if text.len() == 0 || text[0] == '\n' {
        0
    } else {
        1 + line_len(text.skip(1))
    }
}

/// The length of a line is within its text.
pub proof fn lemma_line_len(text: Seq<char>)
    ensures
        0 <= line_len(text) <= text.len(),
        line_len(text) < text.len() ==> text[line_len(text)] == '\n',
    decreases text.len(),
{
    if text.len() > 0 && text[0] != '\n' {
        lemma_line_len(text.skip(1));
    }
}

/// Whether a text starts with `Tgid:`.
pub open spec fn names_leader(line: Seq<char>) -> bool {
    line.len() >= 5 && line[0] == 'T' && line[1] == 'g' && line[2] == 'i' && line[3] == 'd'
        && line[4] == ':'
}

/// What the first line says that names the leader.
pub open spec fn leader_text(status: Seq<char>) -> Option<Seq<char>>
    decreases status.len(),
{
    let count = line_len(status);
    proof {
        lemma_line_len(status);
    }
    if names_leader(status.take(count)) {
        Some(status.subrange(5, count))
    } else if count >= status.len() {
        None
    } else {
        leader_text(status.skip(count + 1))
    }
}

/// The thread that leads a process, as the kernel tells its status.
pub open spec fn leader_of(status: Seq<char>) -> Result<i32, BrokerError> {
    match leader_text(status) {
        Some(value) => match control::written_number(trimmed(value)) {
            Some(number) => if 0 < number <= i32::MAX {
                Ok(number as i32)
            } else {
                Err(BrokerError::InvalidAddress)
            },
            None => Err(BrokerError::InvalidAddress),
        },
        None => Err(BrokerError::InvalidAddress),
    }
}

fn trim_text(text: &str) -> (range: (usize, usize))
    ensures
        range.0 <= range.1 <= text@.len(),
        text@.subrange(range.0 as int, range.1 as int) == trimmed(text@),
{
    let list = text::characters(text);
    let mut from: usize = 0;
    let mut to: usize = list.len();
    assert(list@.subrange(0, list@.len() as int) =~= list@);
    while from < to && is_space_char(list[from])
        invariant
            from <= to <= list.len(),
            to == list.len(),
            list@ == text@,
            trimmed(list@.subrange(from as int, to as int)) == trimmed(text@),
        decreases to - from,
    {
        assert(list@.subrange(from as int, to as int).skip(1) =~= list@.subrange(
            from + 1,
            to as int,
        ));
        from += 1;
    }
    while from < to && is_space_char(list[to - 1])
        invariant
            from <= to <= list.len(),
            list@ == text@,
            from < to ==> !is_space(list@[from as int]),
            trimmed(list@.subrange(from as int, to as int)) == trimmed(text@),
        decreases to - from,
    {
        assert(list@.subrange(from as int, to as int).drop_last() =~= list@.subrange(
            from as int,
            to - 1,
        ));
        to -= 1;
    }
    (from, to)
}

/// The thread that leads a process, as the kernel tells its status.
pub fn thread_group_leader(status: &str) -> (leader: Result<i32, BrokerError>)
    ensures
        leader == leader_of(status@),
{
    let list = text::characters(status);
    let mut from: usize = 0;
    assert(list@.skip(0) =~= list@);
    loop
        invariant
            from <= list.len(),
            list@ == status@,
            leader_text(status@) == leader_text(list@.skip(from as int)),
        decreases list.len() - from,
    {
        let ghost rest = list@.skip(from as int);
        let mut end: usize = from;
        assert(rest.skip(0) =~= rest);
        while end < list.len() && list[end] != '\n'
            invariant
                from <= end <= list.len(),
                rest == list@.skip(from as int),
                line_len(rest) == end - from + line_len(rest.skip(end - from)),
            decreases list.len() - end,
        {
            assert(rest.skip(end - from).skip(1) =~= rest.skip(end - from + 1));
            assert(rest.skip(end - from)[0] == list@[end as int]);
            end += 1;
        }
        proof {
            if end < list.len() {
                assert(rest.skip(end - from)[0] == list@[end as int]);
            }
            assert(line_len(rest) == end - from);
        }
        if end - from >= 5 && list[from] == 'T' && list[from + 1] == 'g' && list[from + 2] == 'i'
            && list[from + 3] == 'd' && list[from + 4] == ':' {
            let value = status.substring_char(from + 5, end);
            assert(value@ =~= rest.subrange(5, end - from));
            assert(leader_text(rest) == Some(value@));
            let (start, stop) = trim_text(value);
            let number = value.substring_char(start, stop);
            return match control::parse_query_id(number) {
                Some(number) => if number > 0 && number <= i32::MAX as u64 {
                    Ok(number as i32)
                } else {
                    Err(BrokerError::InvalidAddress)
                },
                None => Err(BrokerError::InvalidAddress),
            };
        }
        if end == list.len() {
            return Err(BrokerError::InvalidAddress);
        }
        assert(rest.skip(end - from + 1) =~= list@.skip(end + 1));
        from = end + 1;
    }
}

/// The leader of a process is told on the first line that names it, whatever the
/// other lines say. White space around the number says nothing.
pub proof fn law_the_leader_is_told_on_its_line(line: Seq<char>, value: Seq<char>, rest: Seq<char>)
    requires
        forall|i: int| 0 <= i < line.len() ==> line[i] != '\n',
        forall|i: int| 0 <= i < value.len() ==> value[i] != '\n',
    ensures
        !(line.len() >= 5 && line[0] == 'T' && line[1] == 'g' && line[2] == 'i' && line[3] == 'd'
            && line[4] == ':') ==> leader_text(line + seq!['\n'] + rest) == leader_text(rest),
        leader_text(seq!['T', 'g', 'i', 'd', ':'] + value + seq!['\n'] + rest) == Some(value),
        leader_text(Seq::empty()) is None,
{
    let whole = line + seq!['\n'] + rest;
    lemma_line_ends(line, seq!['\n'] + rest);
    assert(whole =~= line + (seq!['\n'] + rest));
    assert(whole.take(line.len() as int) =~= line);
    assert(whole.skip(line.len() as int + 1) =~= rest);
    let lead = seq!['T', 'g', 'i', 'd', ':'];
    let named = lead + value;
    let other = lead + value + seq!['\n'] + rest;
    assert forall|i: int| 0 <= i < named.len() implies named[i] != '\n' by {
        if i >= 5 {
            assert(named[i] == value[i - 5]);
        }
    }
    lemma_line_ends(named, seq!['\n'] + rest);
    assert(other =~= named + (seq!['\n'] + rest));
    assert(other.take(named.len() as int) =~= named);
    assert(other.subrange(5, named.len() as int) =~= value);
}

proof fn lemma_line_ends(line: Seq<char>, rest: Seq<char>)
    requires
        forall|i: int| 0 <= i < line.len() ==> line[i] != '\n',
        rest.len() > 0,
        rest[0] == '\n',
    ensures
        line_len(line + rest) == line.len(),
    decreases line.len(),
{
    let whole = line + rest;
    if line.len() > 0 {
        assert(whole[0] == line[0]);
        assert(whole.skip(1) =~= line.skip(1) + rest);
        lemma_line_ends(line.skip(1), rest);
    } else {
        assert(whole[0] == '\n');
    }
}

/// A number between blanks and tabs is read as the number, and a leader has a
/// number above zero that fits.
pub proof fn law_blanks_around_a_number_say_nothing(space: char, text: Seq<char>)
    requires
        space == ' ' || space == '\t' || space == '\n' || space == '\r',
    ensures
        trimmed(seq![space] + text) == trimmed(text),
        text.len() > 0 && '0' <= text[0] <= '9' && '0' <= text.last() <= '9' ==> trimmed(text)
            == text && trimmed(text.push(space)) == text,
{
    let front = seq![space] + text;
    assert(front[0] == space);
    assert(front.skip(1) =~= text);
    if text.len() > 0 && '0' <= text[0] <= '9' && '0' <= text.last() <= '9' {
        let back = text.push(space);
        assert(back[0] == text[0]);
        assert(back.last() == space);
        assert(back.drop_last() =~= text);
        assert(48 <= text[0] as int <= 57 && 48 <= text.last() as int <= 57);
        assert(!is_space(text[0]) && !is_space(text.last()) && is_space(space));
        assert(trimmed(text) == text);
        assert(trimmed(back) == trimmed(back.drop_last()));
    }
}

/// The leader is the number that its line tells, where that is one and could be
/// a process. Otherwise the status is of no use.
pub proof fn law_leaders_have_numbers(status: Seq<char>, value: Seq<char>, number: u64)
    requires
        leader_text(status) == Some(value),
    ensures
        control::written_number(trimmed(value)) == Some(number) && 0 < number <= 0x7fff_ffff
            ==> leader_of(status) == Ok::<_, BrokerError>(number as i32),
        control::written_number(trimmed(value)) == Some(number) && (number == 0 || number
            > 0x7fff_ffff) ==> leader_of(status) == Err::<i32, _>(BrokerError::InvalidAddress),
        control::written_number(trimmed(value)) is None ==> leader_of(status) == Err::<i32, _>(
            BrokerError::InvalidAddress,
        ),
{
}

} // verus!
