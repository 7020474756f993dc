//! The launcher's answers: lines that come in pieces, and the questions they
//! answer.

use crate::broker::grant::{Grant, MutationGrant, OpenGrant, SocketGrant};
use crate::bytes;
use crate::text;
use std::collections::HashMap;
use vstd::prelude::*;
use vstd::std_specs::iter::IteratorSpec;

verus! {

/// `\n`
pub const NEWLINE: u8 = 0x0a;

/// The most bytes of an answer that are kept until its end comes.
pub const CONTROL_BUFFER_MAX: usize = 65536;

/// The complete lines of a text. Empty ones say nothing.
pub open spec fn lines_of(text: Seq<u8>) -> Seq<Seq<u8>>
    decreases text.len(),
{
    let end = bytes::index_from(text, NEWLINE, 0);
    proof {
        bytes::lemma_index_from(text, NEWLINE, 0);
    }
    if end >= text.len() {
        Seq::empty()
    } else if end == 0 {
        lines_of(text.skip(1))
    } else {
        seq![text.take(end)] + lines_of(text.skip(end + 1))
    }
}

/// What follows the last complete line of a text.
pub open spec fn unfinished(text: Seq<u8>) -> Seq<u8>
    decreases text.len(),
{
    let end = bytes::index_from(text, NEWLINE, 0);
    proof {
        bytes::lemma_index_from(text, NEWLINE, 0);
    }
    if end >= text.len() {
        text
    } else {
        unfinished(text.skip(end + 1))
    }
}

/// What is kept of a text until more of it comes: what is unfinished, unless
/// that alone is too much.
pub open spec fn kept_of(text: Seq<u8>) -> Seq<u8> {
    if unfinished(text).len() > CONTROL_BUFFER_MAX {
        Seq::empty()
    } else {
        unfinished(text)
    }
}

/// Adds a piece to what is kept, and takes the complete lines out. Where too
/// much has come in without an end, it is dropped.
pub fn take_lines(buffer: &mut Vec<u8>, piece: &[u8]) -> (lines: Vec<Vec<u8>>)
    ensures
        bytes::texts(lines@) == lines_of(old(buffer)@ + piece@),
        final(buffer)@ == kept_of(old(buffer)@ + piece@),
{
    let mut lines: Vec<Vec<u8>> = Vec::new();
    bytes::append_bytes(buffer, piece);
    let ghost all = buffer@;
    let mut from: usize = 0;
    assert(all.skip(0) =~= all);
    assert(bytes::texts(lines@) + lines_of(all) =~= lines_of(all));
    loop
        invariant
            buffer@ == all,
            from <= buffer.len(),
            bytes::texts(lines@) + lines_of(all.skip(from as int)) == lines_of(all),
            unfinished(all.skip(from as int)) == unfinished(all),
        ensures
            from <= all.len(),
            bytes::texts(lines@) == lines_of(all),
            all.skip(from as int) == unfinished(all),
        decreases buffer.len() - from,
    {
        let end = bytes::find_byte(buffer.as_slice(), NEWLINE, from);
        let ghost rest = all.skip(from as int);
        proof {
            assert forall|i: int| 0 <= i < end - from implies rest[i] != NEWLINE by {
                assert(rest[i] == all[from + i]);
            }
            bytes::lemma_index_from_unique(rest, NEWLINE, 0, end - from);
        }
        if end == buffer.len() {
            assert(bytes::texts(lines@) + lines_of(rest) =~= bytes::texts(lines@));
            break;
        }
        assert(rest.skip(end - from + 1) =~= all.skip(end + 1));
        if end > from {
            let line = vstd::slice::slice_subrange(buffer.as_slice(), from, end);
            let ghost before = bytes::texts(lines@);
            let copy = bytes::copy_bytes(line);
            assert(copy@ =~= rest.take(end - from));
            lines.push(copy);
            assert(bytes::texts(lines@) =~= before.push(copy@));
            assert(bytes::texts(lines@) + lines_of(all.skip(end + 1)) =~= before + lines_of(rest));
        }
        from = end + 1;
    }
    let tail = buffer.split_off(from);
    assert(tail@ =~= all.skip(from as int));
    *buffer = tail;
    if buffer.len() > CONTROL_BUFFER_MAX {
        buffer.clear();
        assert(buffer@ =~= Seq::empty());
    }
    lines
}

/// Answers arrive the same however they are cut: what a text says is what its
/// pieces say one after the other.
pub proof fn law_pieces_say_what_the_whole_says(front: Seq<u8>, back: Seq<u8>)
    ensures
        lines_of(front + back) == lines_of(front) + lines_of(unfinished(front) + back),
        unfinished(front + back) == unfinished(unfinished(front) + back),
    decreases front.len(),
{
    let whole = front + back;
    let end = bytes::index_from(front, NEWLINE, 0);
    bytes::lemma_index_from(front, NEWLINE, 0);
    if end >= front.len() {
        assert(lines_of(front) + lines_of(whole) =~= lines_of(whole));
    } else {
        assert(whole[end] == NEWLINE);
        assert forall|i: int| 0 <= i < end implies whole[i] != NEWLINE by {
            assert(whole[i] == front[i]);
        }
        bytes::lemma_index_from_unique(whole, NEWLINE, 0, end);
        let rest = front.skip(end + 1);
        assert(whole.skip(end + 1) =~= rest + back);
        assert(whole.take(end) =~= front.take(end));
        law_pieces_say_what_the_whole_says(rest, back);
        if end == 0 {
            assert(front.skip(1) =~= rest);
        }
        assert(lines_of(whole) =~= lines_of(front) + lines_of(unfinished(front) + back));
    }
}

/// An answer to a question.
#[derive(Debug)]
pub struct ControlResponse {
    pub query_id: String,
    pub action: ControlAction,
}

/// What the launcher answers. Whatever is not an approval is a denial.
#[derive(Clone, Copy, Debug, PartialEq, Eq, Structural)]
pub enum ControlAction {
    Allow,
    Deny,
}

/// The value of one decimal digit.
pub open spec fn digit_value(digit: char) -> Option<nat> {
    if '0' <= digit <= '9' {
        Some((digit as int - '0' as int) as nat)
    } else {
        None
    }
}

/// The number that digits write after `value`, or `None` where one is no
/// digit.
pub open spec fn number_from(digits: Seq<char>, value: nat) -> Option<nat>
    decreases digits.len(),
{
    if digits.len() == 0 {
        Some(value)
    } else {
        match digit_value(digits[0]) {
            Some(digit) => number_from(digits.skip(1), 10 * value + digit),
            None => None,
        }
    }
}

/// The digits of a number, after its sign.
pub open spec fn unsigned_digits(text: Seq<char>) -> Seq<char> {
    if text.len() > 0 && text[0] == '+' {
        text.skip(1)
    } else {
        text
    }
}

/// The number that a text writes, if it fits.
pub open spec fn written_number(text: Seq<char>) -> Option<u64> {
    let digits = unsigned_digits(text);
    let number = number_from(digits, 0);
    if digits.len() > 0 && number is Some && number->0 <= u64::MAX {
        Some(number->0 as u64)
    } else {
        None
    }
}

proof fn lemma_number_grows(digits: Seq<char>, value: nat)
    ensures
        number_from(digits, value) is Some ==> number_from(digits, value)->0 >= value,
    decreases digits.len(),
{
    if digits.len() > 0 && digit_value(digits[0]) is Some {
        lemma_number_grows(digits.skip(1), 10 * value + digit_value(digits[0])->0);
    }
}

fn read_digit(digit: char) -> (value: Option<u64>)
    ensures
        value is Some <==> digit_value(digit) is Some,
        value matches Some(found) ==> found == digit_value(digit)->0 && found < 10,
{
    if digit == '0' {
        Some(0)
    } else if digit == '1' {
        Some(1)
    } else if digit == '2' {
        Some(2)
    } else if digit == '3' {
        Some(3)
    } else if digit == '4' {
        Some(4)
    } else if digit == '5' {
        Some(5)
    } else if digit == '6' {
        Some(6)
    } else if digit == '7' {
        Some(7)
    } else if digit == '8' {
        Some(8)
    } else if digit == '9' {
        Some(9)
    } else {
        None
    }
}

/// The number of a question as an answer writes it.
pub fn parse_query_id(text: &str) -> (id: Option<u64>)
    ensures
        id == written_number(text@),
{
    let list = text::characters(text);
    let ghost digits = unsigned_digits(text@);
    let mut at: usize = 0;
    if list.len() > 0 && list[0] == '+' {
        at = 1;
    }
    if at >= list.len() {
        return None;
    }
    let mut value: u64 = 0;
    assert(text@.skip(0) =~= text@);
    assert(digits =~= list@.skip(at as int));
    while at < list.len()
        invariant
            at <= list.len(),
            number_from(digits, 0) == number_from(list@.skip(at as int), value as nat),
            digits == unsigned_digits(text@),
            digits.len() > 0,
        decreases list.len() - at,
    {
        let ghost rest = list@.skip(at as int);
        assert(rest.skip(1) =~= list@.skip(at + 1));
        let digit = match read_digit(list[at]) {
            Some(digit) => digit,
            None => return None,
        };
        proof {
            lemma_number_grows(rest.skip(1), 10 * value as nat + digit as nat);
        }
        if value > u64::MAX / 10 || (value == u64::MAX / 10 && digit > u64::MAX % 10) {
            return None;
        }
        value = 10 * value + digit;
        at += 1;
    }
    assert(list@.skip(at as int).len() == 0);
    Some(value)
}

/// A call that waits for an answer.
pub struct PendingQuery<H> {
    /// The number by which the kernel knows the call.
    pub id: u64,
    /// What is done on approval, or `None` where the process makes the call.
    pub grant: Option<Grant<H>>,
}

/// The calls that wait for an answer, by the number of their question.
pub struct PendingQueries<H> {
    pub map: HashMap<u64, PendingQuery<H>>,
}

impl<H> View for PendingQueries<H> {
    type V = Map<u64, PendingQuery<H>>;

    open spec fn view(&self) -> Map<u64, PendingQuery<H>> {
        self.map@
    }
}

/// The numbers by which the kernel knows calls, in the order of their
/// questions.
pub open spec fn ids_in<H>(order: Seq<u64>, queries: Map<u64, PendingQuery<H>>) -> Seq<u64> {
    order.map_values(|query_id: u64| queries[query_id].id)
}

/// Whether numbers are those by which the kernel knows the waiting calls: each
/// call once, in whatever order.
pub open spec fn lists_waiting<H>(ids: Seq<u64>, queries: Map<u64, PendingQuery<H>>) -> bool {
    exists|order: Seq<u64>|
        {
            &&& order.no_duplicates()
            &&& order.to_set() == queries.dom()
            &&& ids == #[trigger] ids_in(order, queries)
        }
}

/// What is done about a call that was answered.
pub enum Answer<H> {
    Open(OpenGrant<H>),
    Mutation(MutationGrant<H>),
    Socket(SocketGrant<H>),
    /// The process makes the call.
    Continue,
    /// The call fails.
    Deny,
}

/// What an answer does about a waiting call.
pub open spec fn answered<H>(pending: PendingQuery<H>, action: ControlAction) -> Answer<H> {
    match action {
        ControlAction::Deny => Answer::Deny,
        ControlAction::Allow => match pending.grant {
            Some(Grant::Open(grant)) => Answer::Open(grant),
            Some(Grant::Mutation(grant)) => Answer::Mutation(grant),
            Some(Grant::Socket(grant)) => Answer::Socket(grant),
            None => Answer::Continue,
        },
    }
}

impl<H> PendingQueries<H> {
    /// Nothing waits.
    pub fn new() -> (queries: Self)
        ensures
            queries@ == Map::<u64, PendingQuery<H>>::empty(),
    {
        PendingQueries { map: HashMap::new() }
    }

    /// Adds a call that waits, in place of one with the same question.
    pub fn insert(&mut self, query_id: u64, pending: PendingQuery<H>)
        ensures
            final(self)@ == old(self)@.insert(query_id, pending),
    {
        broadcast use vstd::std_specs::hash::group_hash_axioms;

        self.map.insert(query_id, pending);
    }

    /// Takes out the call that an answer is about, and says what is done about
    /// it. An answer to no question is passed over.
    pub fn answer(&mut self, response: &ControlResponse) -> (answer: Option<(u64, Answer<H>)>)
        ensures
            match written_number(response.query_id@) {
                Some(id) => if old(self)@.dom().contains(id) {
                    final(self)@ == old(self)@.remove(id) && answer == Some(
                        (old(self)@[id].id, answered(old(self)@[id], response.action)),
                    )
                } else {
                    final(self)@ == old(self)@ && answer is None
                },
                None => final(self)@ == old(self)@ && answer is None,
            },
    {
        broadcast use vstd::std_specs::hash::group_hash_axioms;

        let query_id = match parse_query_id(response.query_id.as_str()) {
            Some(query_id) => query_id,
            None => return None,
        };
        let pending = match self.map.remove(&query_id) {
            Some(pending) => pending,
            None => return None,
        };
        let id = pending.id;
        let action = match response.action {
            ControlAction::Deny => Answer::Deny,
            ControlAction::Allow => match pending.grant {
                Some(Grant::Open(grant)) => Answer::Open(grant),
                Some(Grant::Mutation(grant)) => Answer::Mutation(grant),
                Some(Grant::Socket(grant)) => Answer::Socket(grant),
                None => Answer::Continue,
            },
        };
        Some((id, action))
    }

    /// Takes out every waiting call, so that it can be denied. Each is listed
    /// once.
    pub fn deny_all_pending(&mut self) -> (ids: Vec<u64>)
        ensures
            final(self)@ == Map::<u64, PendingQuery<H>>::empty(),
            lists_waiting(ids@, old(self)@),
            ids@.len() == old(self)@.dom().len(),
    {
        broadcast use vstd::std_specs::hash::group_hash_axioms;

        let ghost queries = self@;
        let ghost order = self.map.keys().remaining().unref();
        let mut ids: Vec<u64> = Vec::new();
        assert(ids@ =~= ids_in(order.take(0), queries));
        for query_id in keys: self.map.keys()
            invariant
                self@ == queries,
                keys.seq().unref() == order,
                keys.seq().len() == order.len(),
                order.to_set() == queries.dom(),
                ids@ == ids_in(order.take(keys.index()), queries),
        {
            let ghost at = keys.index();
            assert(order[at] == *query_id);
            assert(order.to_set().contains(order[at]));
            if let Some(pending) = self.map.get(query_id) {
                ids.push(pending.id);
            }
            assert(order.take(at + 1) =~= order.take(at).push(order[at]));
            assert(ids@ =~= ids_in(order.take(at + 1), queries));
        }
        assert(order.take(order.len() as int) =~= order);
        self.map.clear();
        ids
    }
}

/// Numbers are read as they are written: an answer names the question whose
/// number it repeats.
pub proof fn law_written_numbers_are_read_back(number: u64)
    ensures
        written_number(text::decimal(number as nat)) == Some(number),
{
    lemma_number_of_decimal(number as nat);
}

proof fn lemma_number_of_decimal(number: nat)
    ensures
        number_from(text::decimal(number), 0) == Some(number),
        text::decimal(number).len() > 0,
        text::decimal(number)[0] != '+',
    decreases number,
{
    if number < 10 {
        assert(text::decimal(number).skip(1).len() == 0);
        reveal_with_fuel(number_from, 2);
    } else {
        lemma_number_of_decimal(number / 10);
        lemma_number_appended(text::decimal(number / 10), 0, text::digit(number % 10));
    }
}

proof fn lemma_number_appended(digits: Seq<char>, value: nat, last: char)
    requires
        number_from(digits, value) is Some,
        digit_value(last) is Some,
    ensures
        number_from(digits.push(last), value) == Some(
            10 * number_from(digits, value)->0 + digit_value(last)->0,
        ),
    decreases digits.len(),
{
    let all = digits.push(last);
    if digits.len() == 0 {
        assert(all.skip(1).len() == 0);
        reveal_with_fuel(number_from, 2);
    } else {
        assert(all.skip(1) =~= digits.skip(1).push(last));
        lemma_number_appended(digits.skip(1), 10 * value + digit_value(digits[0])->0, last);
    }
}

/// A line is what stands before a newline. An empty one says nothing, and what
/// no newline follows is kept until more of it comes, up to a bound.
pub proof fn law_lines_end_at_newlines(line: Seq<u8>, rest: Seq<u8>)
    requires
        forall|i: int| 0 <= i < line.len() ==> line[i] != 0x0a,
    ensures
        line.len() > 0 ==> lines_of(line + seq![0x0au8] + rest) == seq![line] + lines_of(rest),
        lines_of(seq![0x0au8] + rest) == lines_of(rest),
        lines_of(line).len() == 0,
        unfinished(line) == line,
        unfinished(line + seq![0x0au8] + rest) == unfinished(rest),
        line.len() <= 65536 ==> kept_of(line) == line,
        line.len() > 65536 ==> kept_of(line).len() == 0,
        unfinished(rest).len() <= 65536 ==> kept_of(line + seq![0x0au8] + rest) == unfinished(rest),
{
    let whole = line + seq![NEWLINE] + rest;
    assert(whole[line.len() as int] == NEWLINE);
    bytes::lemma_index_from_unique(whole, NEWLINE, 0, line.len() as int);
    assert(whole.take(line.len() as int) =~= line);
    assert(whole.skip(line.len() as int + 1) =~= rest);
    let blank = seq![NEWLINE] + rest;
    assert(blank[0] == NEWLINE);
    bytes::lemma_index_from_unique(blank, NEWLINE, 0, 0);
    assert(blank.skip(1) =~= rest);
    bytes::lemma_index_from_unique(line, NEWLINE, 0, line.len() as int);
}

/// A number is read digit by digit, each counting ten times what follows it. A
/// plus in front changes nothing. Anything else is no number, and neither is
/// what does not fit.
pub proof fn law_numbers_are_read_digit_by_digit(digits: Seq<char>, number: u64, digit: char)
    requires
        digits.len() > 0,
        digits[0] != '+',
        written_number(digits) == Some(number),
    ensures
        '0' <= digit <= '9' && 10 * number + (digit as int - '0' as int) <= u64::MAX
            ==> written_number(digits.push(digit)) == Some(
            (10 * number + (digit as int - '0' as int)) as u64,
        ),
        '0' <= digit <= '9' && 10 * number + (digit as int - '0' as int) > u64::MAX
            ==> written_number(digits.push(digit)) is None,
        !('0' <= digit <= '9') ==> written_number(digits.push(digit)) is None,
        written_number(seq!['+'] + digits) == Some(number),
        '0' <= digit <= '9' ==> written_number(seq![digit]) == Some(
            (digit as int - '0' as int) as u64,
        ),
        written_number(Seq::empty()) is None,
        written_number(seq!['+']) is None,
{
    let all = digits.push(digit);
    assert(all[0] == digits[0]);
    if '0' <= digit <= '9' {
        lemma_number_appended(digits, 0, digit);
        let one = seq![digit];
        assert(one.skip(1).len() == 0);
        assert(one[0] == digit);
        reveal_with_fuel(number_from, 2);
    } else {
        lemma_no_number_appended(digits, 0, digit);
    }
    assert((seq!['+'] + digits)[0] == '+');
    assert((seq!['+'] + digits).skip(1) =~= digits);
    assert(seq!['+'].skip(1).len() == 0);
}

proof fn lemma_no_number_appended(digits: Seq<char>, value: nat, last: char)
    requires
        digit_value(last) is None,
    ensures
        number_from(digits.push(last), value) is None,
    decreases digits.len(),
{
    let all = digits.push(last);
    if digits.len() > 0 && digit_value(digits[0]) is Some {
        assert(all[0] == digits[0]);
        assert(all.skip(1) =~= digits.skip(1).push(last));
        lemma_no_number_appended(digits.skip(1), 10 * value + digit_value(digits[0])->0, last);
    } else if digits.len() > 0 {
        assert(all[0] == digits[0]);
    }
}

/// A denial fails the call. An approval does what was asked about, or leaves the
/// call to the process where nothing else was to be done.
pub proof fn law_answers_do_what_was_asked<H>(pending: PendingQuery<H>)
    ensures
        answered(pending, ControlAction::Deny) == Answer::<H>::Deny,
        pending.grant is None ==> answered(pending, ControlAction::Allow) == Answer::<
            H,
        >::Continue,
        pending.grant matches Some(Grant::Open(grant)) ==> answered(pending, ControlAction::Allow)
            == Answer::Open(grant),
        pending.grant matches Some(Grant::Mutation(grant)) ==> answered(
            pending,
            ControlAction::Allow,
        ) == Answer::Mutation(grant),
        pending.grant matches Some(Grant::Socket(grant)) ==> answered(
            pending,
            ControlAction::Allow,
        ) == Answer::Socket(grant),
{
}

/// A list of all that waits names each waiting call by the number by which the
/// kernel knows it, and nothing else.
pub proof fn law_each_waiting_call_is_listed<H>(
    ids: Seq<u64>,
    queries: Map<u64, PendingQuery<H>>,
    query_id: u64,
    at: int,
)
    requires
        lists_waiting(ids, queries),
    ensures
        queries.dom().contains(query_id) ==> ids.contains(queries[query_id].id),
        0 <= at < ids.len() ==> exists|asked: u64| #[trigger]
            queries.dom().contains(asked) && queries[asked].id == ids[at],
{
    let order = choose|order: Seq<u64>|
        {
            &&& order.no_duplicates()
            &&& order.to_set() == queries.dom()
            &&& ids == #[trigger] ids_in(order, queries)
        };
    if queries.dom().contains(query_id) {
        assert(order.to_set().contains(query_id));
        let i = choose|i: int| 0 <= i < order.len() && order[i] == query_id;
        assert(ids[i] == queries[query_id].id);
    }
    if 0 <= at < ids.len() {
        assert(order.to_set().contains(order[at]));
        assert(queries.dom().contains(order[at]));
    }
}

} // verus!
