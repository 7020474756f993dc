//! Text built from path bytes and numbers.

use vstd::prelude::*;

verus! {

/// What [`String::from_utf8_lossy`] makes of bytes that are not valid UTF-8.
pub uninterp spec fn lossy_text(bytes: Seq<u8>) -> Seq<char>;

/// The text a path is shown and matched as: its decoding where it is valid
/// UTF-8, and a decoding with replacement characters where it is not.
pub open spec fn shown(bytes: Seq<u8>) -> Seq<char> {
    if vstd::utf8::valid_utf8(bytes) {
        vstd::utf8::decode_utf8(bytes)
    } else {
        lossy_text(bytes)
    }
}

/// Calls [`String::from_utf8_lossy`]. Claimed of it: valid UTF-8 is decoded
/// unchanged, and what it makes of other bytes depends on those bytes alone.
#[verifier::external_body]
fn from_utf8_lossy(bytes: &[u8]) -> (text: String)
    ensures
        vstd::utf8::valid_utf8(bytes@) ==> text@ == vstd::utf8::decode_utf8(bytes@),
        !vstd::utf8::valid_utf8(bytes@) ==> text@ == lossy_text(bytes@),
{
    String::from_utf8_lossy(bytes).into_owned()
}

/// The text of a path.
pub fn show(bytes: &[u8]) -> (text: String)
    ensures
        text@ == shown(bytes@),
{
    from_utf8_lossy(bytes)
}

/// [`String::push`]. Claimed of it: the character is added at the end.
pub assume_specification[ String::push ](s: &mut String, c: char)
    ensures
        final(s)@ == old(s)@.push(c),
;

/// The decimal digits of a number, without leading zeros.
pub open spec fn decimal(number: nat) -> Seq<char>
    decreases number,
{
    if number < 10 {
        seq![digit(number)]
    } else {
        decimal(number / 10).push(digit(number % 10))
    }
}

/// The character of one decimal digit.
pub open spec fn digit(value: nat) -> char {
    if value == 0 {
        '0'
    } else if value == 1 {
        '1'
    } else if value == 2 {
        '2'
    } else if value == 3 {
        '3'
    } else if value == 4 {
        '4'
    } else if value == 5 {
        '5'
    } else if value == 6 {
        '6'
    } else if value == 7 {
        '7'
    } else if value == 8 {
        '8'
    } else {
        '9'
    }
}

fn digit_text(value: u64) -> (text: &'static str)
    requires
        value < 10,
    ensures
        text@ == seq![digit(value as nat)],
{
    proof {
        reveal_strlit("0");
        reveal_strlit("1");
        reveal_strlit("2");
        reveal_strlit("3");
        reveal_strlit("4");
        reveal_strlit("5");
        reveal_strlit("6");
        reveal_strlit("7");
        reveal_strlit("8");
        reveal_strlit("9");
    }
    let text = if value == 0 {
        "0"
    } else if value == 1 {
        "1"
    } else if value == 2 {
        "2"
    } else if value == 3 {
        "3"
    } else if value == 4 {
        "4"
    } else if value == 5 {
        "5"
    } else if value == 6 {
        "6"
    } else if value == 7 {
        "7"
    } else if value == 8 {
        "8"
    } else {
        "9"
    };
    assert(text@ =~= seq![digit(value as nat)]);
    text
}

/// `number` in decimal.
pub fn decimal_text(number: u64) -> (text: String)
    ensures
        text@ == decimal(number as nat),
    decreases number,
{
    let mut text = if number < 10 {
        String::new()
    } else {
        decimal_text(number / 10)
    };
    let ghost before = text@;
    text.append(digit_text(number % 10));
    assert(text@ =~= before.push(digit((number % 10) as nat)));
    if number < 10 {
        assert(text@ =~= seq![digit(number as nat)]);
    }
    text
}

/// Whether two strings hold the same text.
pub fn text_equal(left: &str, right: &str) -> (equal: bool)
    ensures
        equal == (left@ == right@),
{
    let equal = crate::bytes::bytes_equal(left.as_bytes(), right.as_bytes());
    proof {
        vstd::utf8::encode_utf8_decode_utf8(left@);
        vstd::utf8::encode_utf8_decode_utf8(right@);
    }
    equal
}

/// The characters of `text`.
pub fn characters(text: &str) -> (list: Vec<char>)
    ensures
        list@ == text@,
{
    let mut list: Vec<char> = Vec::new();
    let count = text.unicode_len();
    let mut at: usize = 0;
    while at < count
        invariant
            at <= count,
            count == text@.len(),
            list@ == text@.take(at as int),
        decreases count - at,
    {
        list.push(text.get_char(at));
        assert(text@.take(at + 1) =~= text@.take(at as int).push(text@[at as int]));
        at += 1;
    }
    assert(text@.take(at as int) =~= text@);
    list
}

/// Two numbers with the same digits are the same.
pub proof fn lemma_decimal_is_injective(left: nat, right: nat)
    ensures
        decimal(left) == decimal(right) <==> left == right,
    decreases left,
{
    lemma_decimal_len(left);
    lemma_decimal_len(right);
    if decimal(left) == decimal(right) {
        assert(decimal(left).last() == digit(left % 10));
        assert(decimal(right).last() == digit(right % 10));
        if left >= 10 && right >= 10 {
            assert(decimal(left).drop_last() =~= decimal(left / 10));
            assert(decimal(right).drop_last() =~= decimal(right / 10));
            lemma_decimal_is_injective(left / 10, right / 10);
        }
    }
}

proof fn lemma_decimal_len(number: nat)
    ensures
        decimal(number).len() >= 1,
        decimal(number).len() == 1 <==> number < 10,
    decreases number,
{
    if number >= 10 {
        lemma_decimal_len(number / 10);
    }
}

} // verus!
