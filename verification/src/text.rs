//! Numbers and quoted strings as text.

use vstd::prelude::*;
use vstd::string::*;

verus! {

/// The text of each of `strings`.
pub open spec fn texts(strings: Seq<String>) -> Seq<Seq<char>> {
    strings.map_values(|string: String| string@)
}

/// The character of a decimal digit.
pub open spec fn digit(value: nat) -> char {
    (0x30 + value) as char
}

/// A number in decimal, without leading zeros.
pub open spec fn decimal(number: nat) -> Seq<char>
    decreases number,
{
    if number < 10 {
        seq![digit(number)]
    } else {
        decimal(number / 10).push(digit(number % 10))
    }
}

/// The texts of strings are those of each of them, none left out.
pub proof fn law_texts_of_each(strings: Seq<String>)
    ensures
        texts(strings).len() == strings.len(),
        forall|i: int| 0 <= i < strings.len() ==> #[trigger] texts(strings)[i] == strings[i]@,
{
}

/// A number below ten is one digit, and another digit behind a number makes it ten times as large
/// and adds the digit.
pub proof fn law_decimal(number: nat, last: nat)
    requires
        last < 10,
    ensures
        number < 10 ==> decimal(number) == seq![(0x30 + number) as char],
        number > 0 ==> decimal(10 * number + last) == decimal(number).push((0x30 + last) as char),
{
    if number > 0 {
        assert((10 * number + last) / 10 == number);
        assert((10 * number + last) % 10 == last);
    }
}

/// What `{:?}` makes of a string: the string in double quotes, with escapes where they are needed.
pub uninterp spec fn debug_text(text: Seq<char>) -> Seq<char>;

/// `format!` with `{:?}`, on a string.
#[verifier::external_body]
pub(crate) fn quoted(text: &str) -> (quoted: String)
    ensures
        quoted@ == debug_text(text@),
{
    format!("{:?}", text)
}

fn digit_text(value: u32) -> (text: &'static str)
    requires
        value < 10,
    ensures
        text@ == seq![digit(value as nat)],
{
    proof {
        reveal_strlit("0");
        reveal_strlit("1");
        reveal_strlit("2");
        reveal_strlit("3");
        reveal_strlit("4");
        reveal_strlit("5");
        reveal_strlit("6");
        reveal_strlit("7");
        reveal_strlit("8");
        reveal_strlit("9");
    }
    let text = match value {
        0 => "0",
        1 => "1",
        2 => "2",
        3 => "3",
        4 => "4",
        5 => "5",
        6 => "6",
        7 => "7",
        8 => "8",
        _ => "9",
    };
    assert(text@ =~= seq![digit(value as nat)]);
    text
}

/// Writes a number in decimal.
pub fn number_text(number: u32) -> (text: String)
    ensures
        text@ == decimal(number as nat),
    decreases number,
{
    if number < 10 {
        digit_text(number).to_owned()
    } else {
        let mut text = number_text(number / 10);
        text.append(digit_text(number % 10));
        assert(text@ =~= decimal(number as nat));
        text
    }
}

/// Copies each of `strings` from the one at `start` on.
pub fn copy_from(strings: &Vec<String>, start: usize) -> (copies: Vec<String>)
    requires
        start <= strings@.len(),
    ensures
        texts(copies@) == texts(strings@).skip(start as int),
        copies@.len() == strings@.len() - start,
        forall|i: int| 0 <= i < copies@.len() ==> (#[trigger] copies@[i])@ == strings@[start + i]@,
{
    let mut copies: Vec<String> = Vec::new();
    let mut next: usize = start;
    while next < strings.len()
        invariant
            start <= next <= strings@.len(),
            texts(copies@) == texts(strings@).subrange(start as int, next as int),
        decreases strings.len() - next,
    {
        let ghost before = copies@;
        copies.push(strings[next].clone());
        assert(texts(copies@) =~= texts(before).push(strings@[next as int]@));
        next += 1;
        assert(texts(copies@) =~= texts(strings@).subrange(start as int, next as int));
    }
    assert(texts(copies@) =~= texts(strings@).skip(start as int));
    assert forall|i: int| 0 <= i < copies@.len() implies (#[trigger] copies@[i])@ == strings@[start
        + i]@ by {
        assert(texts(copies@)[i] == texts(strings@)[start + i]);
    }
    copies
}

} // verus!
