//! Text primitives shared by the template renderer and the message builders.

use vstd::prelude::*;

verus! {

/// The texts of a list of strings.
pub open spec fn texts(list: Seq<String>) -> Seq<Seq<char>> {
    Seq::new(list.len(), |i: int| list[i]@)
}

/// The text in an optional string slice.
pub open spec fn slot_text(slot: Option<&str>) -> Option<Seq<char>> {
    match slot {
        Some(v) => Some(v@),
        None => None,
    }
}

/// `text` with `value` put before each of its characters and after the last.
pub open spec fn interleaved(text: Seq<char>, value: Seq<char>) -> Seq<char>
    decreases text.len(),
{
    if text.len() == 0 {
        value
    } else {
        value + seq![text[0]] + interleaved(text.drop_first(), value)
    }
}

/// `text` with every occurrence of `token` replaced by `value`, scanning from
/// the left and resuming after each replaced occurrence, so that occurrences
/// never overlap. The empty token occurs before each character and at the
/// end.
pub open spec fn substitute(text: Seq<char>, token: Seq<char>, value: Seq<char>) -> Seq<char>
    decreases text.len(),
{
    if token.len() == 0 {
        interleaved(text, value)
    } else if text.len() < token.len() {
        text
    } else if text.subrange(0, token.len() as int) == token {
        value + substitute(text.subrange(token.len() as int, text.len() as int), token, value)
    } else {
        seq![text[0]] + substitute(text.subrange(1, text.len() as int), token, value)
    }
}

/// Whether `token` occurs somewhere in `text`.
pub open spec fn occurs(text: Seq<char>, token: Seq<char>) -> bool {
    exists|i: int|
        0 <= i && i + token.len() <= text.len() && #[trigger] text.subrange(
            i,
            i + token.len(),
        ) == token
}

/// Calls `str::replace`, which replaces each non-overlapping match of the
/// pattern, found from the left, by the replacement and copies the rest. The
/// empty pattern matches at every character boundary. The contract states
/// this through [`substitute`].
#[verifier::external_body]
pub(crate) fn replace_all(text: &str, token: &str, value: &str) -> (out: String)
    ensures
        out@ == substitute(text@, token@, value@),
{
    text.replace(token, value)
}

/// Calls `str::contains` with a string pattern, which holds when the pattern
/// is a contiguous part of the text.
#[verifier::external_body]
pub(crate) fn contains(text: &str, token: &str) -> (found: bool)
    ensures
        found == occurs(text@, token@),
{
    text.contains(token)
}

/// The value of a decimal digit; `None` for any other character.
pub open spec fn digit_value(c: char) -> Option<nat> {
    if c == '0' {
        Some(0)
    } else if c == '1' {
        Some(1)
    } else if c == '2' {
        Some(2)
    } else if c == '3' {
        Some(3)
    } else if c == '4' {
        Some(4)
    } else if c == '5' {
        Some(5)
    } else if c == '6' {
        Some(6)
    } else if c == '7' {
        Some(7)
    } else if c == '8' {
        Some(8)
    } else if c == '9' {
        Some(9)
    } else {
        None
    }
}

/// The number that a run of decimal digits writes, zero for the empty run;
/// `None` where a character is no digit.
pub open spec fn digits_value(digits: Seq<char>) -> Option<nat>
    decreases digits.len(),
{
    if digits.len() == 0 {
        Some(0)
    } else {
        match (digits_value(digits.drop_last()), digit_value(digits.last())) {
            (Some(front), Some(last)) => Some(front * 10 + last),
            _ => None,
        }
    }
}

/// The number that a text writes: decimal digits, at least one, after a plus
/// sign or none, with a value that a `u64` holds. `None` for any other text.
pub open spec fn parsed_number(text: Seq<char>) -> Option<u64> {
    let digits = if text.len() > 0 && text[0] == '+' {
        text.drop_first()
    } else {
        text
    };
    match digits_value(digits) {
        Some(n) => if digits.len() > 0 && n <= u64::MAX {
            Some(n as u64)
        } else {
            None
        },
        None => None,
    }
}

/// Calls `str::parse` for a `u64`, which reads decimal digits after an
/// optional plus sign and refuses the empty text, any other character and a
/// value beyond the range.
#[verifier::external_body]
pub(crate) fn parse_number(text: &str) -> (number: Option<u64>)
    ensures
        number == parsed_number(text@),
{
    text.parse().ok()
}

/// Whether `i` is the first place at which `list` holds `text`.
pub open spec fn is_first(list: Seq<Seq<char>>, text: Seq<char>, i: int) -> bool {
    &&& 0 <= i < list.len()
    &&& list[i] == text
    &&& forall|j: int| 0 <= j < i ==> list[j] != text
}

/// The first place at which `list` holds `text`.
pub open spec fn first_place(list: Seq<Seq<char>>, text: Seq<char>) -> Option<int> {
    if exists|i: int| is_first(list, text, i) {
        Some(choose|i: int| is_first(list, text, i))
    } else {
        None
    }
}

/// There is one first place at most.
pub proof fn lemma_first_place(list: Seq<Seq<char>>, text: Seq<char>, i: int)
    requires
        is_first(list, text, i),
    ensures
        first_place(list, text) == Some(i),
{
    let j = choose|j: int| is_first(list, text, j);
    if j < i {
        assert(list[j] != text);
    } else if i < j {
        assert(list[i] != text);
    }
}

/// A text that a list does not hold has no first place in it.
pub proof fn lemma_no_place(list: Seq<Seq<char>>, text: Seq<char>)
    requires
        forall|j: int| 0 <= j < list.len() ==> list[j] != text,
    ensures
        first_place(list, text) is None,
{
}

/// Finds the first place at which a list holds a text.
pub fn find_text(list: &Vec<String>, text: &str) -> (place: Option<usize>)
    ensures
        match place {
            Some(i) => first_place(texts(list@), text@) == Some(i as int) && i < list@.len()
                && list@[i as int]@ == text@,
            None => first_place(texts(list@), text@) is None && !texts(list@).contains(text@),
        },
{
    let mut i: usize = 0;
    while i < list.len()
        invariant
            i <= list@.len(),
            forall|j: int| 0 <= j < i ==> texts(list@)[j] != text@,
        decreases list@.len() - i,
    {
        if same_text(list[i].as_str(), text) {
            proof {
                lemma_first_place(texts(list@), text@, i as int);
            }
            return Some(i);
        }
        i += 1;
    }
    proof {
        lemma_no_place(texts(list@), text@);
    }
    None
}

/// Whether two string slices hold the same text.
pub fn same_text(a: &str, b: &str) -> (same: bool)
    ensures
        same == (a@ == b@),
{
    let left = a.to_owned();
    let right = b.to_owned();
    left == right
}

/// The decimal digit for a value below ten.
pub open spec fn digit(d: nat) -> char {
    if d == 0 {
        '0'
    } else if d == 1 {
        '1'
    } else if d == 2 {
        '2'
    } else if d == 3 {
        '3'
    } else if d == 4 {
        '4'
    } else if d == 5 {
        '5'
    } else if d == 6 {
        '6'
    } else if d == 7 {
        '7'
    } else if d == 8 {
        '8'
    } else {
        '9'
    }
}

/// A number written in decimal, without sign or leading zeros.
pub open spec fn decimal(n: nat) -> Seq<char>
    decreases n,
{
    if n < 10 {
        seq![digit(n)]
    } else {
        decimal(n / 10).push(digit(n % 10))
    }
}

/// The digit for a value below ten, as a text.
fn digit_text(d: u64) -> (text: &'static str)
    requires
        d < 10,
    ensures
        text@ == seq![digit(d as nat)],
{
    proof {
        reveal_strlit("0");
        reveal_strlit("1");
        reveal_strlit("2");
        reveal_strlit("3");
        reveal_strlit("4");
        reveal_strlit("5");
        reveal_strlit("6");
        reveal_strlit("7");
        reveal_strlit("8");
        reveal_strlit("9");
    }
    let text = if d == 0 {
        "0"
    } else if d == 1 {
        "1"
    } else if d == 2 {
        "2"
    } else if d == 3 {
        "3"
    } else if d == 4 {
        "4"
    } else if d == 5 {
        "5"
    } else if d == 6 {
        "6"
    } else if d == 7 {
        "7"
    } else if d == 8 {
        "8"
    } else {
        "9"
    };
    assert(text@ =~= seq![digit(d as nat)]);
    text
}

/// Writes a number in decimal.
pub fn decimal_text(n: u64) -> (text: String)
    ensures
        text@ == decimal(n as nat),
{
    let mut text = String::from_str(digit_text(n % 10));
    let mut rest: u64 = n / 10;
    assert(rest > 0 ==> decimal(n as nat) =~= decimal(rest as nat) + text@);
    while rest > 0
        invariant
            rest > 0 ==> decimal(n as nat) == decimal(rest as nat) + text@,
            rest == 0 ==> decimal(n as nat) == text@,
        decreases rest,
    {
        let longer = String::from_str(digit_text(rest % 10)).concat(text.as_str());
        proof {
            if rest < 10 {
                assert(decimal(n as nat) =~= longer@);
            } else {
                assert(decimal(n as nat) =~= decimal((rest / 10) as nat) + longer@);
            }
        }
        text = longer;
        rest = rest / 10;
    }
    text
}

} // verus!
