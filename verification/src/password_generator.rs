//! Composition of a password from an adjective, a noun, two symbols and a
//! number, each drawn at random.

use rand::rngs::ThreadRng;
use rand::seq::IndexedRandom;
use rand::Rng;
use crate::word_catalog::{lines_of, split_lines, words_of};
use vstd::prelude::*;
use vstd::string::StringExecFns;

verus! {

/// Largest number that ends a password.
pub const MAX_NUMBER: u32 = 9999;

/// `rand::rngs::ThreadRng`, the handle to a thread's random number
/// generator. It is carried to the draws and never looked into.
#[verifier::external_type_specification]
#[verifier::external_body]
pub struct ExThreadRng(ThreadRng);

/// `rand::rng` hands out the calling thread's generator. Nothing is claimed
/// of it.
pub assume_specification[ rand::rng ]() -> (rng: ThreadRng)
;

/// Calls `IndexedRandom::choose` of rand on a slice. Claimed of it: an empty
/// slice gives `None`, any other gives one of its elements; which one is
/// left open.
#[verifier::external_body]
fn pick<'a, T>(rng: &mut ThreadRng, items: &'a [T]) -> (picked: Option<&'a T>)
    ensures
        items@.len() == 0 ==> picked is None,
        items@.len() > 0 ==> picked is Some && items@.contains(*picked->0),
{
    items.choose(rng)
}

/// Calls `Rng::random_range` of rand on the inclusive range from `low` to
/// `high`. Claimed of it: the number lies in the range; which one is left
/// open. The call panics on an empty range, which `requires` leaves out.
#[verifier::external_body]
fn random_in(rng: &mut ThreadRng, low: u32, high: u32) -> (n: u32)
    requires
        low <= high,
    ensures
        low <= n <= high,
{
    rng.random_range(low..=high)
}

/// The symbols that may separate the parts of a password.
pub open spec fn symbol_alphabet() -> Seq<char> {
    seq!['!', '@', '#', '$', '%', '^', '&', '*', '-', '=', '_', '+', '\u{a3}']
}

/// The character of one decimal digit.
pub open spec fn digit(d: nat) -> char {
    if d == 0 {
        '0'
    } else if d == 1 {
        '1'
    } else if d == 2 {
        '2'
    } else if d == 3 {
        '3'
    } else if d == 4 {
        '4'
    } else if d == 5 {
        '5'
    } else if d == 6 {
        '6'
    } else if d == 7 {
        '7'
    } else if d == 8 {
        '8'
    } else {
        '9'
    }
}

/// The decimal digits of a number, without leading zeros.
pub open spec fn decimal(n: nat) -> Seq<char>
    decreases n,
{
    if n < 10 {
        seq![digit(n)]
    } else {
        decimal(n / 10).push(digit(n % 10))
    }
}

/// A number in decimal has at least one digit and, unless it is zero, does
/// not start with a zero.
pub proof fn lemma_decimal_is_unpadded(n: nat)
    ensures
        decimal(n).len() >= 1,
        n == 0 ==> decimal(n) == seq!['0'],
        n > 0 ==> decimal(n)[0] != '0',
    decreases n,
{
    if n >= 10 {
        lemma_decimal_is_unpadded(n / 10);
    }
}

/// A number up to `MAX_NUMBER` has as many digits as its size asks for, four
/// at most.
pub proof fn lemma_decimal_len(n: nat)
    requires
        n <= MAX_NUMBER,
    ensures
        n < 10 ==> decimal(n).len() == 1,
        10 <= n < 100 ==> decimal(n).len() == 2,
        100 <= n < 1000 ==> decimal(n).len() == 3,
        1000 <= n ==> decimal(n).len() == 4,
{
    reveal_with_fuel(decimal, 5);
}

/// A password put together from its five parts.
pub open spec fn composed(
    adjective: Seq<char>,
    symbol1: char,
    noun: Seq<char>,
    symbol2: char,
    number: nat,
) -> Seq<char> {
    adjective + seq![symbol1] + noun + seq![symbol2] + decimal(number)
}

/// `word` may stand for a draw from `list`: one of its words, or the empty
/// word where the list has none.
pub open spec fn drawn_from(list: Seq<Seq<char>>, word: Seq<char>) -> bool {
    if list.len() == 0 {
        word.len() == 0
    } else {
        list.contains(word)
    }
}

/// `password` has the shape of a password over the two lists: a drawn
/// adjective, a symbol, a drawn noun, a symbol, and a number up to
/// `MAX_NUMBER` in decimal.
pub open spec fn well_formed_password(
    adjectives: Seq<Seq<char>>,
    nouns: Seq<Seq<char>>,
    password: Seq<char>,
) -> bool {
    exists|adjective: Seq<char>, symbol1: char, noun: Seq<char>, symbol2: char, number: nat|
        {
            &&& drawn_from(adjectives, adjective)
            &&& symbol_alphabet().contains(symbol1)
            &&& drawn_from(nouns, noun)
            &&& symbol_alphabet().contains(symbol2)
            &&& number <= MAX_NUMBER
            &&& password == #[trigger] composed(adjective, symbol1, noun, symbol2, number)
        }
}

/// The symbol alphabet as a vector.
pub fn symbols() -> (list: Vec<char>)
    ensures
        list@ == symbol_alphabet(),
{
    let list = vec!['!', '@', '#', '$', '%', '^', '&', '*', '-', '=', '_', '+', '\u{a3}'];
    assert(list@ =~= symbol_alphabet());
    list
}

/// The character of the digit `d`.
fn digit_char(d: u32) -> (c: char)
    requires
        d < 10,
    ensures
        c == digit(d as nat),
{
    match d {
        0 => '0',
        1 => '1',
        2 => '2',
        3 => '3',
        4 => '4',
        5 => '5',
        6 => '6',
        7 => '7',
        8 => '8',
        _ => '9',
    }
}

/// Appends the decimal digits of `n`.
fn push_decimal(out: &mut String, n: u32)
    ensures
        final(out)@ == old(out)@ + decimal(n as nat),
    decreases n,
{
    if n >= 10 {
        push_decimal(out, n / 10);
    }
    out.push(digit_char(n % 10));
    assert(out@ =~= old(out)@ + decimal(n as nat));
}

/// Concatenates the five parts of a password in their fixed order, the
/// number in decimal without padding.
pub fn compose(adjective: &str, symbol1: char, noun: &str, symbol2: char, number: u32) -> (password:
    String)
    ensures
        password@ == composed(adjective@, symbol1, noun@, symbol2, number as nat),
{
    let mut password = String::new();
    password.append(adjective);
    password.push(symbol1);
    password.append(noun);
    password.push(symbol2);
    push_decimal(&mut password, number);
    assert(password@ =~= composed(adjective@, symbol1, noun@, symbol2, number as nat));
    password
}

/// Draws a word from `list`, or the empty word where it has none.
fn draw_word<'a>(rng: &mut ThreadRng, list: &'a Vec<String>) -> (word: &'a str)
    ensures
        drawn_from(words_of(list@), word@),
{
    match pick(rng, list.as_slice()) {
        Some(word) => {
            proof {
                let i = choose|i: int| 0 <= i < list@.len() && list@[i] == *word;
                assert(words_of(list@)[i] == word@);
            }
            word.as_str()
        },
        None => {
            proof {
                reveal_strlit("");
            }
            ""
        },
    }
}

/// Draws a symbol from the alphabet.
fn draw_symbol(rng: &mut ThreadRng, alphabet: &Vec<char>) -> (symbol: char)
    requires
        alphabet@ == symbol_alphabet(),
    ensures
        symbol_alphabet().contains(symbol),
{
    match pick(rng, alphabet.as_slice()) {
        Some(symbol) => *symbol,
        None => {
            assert(symbol_alphabet()[0] == '!');
            '!'
        },
    }
}

/// The two word lists that passwords are composed from.
pub struct PasswordGenerator {
    adjectives: Vec<String>,
    nouns: Vec<String>,
}

impl PasswordGenerator {
    /// The adjectives, in the order of the list.
    pub closed spec fn adjectives(&self) -> Seq<Seq<char>> {
        words_of(self.adjectives@)
    }

    /// The nouns, in the order of the list.
    pub closed spec fn nouns(&self) -> Seq<Seq<char>> {
        words_of(self.nouns@)
    }

    /// Takes the two word lists from two texts of one word to the line.
    pub fn new(adjectives: &str, nouns: &str) -> (generator: Self)
        ensures
            generator.adjectives() == lines_of(adjectives@),
            generator.nouns() == lines_of(nouns@),
    {
        PasswordGenerator { adjectives: split_lines(adjectives), nouns: split_lines(nouns) }
    }

    /// Composes one password from random draws: an adjective, a noun, two
    /// symbols and a number, in that order of drawing.
    pub fn generate(&self) -> (password: String)
        ensures
            well_formed_password(self.adjectives(), self.nouns(), password@),
    {
        let mut rng = rand::rng();
        let alphabet = symbols();
        let adjective = draw_word(&mut rng, &self.adjectives);
        let noun = draw_word(&mut rng, &self.nouns);
        let symbol1 = draw_symbol(&mut rng, &alphabet);
        let symbol2 = draw_symbol(&mut rng, &alphabet);
        let number = random_in(&mut rng, 0, MAX_NUMBER);
        compose(adjective, symbol1, noun, symbol2, number)
    }
}

} // verus!
