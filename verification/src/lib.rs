//! Two-player hold'em showdown: card model, five-card hand ranking, the
//! selection of the best five cards out of a seven-card pool, and the
//! verdict line for two players who share a table.

use vstd::prelude::*;
use vstd::string::*;
use crate::card::{is_suit_char, is_value_char, Card};
use crate::hand::{Hand, Standing};
use crate::laws::{law_best_hand_unique, law_compare_antisymmetric};
use crate::model::{category, chosen, is_best, outcome, pool_of, rendering};

pub mod card;
pub mod hand;
pub mod laws;
pub mod model;
pub mod order;

verus! {

/// Why three lines of text do not describe a showdown.
#[derive(Clone, Copy, Debug, PartialEq, Eq, Structural)]
pub enum ShowdownError {
    /// Some token is not a rank character followed by a suit character.
    MalformedCard,
    /// A player has not exactly two cards, or the table not exactly five.
    WrongCardCount,
}

/// The characters that separate card tokens: the white space of Unicode,
/// given by code point.
pub open spec fn is_space(c: char) -> bool {
    let n = c as u32;
    (0x09 <= n <= 0x0D) || n == 0x20 || n == 0x85 || n == 0xA0 || n == 0x1680 || (0x2000 <= n
        <= 0x200A) || n == 0x2028 || n == 0x2029 || n == 0x202F || n == 0x205F || n == 0x3000
}

/// A finished word as a list of tokens: itself, unless it is empty.
pub open spec fn closed_word(word: Seq<char>) -> Seq<Seq<char>> {
    if word.len() > 0 {
        seq![word]
    } else {
        Seq::empty()
    }
}

/// The tokens of `s` from position `i` on, when `word` holds the
/// characters of the token that is being read.
pub open spec fn split(s: Seq<char>, i: int, word: Seq<char>) -> Seq<Seq<char>>
    decreases s.len() - i,
{
    if i < 0 || i >= s.len() {
        closed_word(word)
    } else if is_space(s[i]) {
        closed_word(word) + split(s, i + 1, Seq::empty())
    } else {
        split(s, i + 1, word.push(s[i]))
    }
}

/// The maximal runs of characters of `s` that hold no separator.
pub open spec fn tokens(s: Seq<char>) -> Seq<Seq<char>> {
    split(s, 0, Seq::empty())
}

/// The token is the two-character notation of some card.
pub open spec fn is_card_token(tok: Seq<char>) -> bool {
    tok.len() == 2 && is_value_char(tok[0]) && is_suit_char(tok[1])
}

/// The token is the two-character notation of this card.
pub open spec fn spells(tok: Seq<char>, card: Card) -> bool {
    tok.len() == 2 && tok[0] == card.value.symbol() && tok[1] == card.suit.symbol()
}

/// Every token denotes a card.
pub open spec fn all_cards(toks: Seq<Seq<char>>) -> bool {
    forall|k: int| 0 <= k < toks.len() ==> is_card_token(#[trigger] toks[k])
}

/// What is wrong with a text that should hold `n` cards, if anything:
/// a malformed token counts before a wrong number of tokens.
pub open spec fn fault_in(text: Seq<char>, n: int) -> Option<ShowdownError> {
    if !all_cards(tokens(text)) {
        Some(ShowdownError::MalformedCard)
    } else if tokens(text).len() != n {
        Some(ShowdownError::WrongCardCount)
    } else {
        None
    }
}

/// What is wrong with the three texts of a showdown, if anything: the
/// first player's cards are read first, the table's last.
pub open spec fn fault(player1: Seq<char>, player2: Seq<char>, table: Seq<char>) -> Option<
    ShowdownError,
> {
    if fault_in(player1, 2) is Some {
        fault_in(player1, 2)
    } else if fault_in(player2, 2) is Some {
        fault_in(player2, 2)
    } else {
        fault_in(table, 5)
    }
}

/// The cards that the tokens denote, one for one.
pub open spec fn spelled(toks: Seq<Seq<char>>, cards: Seq<Card>) -> bool {
    &&& cards.len() == toks.len()
    &&& forall|k: int| 0 <= k < toks.len() ==> spells(#[trigger] toks[k], cards[k])
}

/// The verdict line when the first player's best hand is `a` and the
/// second player's is `b`.
pub open spec fn verdict(a: Seq<Card>, b: Seq<Card>) -> Seq<char> {
    match outcome(category(a), a, category(b), b) {
        Standing::Greater => "1 "@ + category(a).label() + " "@ + rendering(a),
        Standing::Less => "2 "@ + category(b).label() + " "@ + rendering(b),
        Standing::Equal => "DRAW"@,
    }
}

fn separates(c: char) -> (r: bool)
    ensures
        r == is_space(c),
{
    let n: u32 = c as u32;
    (0x09 <= n && n <= 0x0D) || n == 0x20 || n == 0x85 || n == 0xA0 || n == 0x1680 || (0x2000 <= n
        && n <= 0x200A) || n == 0x2028 || n == 0x2029 || n == 0x202F || n == 0x205F || n == 0x3000
}

fn read_token(len: usize, c0: char, c1: char) -> (r: Option<Card>)
    ensures
        match r {
            Some(card) => len == 2 && card.value.symbol() == c0 && card.suit.symbol() == c1,
            None => !(len == 2 && is_value_char(c0) && is_suit_char(c1)),
        },
{
    if len != 2 {
        return None;
    }
    match Card::new(c0, c1) {
        Ok(card) => Some(card),
        Err(_) => None,
    }
}

/// Reads a text of card tokens separated by white space. It succeeds
/// exactly when every token denotes a card, and then gives the cards in
/// the order of their tokens.
pub fn parse_cards(text: &str) -> (r: Result<Vec<Card>, ShowdownError>)
    ensures
        match r {
            Ok(cards) => all_cards(tokens(text@)) && spelled(tokens(text@), cards@),
            Err(e) => e == ShowdownError::MalformedCard && !all_cards(tokens(text@)),
        },
{
    let n: usize = text.unicode_len();
    let mut cards: Vec<Card> = Vec::new();
    let mut i: usize = 0;
    let mut len: usize = 0;
    let mut c0: char = ' ';
    let mut c1: char = ' ';
    let ghost mut done: Seq<Seq<char>> = Seq::empty();
    let ghost mut word: Seq<char> = Seq::empty();
    assert(done + split(text@, 0, word) =~= tokens(text@));
    while i < n
        invariant
            i <= n,
            n == text@.len(),
            tokens(text@) == done + split(text@, i as int, word),
            word.len() == len,
            len <= i,
            len >= 1 ==> c0 == word[0],
            len >= 2 ==> c1 == word[1],
            all_cards(done),
            spelled(done, cards@),
        decreases n - i,
    {
        let c: char = text.get_char(i);
        if separates(c) {
            if len > 0 {
                assert(split(text@, i as int, word) == seq![word] + split(
                    text@,
                    i + 1,
                    Seq::empty(),
                ));
                match read_token(len, c0, c1) {
                    Some(card) => {
                        cards.push(card);
                        proof {
                            assert(done + (seq![word] + split(text@, i + 1, Seq::empty()))
                                =~= done.push(word) + split(text@, i + 1, Seq::empty()));
                            done = done.push(word);
                            word = Seq::empty();
                        }
                        len = 0;
                    },
                    None => {
                        assert(tokens(text@)[done.len() as int] == word);
                        return Err(ShowdownError::MalformedCard);
                    },
                }
            } else {
                assert(split(text@, i as int, word) =~= split(text@, i + 1, Seq::empty()));
                proof {
                    word = Seq::empty();
                }
            }
        } else {
            if len == 0 {
                c0 = c;
            } else if len == 1 {
                c1 = c;
            }
            len = len + 1;
            proof {
                word = word.push(c);
            }
        }
        i = i + 1;
    }
    assert(split(text@, i as int, word) == closed_word(word));
    if len > 0 {
        match read_token(len, c0, c1) {
            Some(card) => {
                cards.push(card);
                proof {
                    done = done.push(word);
                }
            },
            None => {
                assert(tokens(text@)[done.len() as int] == word);
                return Err(ShowdownError::MalformedCard);
            },
        }
    }
    assert(tokens(text@) =~= done);
    Ok(cards)
}

/// Reads a text that must hold exactly `n` cards.
pub fn parse_exactly(text: &str, n: usize) -> (r: Result<Vec<Card>, ShowdownError>)
    ensures
        match r {
            Ok(cards) => fault_in(text@, n as int) is None && cards@.len() == n && spelled(
                tokens(text@),
                cards@,
            ),
            Err(e) => fault_in(text@, n as int) == Some(e),
        },
{
    match parse_cards(text) {
        Err(e) => Err(e),
        Ok(cards) => {
            if cards.len() != n {
                Err(ShowdownError::WrongCardCount)
            } else {
                Ok(cards)
            }
        },
    }
}

/// Decides a showdown between two players who share the table: the line
/// names the winner, the category of the winning hand and its cards, or
/// says `DRAW` when the two best hands stand equal.
pub fn showdown(hole1: [Card; 2], hole2: [Card; 2], table: [Card; 5]) -> (line: String)
    ensures
        line@ == verdict(chosen(pool_of(hole1@, table@)), chosen(pool_of(hole2@, table@))),
{
    let hand1: Hand = Hand::new(hole1, table);
    let hand2: Hand = Hand::new(hole2, table);
    let line: String = if hand1 > hand2 {
        announce("1 ", &hand1)
    } else if hand2 > hand1 {
        proof {
            law_compare_antisymmetric(
                hand1.kind(),
                hand1.layout(),
                hand2.kind(),
                hand2.layout(),
            );
        }
        announce("2 ", &hand2)
    } else {
        proof {
            law_compare_antisymmetric(
                hand1.kind(),
                hand1.layout(),
                hand2.kind(),
                hand2.layout(),
            );
        }
        String::from_str("DRAW")
    };
    line
}

fn announce(player: &str, hand: &Hand) -> (line: String)
    ensures
        line@ == player@ + hand.kind().label() + " "@ + rendering(hand.layout()),
{
    let mut line: String = String::from_str(player);
    line.append(hand.get_hand_type());
    line.append(" ");
    let cards: String = hand.to_string();
    line.append(cards.as_str());
    line
}

/// Plays a showdown written as text: the first player's two hole cards,
/// the second player's two, and the five cards on the table, each card a
/// rank character and a suit character, the cards separated by white
/// space. The result is the verdict line, or what is wrong with the
/// texts.
pub fn play(player1: String, player2: String, table: String) -> (r: Result<String, ShowdownError>)
    ensures
        match r {
            Err(e) => fault(player1@, player2@, table@) == Some(e),
            Ok(line) => fault(player1@, player2@, table@) is None && exists|
                h1: Seq<Card>,
                h2: Seq<Card>,
                t: Seq<Card>,
            |
                #![trigger pool_of(h1, t), pool_of(h2, t)]
                spelled(tokens(player1@), h1) && spelled(tokens(player2@), h2) && spelled(
                    tokens(table@),
                    t,
                ) && line@ == verdict(chosen(pool_of(h1, t)), chosen(pool_of(h2, t))),
        },
{
    let h1: Vec<Card> = match parse_exactly(player1.as_str(), 2) {
        Ok(cards) => cards,
        Err(e) => { return Err(e); },
    };
    let h2: Vec<Card> = match parse_exactly(player2.as_str(), 2) {
        Ok(cards) => cards,
        Err(e) => { return Err(e); },
    };
    let t: Vec<Card> = match parse_exactly(table.as_str(), 5) {
        Ok(cards) => cards,
        Err(e) => { return Err(e); },
    };
    let hole1: [Card; 2] = [h1[0], h1[1]];
    let hole2: [Card; 2] = [h2[0], h2[1]];
    let shared: [Card; 5] = [t[0], t[1], t[2], t[3], t[4]];
    assert(hole1@ =~= h1@);
    assert(hole2@ =~= h2@);
    assert(shared@ =~= t@);
    let line: String = showdown(hole1, hole2, shared);
    assert(line@ == verdict(chosen(pool_of(h1@, t@)), chosen(pool_of(h2@, t@))));
    Ok(line)
}

/// The verdict does not depend on which best hand stands for a player:
/// any two best hands of one pool give the same line.
pub proof fn law_verdict_determined(
    pool1: Seq<Card>,
    pool2: Seq<Card>,
    a: Seq<Card>,
    b: Seq<Card>,
    c: Seq<Card>,
    d: Seq<Card>,
)
    requires
        is_best(pool1, a),
        is_best(pool1, c),
        is_best(pool2, b),
        is_best(pool2, d),
    ensures
        verdict(a, b) == verdict(c, d),
{
    law_best_hand_unique(pool1, a, c);
    law_best_hand_unique(pool2, b, d);
}

/// A list of tokens denotes at most one list of cards.
pub proof fn law_spelled_once(toks: Seq<Seq<char>>, a: Seq<Card>, b: Seq<Card>)
    requires
        spelled(toks, a),
        spelled(toks, b),
    ensures
        a == b,
{
    assert forall|k: int| 0 <= k < a.len() implies a[k] == b[k] by {
        assert(spells(toks[k], a[k]) && spells(toks[k], b[k]));
        assert(a[k].value == b[k].value);
        assert(a[k].suit == b[k].suit);
    }
    assert(a =~= b);
}

} // verus!
