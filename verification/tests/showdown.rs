use poker::card::{Card, CardError, CardSuit, CardValue};
use poker::hand::{Hand, HandType, Standing};
use poker::{parse_cards, play, showdown, ShowdownError};

fn cards(text: &str) -> Vec<Card> {
    parse_cards(text).unwrap()
}

fn best(hole: &str, table: &str) -> Hand {
    let h = cards(hole);
    let t = cards(table);
    Hand::new([h[0], h[1]], [t[0], t[1], t[2], t[3], t[4]])
}

fn described(hole: &str, table: &str) -> String {
    let hand = best(hole, table);
    format!("{} {}", hand.get_hand_type(), hand.to_string())
}

fn run(c1: &str, c2: &str, table: &str) -> Result<String, ShowdownError> {
    play(String::from(c1), String::from(c2), String::from(table))
}

#[test]
fn test_high_card() {
    let player1 = String::from("8D 7C");
    let player2 = String::from("7D 6C");
    let table = String::from("KS 9D 5C 3S 2D");

    let result = play(player1, player2, table);
    assert_eq!(result.unwrap(), "1 HIGH_CARD K9875");
}

#[test]
fn test_new_card() {
    let card1 = Card::new('8', 'D').unwrap();
    assert!(card1.value == CardValue::Value8);
    assert!(card1.suit == CardSuit::Diamonds);

    let card2 = Card::new('7', 'C').unwrap();
    assert!(card2.value == CardValue::Value7);
    assert!(card2.suit == CardSuit::Clubs);
}

#[test]
fn new_card_rejects_unknown_characters() {
    assert_eq!(Card::new('1', 'D'), Err(CardError::UnknownValue));
    assert_eq!(Card::new('t', 'D'), Err(CardError::UnknownValue));
    assert_eq!(Card::new('X', 'X'), Err(CardError::UnknownValue));
    assert_eq!(Card::new('A', 'X'), Err(CardError::UnknownSuit));
    assert_eq!(Card::new('A', 's'), Err(CardError::UnknownSuit));
    assert_eq!(
        Card::new('A', 'S'),
        Ok(Card { value: CardValue::ValueA, suit: CardSuit::Spades })
    );
}

#[test]
fn every_rank_and_suit_character_reads_back() {
    let ranks = "23456789TJQKA";
    for (n, ch) in ranks.chars().enumerate() {
        let v = CardValue::from_char(ch).unwrap();
        assert_eq!(v.to_char(), ch);
        assert_eq!(v.number() as usize, n + 2);
    }
    assert_eq!(CardSuit::from_char('C'), Some(CardSuit::Clubs));
    assert_eq!(CardSuit::from_char('D'), Some(CardSuit::Diamonds));
    assert_eq!(CardSuit::from_char('H'), Some(CardSuit::Hearts));
    assert_eq!(CardSuit::from_char('S'), Some(CardSuit::Spades));
    assert_eq!(CardSuit::from_char('Z'), None);
    assert_eq!(CardValue::from_char('1'), None);
}

#[test]
fn full_house_puts_the_triple_before_the_pair() {
    let hand = best("3S 3D", "3C QS QD 5S 9S");
    assert_eq!(hand.hand_type(), HandType::FullHouse);
    assert_eq!(hand.get_hand_type(), "FULL_HOUSE");
    assert_eq!(hand.to_string(), "333QQ");
}

#[test]
fn full_house_with_two_triples_uses_the_lower_as_pair() {
    assert_eq!(described("3S 3D", "3C QS QD QH 9S"), "FULL_HOUSE QQQ33");
}

#[test]
fn full_house_takes_the_higher_pair() {
    assert_eq!(described("3S 3D", "3C QS QD KH KS"), "FULL_HOUSE 333KK");
}

#[test]
fn flush_on_the_table_is_a_draw_when_holes_do_not_help() {
    assert_eq!(run("3C 4D", "6C 7D", "2H 5H 9H JH KH").unwrap(), "DRAW");
}

#[test]
fn flush_against_flush_is_decided_by_the_ranks_in_order() {
    assert_eq!(run("AH 3C", "QH 4D", "2H 5H 9H JH KH").unwrap(), "1 FLUSH AKJ95");
    assert_eq!(run("QH 4D", "AH 3C", "2H 5H 9H JH KH").unwrap(), "2 FLUSH AKJ95");
}

#[test]
fn flush_takes_the_five_highest_of_the_suit() {
    assert_eq!(described("AH 3H", "2H 5H 9H JH KH"), "FLUSH AKJ95");
}

#[test]
fn high_card_shows_five_highest_ranks_without_repeats() {
    let hand = best("2C 4D", "6H 8S TC QD AH");
    assert_eq!(hand.hand_type(), HandType::HighCard);
    let text = hand.to_string();
    assert_eq!(text, "AQT86");
    let chars: Vec<char> = text.chars().collect();
    for i in 0..5 {
        for j in (i + 1)..5 {
            assert_ne!(chars[i], chars[j]);
        }
    }
}

#[test]
fn board_played_by_both_is_a_draw() {
    assert_eq!(run("2C 3D", "4C 5D", "AS KD QH JC TS").unwrap(), "DRAW");
}

#[test]
fn second_player_can_win() {
    assert_eq!(run("2C 3D", "AC AD", "KH QS 9D 7C 4D").unwrap(), "2 PAIR AAKQ9");
}

#[test]
fn straight_flush_is_found() {
    assert_eq!(described("9H TH", "JH QH KH 2C 3D"), "STRAIGHT_FLUSH KQJT9");
}

#[test]
fn straight_flush_keeps_the_highest_top_card() {
    assert_eq!(described("8H 9H", "TH JH QH KH 3D"), "STRAIGHT_FLUSH KQJT9");
}

#[test]
fn straight_flush_beats_a_higher_plain_flush() {
    assert_eq!(described("AH 2C", "5H 6H 7H 8H 9H"), "STRAIGHT_FLUSH 98765");
}

#[test]
fn four_of_a_kind_is_found_with_highest_kicker() {
    assert_eq!(described("7C 7D", "7H 7S KD 2C 3D"), "FOUR_OF_A_KIND 7777K");
    assert_eq!(described("7C 7D", "7H 7S KD KC KH"), "FOUR_OF_A_KIND 7777K");
}

#[test]
fn three_of_a_kind_is_found_with_two_kickers() {
    assert_eq!(described("7C 7D", "7H KS QD 2C 3D"), "THREE_OF_A_KIND 777KQ");
}

#[test]
fn two_pair_takes_the_two_highest_pairs() {
    assert_eq!(described("7C 7D", "KH KS QD 2C 2D"), "TWO_PAIR KK77Q");
    assert_eq!(described("7C 7D", "KH KS 3D 2C 2D"), "TWO_PAIR KK773");
}

#[test]
fn pair_is_found_with_three_kickers() {
    assert_eq!(described("7C 7D", "KH QS 9D 2C 3D"), "PAIR 77KQ9");
}

#[test]
fn straight_is_found_and_the_highest_window_wins() {
    assert_eq!(described("7C 8D", "9H TS JD 2C 3D"), "STRAIGHT JT987");
    assert_eq!(described("7C 8D", "9H TS JD QC 3D"), "STRAIGHT QJT98");
    assert_eq!(described("7C 8D", "9H TS JD QC KD"), "STRAIGHT KQJT9");
}

#[test]
fn straight_with_a_paired_rank_is_still_a_straight() {
    assert_eq!(described("7C 8D", "9H TS JD JC 3D"), "STRAIGHT JT987");
}

// A known limit: the ace counts high only, so A-2-3-4-5 is no straight.
#[test]
fn ace_does_not_count_low_in_a_straight() {
    assert_eq!(described("AC 2D", "3H 4S 5D 9C KD"), "HIGH_CARD AK954");
}

#[test]
fn four_equal_ranks_in_the_pool_always_give_four_of_a_kind() {
    let tables = ["9H 9S 2C 3D 4H", "9H 9S KC KD KH", "9H 9S TC JD QH", "9H 9S 2H 3H 4H"];
    for table in tables.iter() {
        assert_eq!(best("9C 9D", table).hand_type(), HandType::FourOfAKind);
    }
}

#[test]
fn best_hand_is_not_beaten_by_any_five_of_the_seven() {
    let pools = [
        ("8D 7C", "KS 9D 5C 3S 2D"),
        ("3S 3D", "3C QS QD 5S 9S"),
        ("AH 3H", "2H 5H 9H JH KH"),
        ("7C 8D", "9H TS JD QC 3D"),
        ("7C 7D", "KH KS QD 2C 2D"),
        ("AC 2D", "3H 4S 5D 9C KD"),
    ];
    for (hole, table) in pools.iter() {
        let h = cards(hole);
        let t = cards(table);
        let pool = [h[0], h[1], t[0], t[1], t[2], t[3], t[4]];
        let chosen = Hand::new([h[0], h[1]], [t[0], t[1], t[2], t[3], t[4]]);
        let mut reached = false;
        for i in 0..7 {
            for j in (i + 1)..7 {
                let mut five: Vec<Card> = Vec::new();
                for k in 0..7 {
                    if k != i && k != j {
                        five.push(pool[k]);
                    }
                }
                let rival = Hand::from_five(&[five[0], five[1], five[2], five[3], five[4]]);
                assert_ne!(rival.compare(&chosen), Standing::Greater);
                if rival.compare(&chosen) == Standing::Equal {
                    reached = true;
                }
            }
        }
        assert!(reached);
    }
}

#[test]
fn best_hand_holds_five_different_cards_of_the_pool() {
    let h = cards("3S 3D");
    let t = cards("3C QS QD 5S 9S");
    let pool = [h[0], h[1], t[0], t[1], t[2], t[3], t[4]];
    let hand = Hand::new([h[0], h[1]], [t[0], t[1], t[2], t[3], t[4]]).cards();
    assert_eq!(hand.len(), 5);
    for i in 0..5 {
        assert!(pool.contains(&hand[i]));
        for j in (i + 1)..5 {
            assert_ne!(hand[i], hand[j]);
        }
    }
}

#[test]
fn from_five_orders_groups_before_kickers() {
    let c = cards("2C KD 9H 9S KC");
    let hand = Hand::from_five(&[c[0], c[1], c[2], c[3], c[4]]);
    assert_eq!(hand.hand_type(), HandType::TwoPair);
    assert_eq!(hand.to_string(), "KK992");
    let got = hand.cards();
    assert_eq!(got[0], c[1]);
    assert_eq!(got[1], c[4]);
    assert_eq!(got[2], c[2]);
    assert_eq!(got[3], c[3]);
    assert_eq!(got[4], c[0]);
}

#[test]
fn compare_goes_by_category_first() {
    let c = cards("2C 2D 3H 4S 5C");
    let pair = Hand::from_five(&[c[0], c[1], c[2], c[3], c[4]]);
    let d = cards("AC KD QH JS 9C");
    let high = Hand::from_five(&[d[0], d[1], d[2], d[3], d[4]]);
    assert_eq!(pair.compare(&high), Standing::Greater);
    assert_eq!(high.compare(&pair), Standing::Less);
}

#[test]
fn compare_goes_by_first_differing_rank_within_a_category() {
    let c = cards("AC KD QH JS 9C");
    let d = cards("AD KH QS JC 8D");
    let x = Hand::from_five(&[c[0], c[1], c[2], c[3], c[4]]);
    let y = Hand::from_five(&[d[0], d[1], d[2], d[3], d[4]]);
    assert_eq!(x.compare(&y), Standing::Greater);
    assert_eq!(y.compare(&x), Standing::Less);
}

#[test]
fn compare_ignores_suits_and_is_reflexive() {
    let c = cards("AC KD QH JS 9C");
    let d = cards("AD KH QS JC 9D");
    let x = Hand::from_five(&[c[0], c[1], c[2], c[3], c[4]]);
    let y = Hand::from_five(&[d[0], d[1], d[2], d[3], d[4]]);
    assert_eq!(x.compare(&y), Standing::Equal);
    assert_eq!(y.compare(&x), Standing::Equal);
    assert_eq!(x.compare(&x), Standing::Equal);
}

#[test]
fn compare_is_transitive_on_three_hands() {
    let a = best("2C 3D", "KH QS 9D 7C 4D");
    let b = best("AC AD", "KH QS 9D 7C 4D");
    let c = best("KC KD", "KH QS 9D 7C 4D");
    assert_eq!(a.compare(&b), Standing::Less);
    assert_eq!(b.compare(&c), Standing::Less);
    assert_eq!(a.compare(&c), Standing::Less);
}

#[test]
fn hand_text_has_five_rank_symbols() {
    let pools = [("8D 7C", "KS 9D 5C 3S 2D"), ("TS 3D", "3C QS QD 5S 9S")];
    for (hole, table) in pools.iter() {
        let text = best(hole, table).to_string();
        assert_eq!(text.chars().count(), 5);
        for ch in text.chars() {
            assert!("23456789TJQKA".contains(ch));
        }
    }
    assert_eq!(best("TS 3D", "3C QS QD 5S 9S").to_string(), "QQ33T");
}

#[test]
fn category_names_are_upper_snake_case() {
    assert_eq!(HandType::HighCard.name(), "HIGH_CARD");
    assert_eq!(HandType::Pair.name(), "PAIR");
    assert_eq!(HandType::TwoPair.name(), "TWO_PAIR");
    assert_eq!(HandType::ThreeOfAKind.name(), "THREE_OF_A_KIND");
    assert_eq!(HandType::Straight.name(), "STRAIGHT");
    assert_eq!(HandType::Flush.name(), "FLUSH");
    assert_eq!(HandType::FullHouse.name(), "FULL_HOUSE");
    assert_eq!(HandType::FourOfAKind.name(), "FOUR_OF_A_KIND");
    assert_eq!(HandType::StraightFlush.name(), "STRAIGHT_FLUSH");
    assert_eq!(HandType::HighCard.strength(), 0);
    assert_eq!(HandType::StraightFlush.strength(), 8);
}

#[test]
fn malformed_tokens_are_rejected() {
    assert_eq!(run("8D 7X", "7D 6C", "KS 9D 5C 3S 2D"), Err(ShowdownError::MalformedCard));
    assert_eq!(run("8D 7C", "1D 6C", "KS 9D 5C 3S 2D"), Err(ShowdownError::MalformedCard));
    assert_eq!(run("8D 7C", "7D 6C", "KS 9D 5C 3S 2DD"), Err(ShowdownError::MalformedCard));
    assert_eq!(run("8D 7C", "7D 6C", "KS 9D 5C 3S 2"), Err(ShowdownError::MalformedCard));
    assert_eq!(run("8d 7C", "7D 6C", "KS 9D 5C 3S 2D"), Err(ShowdownError::MalformedCard));
    assert_eq!(run("8D7C", "7D 6C", "KS 9D 5C 3S 2D"), Err(ShowdownError::MalformedCard));
}

#[test]
fn wrong_card_counts_are_rejected() {
    assert_eq!(run("8D", "7D 6C", "KS 9D 5C 3S 2D"), Err(ShowdownError::WrongCardCount));
    assert_eq!(run("8D 7C 2C", "7D 6C", "KS 9D 5C 3S 2D"), Err(ShowdownError::WrongCardCount));
    assert_eq!(run("8D 7C", "", "KS 9D 5C 3S 2D"), Err(ShowdownError::WrongCardCount));
    assert_eq!(run("8D 7C", "7D 6C", "KS 9D 5C 3S"), Err(ShowdownError::WrongCardCount));
    assert_eq!(run("8D 7C", "7D 6C", "KS 9D 5C 3S 2D 4H"), Err(ShowdownError::WrongCardCount));
}

#[test]
fn a_malformed_token_counts_before_a_wrong_count() {
    assert_eq!(run("8D 7C 2X", "7D", "KS"), Err(ShowdownError::MalformedCard));
    assert_eq!(run("8D", "7D 6X", "KS"), Err(ShowdownError::WrongCardCount));
}

#[test]
fn any_white_space_separates_tokens() {
    assert_eq!(
        run("  8D\t7C ", "7D\n6C", " KS  9D 5C\r\n3S 2D\n").unwrap(),
        "1 HIGH_CARD K9875"
    );
    assert_eq!(parse_cards("").unwrap().len(), 0);
    assert_eq!(parse_cards("   ").unwrap().len(), 0);
    let got = parse_cards("AS\tTD").unwrap();
    assert_eq!(got[0], Card { value: CardValue::ValueA, suit: CardSuit::Spades });
    assert_eq!(got[1], Card { value: CardValue::ValueT, suit: CardSuit::Diamonds });
}

#[test]
fn showdown_on_cards_gives_the_same_line_as_play() {
    let h1 = cards("8D 7C");
    let h2 = cards("7D 6C");
    let t = cards("KS 9D 5C 3S 2D");
    let line = showdown([h1[0], h1[1]], [h2[0], h2[1]], [t[0], t[1], t[2], t[3], t[4]]);
    assert_eq!(line, "1 HIGH_CARD K9875");
}

#[test]
fn operators_follow_compare() {
    let low = best("2C 3D", "KH QS 9D 7C 4D");
    let high = best("AC AD", "KH QS 9D 7C 4D");
    let same = best("2H 3S", "KH QS 9D 7C 4D");
    assert!(high > low);
    assert!(low < high);
    assert!(low <= high);
    assert!(!(low > high));
    assert!(low == same);
    assert!(low >= same && low <= same);
    assert!(low != high);
    let c = cards("AC KD QH JS 9C");
    let d = cards("AD KH QS JC 9D");
    let x = Hand::from_five(&[c[0], c[1], c[2], c[3], c[4]]);
    let y = Hand::from_five(&[d[0], d[1], d[2], d[3], d[4]]);
    assert!(x == y);
    assert_ne!(x.cards(), y.cards());
}

#[test]
fn unicode_white_space_separates_tokens() {
    let got = parse_cards("AS\u{00A0}TD\u{2003}9C\u{3000}2H").unwrap();
    assert_eq!(got.len(), 4);
    assert_eq!(got[3], Card { value: CardValue::Value2, suit: CardSuit::Hearts });
    for ch in 0u32..0x3100 {
        if let Some(c) = char::from_u32(ch) {
            let text = format!("AS{}TD", c);
            let two = parse_cards(&text).map(|v| v.len()) == Ok(2);
            assert_eq!(two, c.is_whitespace());
        }
    }
}

#[test]
fn equally_strong_choices_leave_out_the_earliest_cards() {
    let h = cards("QC QD");
    let t = cards("AH AS AD AC 2S");
    let hand = Hand::new([h[0], h[1]], [t[0], t[1], t[2], t[3], t[4]]);
    assert_eq!(hand.get_hand_type(), "FOUR_OF_A_KIND");
    assert_eq!(hand.to_string(), "AAAAQ");
    assert_eq!(hand.cards()[4], h[1]);
    let again = Hand::new([h[0], h[1]], [t[0], t[1], t[2], t[3], t[4]]);
    assert_eq!(hand.cards(), again.cards());
}
