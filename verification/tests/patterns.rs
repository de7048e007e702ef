use poker::card::{Card, CardSuit, CardValue};
use poker::hand::{check_high_card, get_pair, Hand, HandType};

fn spade(value: CardValue) -> Card {
    Card { value, suit: CardSuit::Spades }
}

#[test]
fn check_high_card_value() {
    let hole = [spade(CardValue::Value3), spade(CardValue::Value4)];
    let table = [
        spade(CardValue::Value5),
        spade(CardValue::Value8),
        spade(CardValue::ValueQ),
        spade(CardValue::Value2),
        spade(CardValue::ValueA),
    ];

    let hand: Hand = check_high_card(hole, table);

    assert!(hand.hand_type() == HandType::HighCard);
    assert!(hand.cards()[0].value == CardValue::ValueA);
    assert!(hand.cards()[1].value == CardValue::ValueQ);
    assert!(hand.cards()[2].value == CardValue::Value8);
    assert!(hand.cards()[3].value == CardValue::Value5);
    assert!(hand.cards()[4].value == CardValue::Value4);
}

#[test]
fn test_get_pair_found() {
    let hole = [spade(CardValue::Value3), spade(CardValue::Value3)];
    let table = [
        spade(CardValue::Value3),
        spade(CardValue::Value5),
        spade(CardValue::ValueQ),
        spade(CardValue::Value5),
        spade(CardValue::ValueQ),
    ];

    let hand: Hand = get_pair(hole, table).unwrap();

    assert!(hand.hand_type() == HandType::Pair);
    assert!(hand.cards()[0].value == CardValue::ValueQ);
    assert!(hand.cards()[1].value == CardValue::ValueQ);
    assert!(hand.cards()[2].value == CardValue::Value5);
    assert!(hand.cards()[3].value == CardValue::Value5);
    assert!(hand.cards()[4].value == CardValue::Value3);
}

#[test]
fn test_get_pair_missing() {
    let hole = [spade(CardValue::Value3), spade(CardValue::Value4)];
    let table = [
        spade(CardValue::Value6),
        spade(CardValue::Value7),
        spade(CardValue::ValueQ),
        spade(CardValue::Value5),
        spade(CardValue::ValueA),
    ];

    assert_eq!(get_pair(hole, table).is_none(), true);
}

#[test]
fn get_pair_passes_over_a_triple() {
    let hole = [spade(CardValue::ValueK), Card { value: CardValue::ValueK, suit: CardSuit::Hearts }];
    let table = [
        Card { value: CardValue::ValueK, suit: CardSuit::Clubs },
        spade(CardValue::Value5),
        spade(CardValue::Value9),
        spade(CardValue::Value2),
        spade(CardValue::ValueQ),
    ];
    assert!(get_pair(hole, table).is_none());
}

#[test]
fn get_pair_takes_the_cards_of_the_pair_from_the_pool() {
    let hole = [spade(CardValue::Value7), Card { value: CardValue::ValueA, suit: CardSuit::Hearts }];
    let table = [
        Card { value: CardValue::Value7, suit: CardSuit::Clubs },
        spade(CardValue::Value5),
        spade(CardValue::Value9),
        spade(CardValue::Value2),
        spade(CardValue::ValueQ),
    ];
    let hand = get_pair(hole, table).unwrap();
    assert_eq!(hand.get_hand_type(), "PAIR");
    assert_eq!(hand.to_string(), "77AQ9");
    let got = hand.cards();
    assert_eq!(got[0], hole[0]);
    assert_eq!(got[1], table[0]);
    assert_eq!(got[2], hole[1]);
    assert_eq!(got[3], table[4]);
    assert_eq!(got[4], table[2]);
}

#[test]
fn check_high_card_takes_five_different_positions() {
    let hole = [spade(CardValue::Value9), Card { value: CardValue::Value9, suit: CardSuit::Hearts }];
    let table = [
        spade(CardValue::ValueT),
        spade(CardValue::Value5),
        Card { value: CardValue::Value9, suit: CardSuit::Clubs },
        spade(CardValue::Value2),
        spade(CardValue::ValueQ),
    ];
    let hand = check_high_card(hole, table);
    assert_eq!(hand.get_hand_type(), "HIGH_CARD");
    assert_eq!(hand.to_string(), "QT999");
    let got = hand.cards();
    assert_eq!(got[2], hole[0]);
    assert_eq!(got[3], hole[1]);
    assert_eq!(got[4], table[2]);
}
