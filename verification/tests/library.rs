use ofc_poker::helper::collection::hashmap_get_key_by_value;
use ofc_poker::helper::collection::hashmap_key_max_by_value;
use ofc_poker::helper::collection::hashmap_key_min_by_value;
use ofc_poker::helper::collection::slice_get_by_index;
use ofc_poker::poker::combination::ClassificationError;
use ofc_poker::poker::combination::Combination;
use ofc_poker::poker::deck_card::DeckCard;
use ofc_poker::poker::deck_card::DeckCard::Ace;
use ofc_poker::poker::deck_card::DeckCard::Eight;
use ofc_poker::poker::deck_card::DeckCard::Five;
use ofc_poker::poker::deck_card::DeckCard::Four;
use ofc_poker::poker::deck_card::DeckCard::Jack;
use ofc_poker::poker::deck_card::DeckCard::King;
use ofc_poker::poker::deck_card::DeckCard::Queen;
use ofc_poker::poker::deck_card::DeckCard::Seven;
use ofc_poker::poker::deck_card::DeckCard::Ten;
use ofc_poker::poker::deck_card::DeckCard::Three;
use ofc_poker::poker::deck_card::DeckCard::Two;
use ofc_poker::poker::game::parse_input;
use ofc_poker::poker::play_card::PlayCard;
use ofc_poker::poker::suit::Suit;
use ofc_poker::poker::suit::Suit::Clubs;
use ofc_poker::poker::suit::Suit::Diamonds;
use ofc_poker::poker::suit::Suit::Hearts;
use ofc_poker::poker::suit::Suit::Spades;

#[test]
fn length_four_rejected() {
    let line = [
        PlayCard { value: Two, suit: Spades },
        PlayCard { value: Three, suit: Spades },
        PlayCard { value: Five, suit: Hearts },
        PlayCard { value: Seven, suit: Clubs },
    ];
    assert_eq!(
        Combination::from_vec_cards(&line),
        Err(ClassificationError::InvalidLineLength)
    );
}

#[test]
fn empty_line_rejected() {
    let line: [PlayCard; 0] = [];
    assert_eq!(
        Combination::from_vec_cards(&line),
        Err(ClassificationError::InvalidLineLength)
    );
}

#[test]
fn five_of_a_rank_inconsistent() {
    let line = [
        PlayCard { value: Ace, suit: Spades },
        PlayCard { value: Ace, suit: Spades },
        PlayCard { value: Ace, suit: Hearts },
        PlayCard { value: Ace, suit: Clubs },
        PlayCard { value: Ace, suit: Diamonds },
    ];
    assert_eq!(
        Combination::from_vec_cards(&line),
        Err(ClassificationError::InconsistentHand)
    );
}

#[test]
fn classification_is_idempotent() {
    let line = [
        PlayCard { value: Seven, suit: Spades },
        PlayCard { value: Jack, suit: Hearts },
        PlayCard { value: Seven, suit: Clubs },
        PlayCard { value: Jack, suit: Spades },
        PlayCard { value: Ace, suit: Spades },
    ];
    let first = Combination::from_vec_cards(&line);
    let second = Combination::from_vec_cards(&line);
    assert_eq!(first, second);
}

#[test]
fn classification_ignores_order() {
    let sorted = [
        PlayCard { value: Ace, suit: Spades },
        PlayCard { value: King, suit: Spades },
        PlayCard { value: Queen, suit: Spades },
        PlayCard { value: Jack, suit: Spades },
        PlayCard { value: Ten, suit: Spades },
    ];
    let shuffled = [
        PlayCard { value: Queen, suit: Spades },
        PlayCard { value: Ten, suit: Spades },
        PlayCard { value: Ace, suit: Spades },
        PlayCard { value: Jack, suit: Spades },
        PlayCard { value: King, suit: Spades },
    ];
    assert_eq!(
        Combination::from_vec_cards(&sorted),
        Combination::from_vec_cards(&shuffled)
    );
    assert_eq!(
        Combination::from_vec_cards(&shuffled).unwrap(),
        Combination::RoyalFlush(Spades)
    );
}

#[test]
fn parse_card_ok() {
    assert_eq!(
        PlayCard::from_string("Ks").unwrap(),
        PlayCard { value: King, suit: Spades }
    );
    assert_eq!(
        PlayCard::from_string("Th").unwrap(),
        PlayCard { value: Ten, suit: Hearts }
    );
    assert_eq!(
        PlayCard::from_string("2d").unwrap(),
        PlayCard { value: Two, suit: Diamonds }
    );
}

#[test]
fn parse_card_wrong_length() {
    assert_eq!(
        PlayCard::from_string("K").unwrap_err(),
        "Failed to parse Klength should be 2"
    );
    assert_eq!(
        PlayCard::from_string("Ksx").unwrap_err(),
        "Failed to parse Ksxlength should be 2"
    );
}

#[test]
fn parse_card_bad_symbols() {
    assert_eq!(PlayCard::from_string("Xs").unwrap_err(), " -- no such deck card");
    assert_eq!(PlayCard::from_string("Kx").unwrap_err(), " -- no such deck card");
}

#[test]
fn parse_rank_symbols() {
    assert_eq!(DeckCard::from_string("T").unwrap(), Ten);
    assert_eq!(DeckCard::from_string("A").unwrap(), Ace);
    assert_eq!(DeckCard::from_string("2").unwrap(), Two);
    assert_eq!(DeckCard::from_string("1").unwrap_err(), " -- no such deck card");
    assert_eq!(DeckCard::from_string("10").unwrap_err(), " -- no such deck card");
}

#[test]
fn parse_suit_symbols() {
    assert_eq!(Suit::from_string('h').unwrap(), Hearts);
    assert_eq!(Suit::from_string('d').unwrap(), Diamonds);
    assert_eq!(Suit::from_string('c').unwrap(), Clubs);
    assert_eq!(Suit::from_string('s').unwrap(), Spades);
    assert!(Suit::from_string('x').is_err());
}

#[test]
fn highest_card_takes_last_of_tied_ranks() {
    let line = [
        PlayCard { value: King, suit: Hearts },
        PlayCard { value: Two, suit: Clubs },
        PlayCard { value: King, suit: Spades },
    ];
    assert_eq!(
        PlayCard::calc_highest_card(&line),
        PlayCard { value: King, suit: Spades }
    );
}

#[test]
fn slice_lookup() {
    let items = [10u8, 20, 30];
    assert_eq!(slice_get_by_index(&items, 1), Some(&20));
    assert_eq!(slice_get_by_index(&items, 3), None);
}

#[test]
fn table_key_by_value() {
    let table = [(1u8, 2u8), (7, 3)];
    assert_eq!(hashmap_get_key_by_value(&table, 3), Some(7));
    assert_eq!(hashmap_get_key_by_value(&table, 4), None);
}

#[test]
fn table_extremes_break_ties_like_scans() {
    let tied = [(1u8, 2u8), (7, 2)];
    assert_eq!(hashmap_key_max_by_value(&tied), 7);
    assert_eq!(hashmap_key_min_by_value(&tied), 1);
    let mixed = [(4u8, 3u8), (9, 2)];
    assert_eq!(hashmap_key_max_by_value(&mixed), 4);
    assert_eq!(hashmap_key_min_by_value(&mixed), 9);
}

#[test]
fn pairs_table_is_ascending() {
    let line = [
        PlayCard { value: Ace, suit: Spades },
        PlayCard { value: King, suit: Hearts },
        PlayCard { value: Ace, suit: Clubs },
        PlayCard { value: Queen, suit: Hearts },
        PlayCard { value: King, suit: Diamonds },
    ];
    let pairs = Combination::get_pairs(&line);
    assert_eq!(pairs, vec![(King, 2u8), (Ace, 2u8)]);
}

#[test]
fn flush_check() {
    let flush = [
        PlayCard { value: King, suit: Hearts },
        PlayCard { value: Jack, suit: Hearts },
        PlayCard { value: Ten, suit: Hearts },
        PlayCard { value: Eight, suit: Hearts },
        PlayCard { value: Five, suit: Hearts },
    ];
    assert_eq!(
        Combination::check_flush(&flush),
        Some(PlayCard { value: King, suit: Hearts })
    );
    let mixed = [
        PlayCard { value: King, suit: Hearts },
        PlayCard { value: Jack, suit: Spades },
        PlayCard { value: Ten, suit: Hearts },
        PlayCard { value: Eight, suit: Hearts },
        PlayCard { value: Five, suit: Hearts },
    ];
    assert_eq!(Combination::check_flush(&mixed), None);
    let short = [
        PlayCard { value: King, suit: Hearts },
        PlayCard { value: Jack, suit: Hearts },
        PlayCard { value: Ten, suit: Hearts },
    ];
    assert_eq!(Combination::check_flush(&short), None);
}

#[test]
fn straight_check() {
    let wheel = [
        PlayCard { value: Ace, suit: Spades },
        PlayCard { value: Two, suit: Hearts },
        PlayCard { value: Three, suit: Clubs },
        PlayCard { value: Four, suit: Spades },
        PlayCard { value: Five, suit: Diamonds },
    ];
    assert_eq!(Combination::check_straight(&wheel), Some(Five));
    let broadway = [
        PlayCard { value: Queen, suit: Spades },
        PlayCard { value: Ten, suit: Hearts },
        PlayCard { value: Ace, suit: Clubs },
        PlayCard { value: Jack, suit: Spades },
        PlayCard { value: King, suit: Diamonds },
    ];
    assert_eq!(Combination::check_straight(&broadway), Some(Ace));
    let scattered = [
        PlayCard { value: Queen, suit: Spades },
        PlayCard { value: Ten, suit: Hearts },
        PlayCard { value: Ace, suit: Clubs },
        PlayCard { value: Jack, suit: Spades },
        PlayCard { value: Two, suit: Diamonds },
    ];
    assert_eq!(Combination::check_straight(&scattered), None);
}

#[test]
fn rendering() {
    assert_eq!(Combination::RoyalFlush(Spades).describe(), "RoyalFlush(Spades)");
    assert_eq!(
        Combination::FullHouse { triple: King, double: Ace }.describe(),
        "FullHouse(King, Ace)"
    );
    assert_eq!(
        Combination::StraightFlush(PlayCard { value: Five, suit: Spades }).describe(),
        "StraightFlush(Five of Spades)"
    );
    assert_eq!(PlayCard { value: King, suit: Hearts }.name(), "King of Hearts");
}

#[test]
fn error_messages() {
    assert_eq!(
        ClassificationError::InvalidLineLength.message(),
        "Invalid number of cards passed"
    );
    assert_eq!(
        ClassificationError::UnsupportedAtLength3.message(),
        "Found two pairs or full house on 3-card line"
    );
    assert_eq!(ClassificationError::InconsistentHand.message(), "Inconsistent hand");
}

#[test]
fn full_deal_report() {
    let deal = [
        [
            "3s", "3h", "3d", "5h", "5d", "5s", "8h", "8d", "3h", "2d", "4h", "5d", "Ah",
        ],
        [
            "2s", "3s", "4s", "5s", "6s", "7s", "8s", "9s", "Ts", "Js", "Qs", "Ks", "As",
        ],
        [
            "2d", "3d", "4d", "5d", "6d", "7d", "8d", "9d", "Td", "Jd", "Qd", "Kd", "Ad",
        ],
    ];
    let report = parse_input(deal).unwrap();
    let expected = "\nPlayer #1 :\nTop: ThreeOfAKind(Three)\nMiddle: FullHouse(Five, Eight)\nBottom: Straight(Five)\n---\nPlayer #2 :\nTop: Kicker(Four)\nMiddle: StraightFlush(Nine of Spades)\nBottom: RoyalFlush(Spades)\n---\nPlayer #3 :\nTop: Kicker(Four)\nMiddle: StraightFlush(Nine of Diamonds)\nBottom: RoyalFlush(Diamonds)\n---";
    assert_eq!(report, expected);
}

#[test]
fn deal_with_bad_card_fails() {
    let deal = [
        [
            "3s", "3h", "3d", "5h", "5d", "5s", "8h", "8d", "3h", "2d", "4h", "5d", "Xh",
        ],
        [
            "2s", "3s", "4s", "5s", "6s", "7s", "8s", "9s", "Ts", "Js", "Qs", "Ks", "As",
        ],
        [
            "2d", "3d", "4d", "5d", "6d", "7d", "8d", "9d", "Td", "Jd", "Qd", "Kd", "Ad",
        ],
    ];
    assert_eq!(parse_input(deal).unwrap_err(), " -- no such deck card");
}

#[test]
fn deal_with_duplicated_cards_fails() {
    let deal = [
        [
            "3s", "3h", "3d", "5h", "5h", "5h", "5h", "5h", "3h", "2d", "4h", "5d", "Ah",
        ],
        [
            "2s", "3s", "4s", "5s", "6s", "7s", "8s", "9s", "Ts", "Js", "Qs", "Ks", "As",
        ],
        [
            "2d", "3d", "4d", "5d", "6d", "7d", "8d", "9d", "Td", "Jd", "Qd", "Kd", "Ad",
        ],
    ];
    assert_eq!(parse_input(deal).unwrap_err(), "Inconsistent hand");
}
