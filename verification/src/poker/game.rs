//! Parsing and reporting a full three-player deal: thirteen cards per
//! player, split into a 3-card top row and two 5-card rows.

use vstd::prelude::*;
use vstd::slice::slice_subrange;

use crate::poker::combination::Combination;
use crate::poker::model::spec_classify;
use crate::poker::play_card::PlayCard;

verus! {

/// The first `i` of a player's thirteen cards, parsed left to right; the
/// first card that fails to parse fails the whole player.
pub open spec fn spec_parse_cards(a: [&str; 13], i: int) -> Result<Seq<PlayCard>, Seq<char>>
    decreases i,
{
    if i <= 0 {
        Ok(Seq::empty())
    } else {
        match spec_parse_cards(a, i - 1) {
            Ok(done) => match PlayCard::spec_from_string(a@[i - 1]@) {
                Ok(c) => Ok(done.push(c)),
                Err(e) => Err(e),
            },
            Err(e) => Err(e),
        }
    }
}

/// A parse failure among the first `p` cards fails every longer prefix the
/// same way.
proof fn lemma_parse_cards_error_persists(a: [&str; 13], p: int, q: int)
    requires
        0 <= p <= q,
        spec_parse_cards(a, p) is Err,
    ensures
        spec_parse_cards(a, q) == spec_parse_cards(a, p),
    decreases q - p,
{
    if q > p {
        lemma_parse_cards_error_persists(a, p, q - 1);
    }
}

/// The three combinations of a player's rows: top the first three cards,
/// middle the next five, bottom the last five.  A classification error is
/// reported by its message.
pub open spec fn spec_line_results(cards: Seq<PlayCard>) -> Result<
    (Combination, Combination, Combination),
    Seq<char>,
> {
    match spec_classify(cards.subrange(0, 3)) {
        Ok(top) => match spec_classify(cards.subrange(3, 8)) {
            Ok(middle) => match spec_classify(cards.subrange(8, 13)) {
                Ok(bottom) => Ok((top, middle, bottom)),
                Err(e) => Err(e.spec_message()),
            },
            Err(e) => Err(e.spec_message()),
        },
        Err(e) => Err(e.spec_message()),
    }
}

/// The digit naming player `p`, counting from one.
pub open spec fn spec_player_number(p: int) -> Seq<char> {
    if p == 0 {
        "1"@
    } else if p == 1 {
        "2"@
    } else {
        "3"@
    }
}

/// One player's block of the report.
pub open spec fn spec_player_block(
    p: int,
    top: Combination,
    middle: Combination,
    bottom: Combination,
) -> Seq<char> {
    "\nPlayer #"@ + spec_player_number(p) + " :\nTop: "@ + top.spec_describe() + "\nMiddle: "@
        + middle.spec_describe() + "\nBottom: "@ + bottom.spec_describe() + "\n---"@
}

/// The report over the first `p` players; the first player that fails
/// fails the whole deal.
pub open spec fn spec_parse_input_upto(input: [[&str; 13]; 3], p: int) -> Result<
    Seq<char>,
    Seq<char>,
>
    decreases p,
{
    if p <= 0 {
        Ok(Seq::empty())
    } else {
        match spec_parse_input_upto(input, p - 1) {
            Ok(acc) => match spec_parse_cards(input@[p - 1], 13) {
                Ok(cards) => match spec_line_results(cards) {
                    Ok(r) => Ok(acc + spec_player_block(p - 1, r.0, r.1, r.2)),
                    Err(e) => Err(e),
                },
                Err(e) => Err(e),
            },
            Err(e) => Err(e),
        }
    }
}

/// A failure among the first `p` players fails the whole deal the same
/// way.
proof fn lemma_parse_input_error_persists(input: [[&str; 13]; 3], p: int, q: int)
    requires
        0 <= p <= q,
        spec_parse_input_upto(input, p) is Err,
    ensures
        spec_parse_input_upto(input, q) == spec_parse_input_upto(input, p),
    decreases q - p,
{
    if q > p {
        lemma_parse_input_error_persists(input, p, q - 1);
    }
}

/// The whole report of a three-player deal.
pub open spec fn spec_parse_input(input: [[&str; 13]; 3]) -> Result<Seq<char>, Seq<char>> {
    spec_parse_input_upto(input, 3)
}

/// The digit naming player `p`, counting from one.
fn player_number(p: usize) -> (s: &'static str)
    ensures
        s@ == spec_player_number(p as int),
{
    if p == 0 {
        "1"
    } else if p == 1 {
        "2"
    } else {
        "3"
    }
}

/// Parses three players' thirteen cards each, classifies each player's
/// top, middle and bottom row, and renders the report; the first card that
/// fails to parse, or row that fails to classify, fails the deal with its
/// message.
pub fn parse_input(player_input: [[&str; 13]; 3]) -> (r: Result<String, String>)
    ensures
        match r {
            Ok(s) => spec_parse_input(player_input) == Ok::<Seq<char>, Seq<char>>(s@),
            Err(e) => spec_parse_input(player_input) == Err::<Seq<char>, Seq<char>>(e@),
        },
{
    let mut overall = String::new();
    let mut p: usize = 0;
    while p < 3
        invariant
            p <= 3,
            spec_parse_input_upto(player_input, p as int) == Ok::<Seq<char>, Seq<char>>(
                overall@,
            ),
        decreases 3 - p,
    {
        let player_data = player_input[p];
        let mut parsed_cards: Vec<PlayCard> = Vec::new();
        let mut i: usize = 0;
        while i < 13
            invariant
                i <= 13,
                p < 3,
                player_data == player_input@[p as int],
                spec_parse_input_upto(player_input, p as int) == Ok::<Seq<char>, Seq<char>>(
                    overall@,
                ),
                parsed_cards@.len() == i,
                spec_parse_cards(player_data, i as int) == Ok::<Seq<PlayCard>, Seq<char>>(
                    parsed_cards@,
                ),
            decreases 13 - i,
        {
            match PlayCard::from_string(player_data[i]) {
                Ok(card) => {
                    parsed_cards.push(card);
                },
                Err(e) => {
                    proof {
                        lemma_parse_cards_error_persists(player_data, i + 1, 13);
                        lemma_parse_input_error_persists(player_input, p + 1, 3);
                    }
                    return Err(e);
                },
            }
            i = i + 1;
        }
        let top = match Combination::from_vec_cards(
            slice_subrange(parsed_cards.as_slice(), 0, 3),
        ) {
            Ok(c) => c,
            Err(err) => {
                proof {
                    lemma_parse_input_error_persists(player_input, p + 1, 3);
                }
                return Err(err.message());
            },
        };
        let middle = match Combination::from_vec_cards(
            slice_subrange(parsed_cards.as_slice(), 3, 8),
        ) {
            Ok(c) => c,
            Err(err) => {
                proof {
                    lemma_parse_input_error_persists(player_input, p + 1, 3);
                }
                return Err(err.message());
            },
        };
        let bottom = match Combination::from_vec_cards(
            slice_subrange(parsed_cards.as_slice(), 8, 13),
        ) {
            Ok(c) => c,
            Err(err) => {
                proof {
                    lemma_parse_input_error_persists(player_input, p + 1, 3);
                }
                return Err(err.message());
            },
        };
        let ghost before = overall@;
        overall.append("\nPlayer #");
        overall.append(player_number(p));
        overall.append(" :\nTop: ");
        let top_text = top.describe();
        overall.append(top_text.as_str());
        overall.append("\nMiddle: ");
        let middle_text = middle.describe();
        overall.append(middle_text.as_str());
        overall.append("\nBottom: ");
        let bottom_text = bottom.describe();
        overall.append(bottom_text.as_str());
        overall.append("\n---");
        proof {
            assert(overall@ =~= before + spec_player_block(p as int, top, middle, bottom));
        }
        p = p + 1;
    }
    Ok(overall)
}

} // verus!
