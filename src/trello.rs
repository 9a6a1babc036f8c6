//! The board service: which boards are searched, which cards are claimed and
//! what ticket a claimed card becomes.

use vstd::prelude::*;
use crate::config::Trello;
use crate::services::{Service, Ticket};
use crate::text::{contains_text, texts};

verus! {

/// A board as the service lists it.
#[derive(Debug, Clone)]
pub struct Board {
    pub id: String,
    pub name: String,
}

/// A label on a card: the card's own instance, with its id.
#[derive(Debug, Clone)]
pub struct Label {
    pub id: String,
    pub name: String,
}

/// A card of a board's list.
#[derive(Debug, Clone)]
pub struct Card {
    pub id: String,
    pub name: String,
    pub url: String,
    pub labels: Vec<Label>,
}

/// Whether `board` is searched: no allow-list, or its name is on it.
pub open spec fn board_kept(trello: Trello, board: Board) -> bool {
    trello.limit_to_boards@.len() == 0 || texts(trello.limit_to_boards@).contains(board.name@)
}

/// Whether `board` is searched.
pub fn keep_board(trello: &Trello, board: &Board) -> (r: bool)
    ensures
        r == board_kept(*trello, *board),
{
    trello.limit_to_boards.len() == 0 || contains_text(&trello.limit_to_boards, &board.name)
}

/// The boards that are searched, in the order listed.
pub fn select_boards(trello: &Trello, boards: &Vec<Board>) -> (r: Vec<Board>)
    ensures
        r@ == boards@.filter(|b: Board| board_kept(*trello, b)),
{
    let mut r: Vec<Board> = Vec::new();
    let mut i: usize = 0;
    while i < boards.len()
        invariant
            i <= boards.len(),
            r@ == boards@.take(i as int).filter(|b: Board| board_kept(*trello, b)),
        decreases boards.len() - i,
    {
        proof {
            assert(boards@.take(i as int + 1).drop_last() =~= boards@.take(i as int));
            reveal(Seq::filter);
        }
        if keep_board(trello, &boards[i]) {
            let b = Board { id: boards[i].id.clone(), name: boards[i].name.clone() };
            r.push(b);
        }
        i = i + 1;
    }
    assert(boards@.take(boards.len() as int) =~= boards@);
    r
}

/// The first label of `labels` whose name is `name`.
pub open spec fn first_label(labels: Seq<Label>, name: Seq<char>) -> Option<Label>
    decreases labels.len(),
{
    if labels.len() == 0 {
        None
    } else if labels[0].name@ == name {
        Some(labels[0])
    } else {
        first_label(labels.drop_first(), name)
    }
}

/// The ticket that a card becomes once `label` is taken off it.
pub open spec fn card_ticket(card: Card, label: Label) -> Ticket {
    Ticket {
        id: card.id,
        label_id: label.id,
        title: card.name,
        subtitle: card.id,
        url: card.url,
        service: Service::Trello,
    }
}

/// The ticket that claiming `card` gives: the card carries the print label.
pub open spec fn card_candidate(trello: Trello, card: Card) -> Option<Ticket> {
    match first_label(card.labels@, trello.print_label@) {
        Some(label) => Some(card_ticket(card, label)),
        None => None,
    }
}

/// The tickets that claiming every card of `cards` gives, in card order.
pub open spec fn candidates(trello: Trello, cards: Seq<Card>) -> Seq<Ticket>
    decreases cards.len(),
{
    if cards.len() == 0 {
        seq![]
    } else {
        let rest = candidates(trello, cards.drop_last());
        match card_candidate(trello, cards.last()) {
            Some(t) => rest.push(t),
            None => rest,
        }
    }
}

/// The ticket that `card` becomes when it is claimed, or none where it does
/// not carry the print label. The label given back on a revert is the first
/// one of that name.
pub fn handle_card(card: &Card, trello: &Trello) -> (r: Option<Ticket>)
    ensures
        r == card_candidate(*trello, *card),
{
    let mut i: usize = 0;
    assert(card.labels@.skip(0) =~= card.labels@);
    while i < card.labels.len()
        invariant
            i <= card.labels.len(),
            first_label(card.labels@, trello.print_label@) == first_label(
                card.labels@.skip(i as int),
                trello.print_label@,
            ),
        decreases card.labels.len() - i,
    {
        assert(card.labels@.skip(i as int).drop_first() =~= card.labels@.skip(i as int + 1));
        if card.labels[i].name == trello.print_label {
            let label = &card.labels[i];
            return Some(
                Ticket {
                    id: card.id.clone(),
                    label_id: label.id.clone(),
                    title: card.name.clone(),
                    subtitle: card.id.clone(),
                    url: card.url.clone(),
                    service: Service::Trello,
                },
            );
        }
        i = i + 1;
    }
    None
}

/// Appends to `tickets` the ticket of every card that carries the print
/// label, in card order. These are the claims to make: a card's label is
/// taken off before its ticket joins a batch.
pub fn fetch_tickets(trello: &Trello, cards: &Vec<Card>, tickets: &mut Vec<Ticket>)
    ensures
        final(tickets)@ == old(tickets)@ + candidates(*trello, cards@),
{
    let mut i: usize = 0;
    while i < cards.len()
        invariant
            i <= cards.len(),
            tickets@ == old(tickets)@ + candidates(*trello, cards@.take(i as int)),
        decreases cards.len() - i,
    {
        assert(cards@.take(i as int + 1).drop_last() =~= cards@.take(i as int));
        match handle_card(&cards[i], trello) {
            Some(t) => {
                tickets.push(t);
                assert(tickets@ =~= old(tickets)@ + candidates(*trello, cards@.take(i as int + 1)));
            },
            None => {},
        }
        i = i + 1;
    }
    assert(cards@.take(cards.len() as int) =~= cards@);
}

/// The tickets of `tickets` whose label goes back on a board: those that the
/// board service gave, in their order.
pub fn revert_tickets(tickets: &Vec<Ticket>) -> (r: Vec<Ticket>)
    ensures
        r@ == crate::services::tickets_of(tickets@, Service::Trello),
{
    crate::services::select_service(tickets, Service::Trello)
}

/// At most one label of `card` is named `name`.
pub open spec fn label_name_unique(card: Card, name: Seq<char>) -> bool {
    forall|i: int, j: int|
        0 <= i < card.labels@.len() && 0 <= j < card.labels@.len() && (#[trigger] card.labels@[i]).name@
            == name && (#[trigger] card.labels@[j]).name@ == name ==> i == j
}

/// `after` is `before` as the service holds it once `before` was claimed:
/// the label instance named in its ticket is gone.
pub open spec fn claimed_card(trello: Trello, before: Card, after: Card) -> bool {
    match card_candidate(trello, before) {
        Some(t) => after.labels@ == before.labels@.filter(|l: Label| l.id@ != t.label_id@),
        None => false,
    }
}

/// The label that `first_label` finds is one of the labels, with that name;
/// where it finds none, no label has that name.
proof fn lemma_first_label(labels: Seq<Label>, name: Seq<char>)
    ensures
        first_label(labels, name) matches Some(l) ==> labels.contains(l) && l.name@ == name,
        first_label(labels, name) is None ==> forall|k: int|
            0 <= k < labels.len() ==> (#[trigger] labels[k]).name@ != name,
    decreases labels.len(),
{
    if labels.len() > 0 && labels[0].name@ != name {
        lemma_first_label(labels.drop_first(), name);
        if let Some(l) = first_label(labels, name) {
            let k = choose|k: int| 0 <= k < labels.drop_first().len() && labels.drop_first()[k] == l;
            assert(labels[k + 1] == l);
        } else {
            assert forall|k: int| 0 <= k < labels.len() implies (#[trigger] labels[k]).name@ != name by {
                if k > 0 {
                    assert(labels[k] == labels.drop_first()[k - 1]);
                }
            }
        }
    } else if labels.len() > 0 {
        assert(labels[0] == labels[0]);
    }
}

/// A card whose claim went through is not claimed again: once its print
/// label is gone, listing it finds nothing to claim.
pub proof fn lemma_claimed_card_not_found_again(trello: Trello, before: Card, after: Card)
    requires
        label_name_unique(before, trello.print_label@),
        claimed_card(trello, before, after),
    ensures
        card_candidate(trello, after) is None,
{
    let name = trello.print_label@;
    lemma_first_label(before.labels@, name);
    lemma_first_label(after.labels@, name);
    let gone = first_label(before.labels@, name)->0;
    let pred = |l: Label| l.id@ != gone.id@;
    if let Some(l) = first_label(after.labels@, name) {
        before.labels@.lemma_filter_contains_rev(pred, l);
        let i = choose|i: int| 0 <= i < before.labels@.len() && before.labels@[i] == l;
        let j = choose|j: int| 0 <= j < before.labels@.len() && before.labels@[j] == gone;
        assert(i == j);
        let k = choose|k: int| 0 <= k < after.labels@.len() && after.labels@[k] == l;
        broadcast use vstd::seq_lib::group_filter_ensures;

        assert(pred(after.labels@[k]));
    }
}

/// Listing the cards again after every claim of a listing went through finds
/// nothing to claim: the second run and the first share no ticket.
pub proof fn lemma_second_listing_empty(trello: Trello, before: Seq<Card>, after: Seq<Card>)
    requires
        before.len() == after.len(),
        forall|i: int|
            0 <= i < before.len() ==> label_name_unique(#[trigger] before[i], trello.print_label@),
        forall|i: int|
            0 <= i < before.len() ==> (card_candidate(trello, #[trigger] before[i]) is None
                && after[i] == before[i]) || claimed_card(trello, before[i], after[i]),
    ensures
        candidates(trello, after).len() == 0,
    decreases after.len(),
{
    if after.len() > 0 {
        let n = after.len() - 1;
        lemma_second_listing_empty(trello, before.drop_last(), after.drop_last());
        if claimed_card(trello, before[n], after[n]) {
            lemma_claimed_card_not_found_again(trello, before[n], after[n]);
        }
    }
}

} // verus!
