//! The seeded draw: in which order a session takes the cards of a deck.

use crate::question::{question_views, Question, QuestionView};
use rand::rngs::StdRng;
use rand::seq::SliceRandom;
use rand::SeedableRng;
use vstd::prelude::*;

verus! {

/// The order in which `rand` leaves `items` after `SliceRandom::shuffle`
/// with a `StdRng` that was seeded with `seed` by `seed_from_u64`.
pub uninterp spec fn seeded_shuffle(items: Seq<usize>, seed: u64) -> Seq<usize>;

/// Seeds a `rand::rngs::StdRng` with `rand::SeedableRng::seed_from_u64` and
/// shuffles `items` in place with `rand::seq::SliceRandom::shuffle`.
///
/// The generator is made here from the seed alone and the shuffle only swaps
/// elements, so the contract claims two things: the outcome is a function of
/// the items and the seed, and it holds the same items as before.
#[verifier::external_body]
fn shuffle_seeded(items: &mut Vec<usize>, seed: u64)
    ensures
        final(items)@ == seeded_shuffle(old(items)@, seed),
        final(items)@.to_multiset() == old(items)@.to_multiset(),
{
    let mut rng = StdRng::seed_from_u64(seed);
    items.shuffle(&mut rng);
}

/// The positions `0, 1, .., n - 1` in rising order.
pub open spec fn positions(n: nat) -> Seq<usize> {
    Seq::new(n, |i: int| i as usize)
}

/// The order in which a deck of `n` cards is taken under `seed`.
pub open spec fn draw_order(n: nat, seed: u64) -> Seq<usize> {
    seeded_shuffle(positions(n), seed)
}

/// Whether `order` names each of the positions below `n` exactly once.
pub open spec fn is_permutation(order: Seq<usize>, n: nat) -> bool {
    &&& order.len() == n
    &&& order.no_duplicates()
    &&& forall|i: int| 0 <= i < order.len() ==> #[trigger] order[i] < n
    &&& forall|k: usize| k < n ==> #[trigger] order.contains(k)
}

/// The cards that a session takes: the first `count` of the deck in the
/// given order, or all of them where the deck has fewer.
pub open spec fn drawn(deck: Seq<QuestionView>, order: Seq<usize>, count: nat) -> Seq<
    QuestionView,
> {
    Seq::new(
        if count <= order.len() {
            count
        } else {
            order.len()
        },
        |i: int| deck[order[i] as int],
    )
}

proof fn lemma_same_items_is_permutation(order: Seq<usize>, n: nat)
    requires
        n <= usize::MAX,
        order.to_multiset() == positions(n).to_multiset(),
    ensures
        is_permutation(order, n),
{
    let base = positions(n);
    base.to_multiset_ensures();
    order.to_multiset_ensures();
    assert(base.no_duplicates());
    base.lemma_multiset_has_no_duplicates();
    order.lemma_multiset_has_no_duplicates_conv();
    assert forall|i: int| 0 <= i < order.len() implies #[trigger] order[i] < n by {
        assert(order.contains(order[i]));
        assert(base.to_multiset().count(order[i]) > 0);
        assert(base.contains(order[i]));
        let j = choose|j: int| 0 <= j < base.len() && base[j] == order[i];
    }
    assert forall|k: usize| k < n implies #[trigger] order.contains(k) by {
        assert(base[k as int] == k);
        assert(base.contains(k));
        assert(order.to_multiset().count(k) > 0);
    }
}

/// The cards that a session takes are cards of the deck, each from its own
/// place, and as many as were asked for or as the deck has. A session that
/// takes as many cards as the deck has takes every card.
pub proof fn lemma_drawn_are_cards_of_the_deck(
    deck: Seq<QuestionView>,
    order: Seq<usize>,
    count: nat,
)
    requires
        deck.len() <= usize::MAX,
        is_permutation(order, deck.len()),
    ensures
        drawn(deck, order, count).len() == if count <= deck.len() {
            count
        } else {
            deck.len()
        },
        forall|i: int|
            0 <= i < drawn(deck, order, count).len() ==> order[i] < deck.len() && (
            #[trigger] drawn(deck, order, count)[i]) == deck[order[i] as int],
        forall|i: int, j: int|
            0 <= i < j < drawn(deck, order, count).len() ==> order[i] != order[j],
        count >= deck.len() ==> forall|k: int|
            0 <= k < deck.len() ==> drawn(deck, order, count).contains(#[trigger] deck[k]),
{
    let cards = drawn(deck, order, count);
    if count >= deck.len() {
        assert forall|k: int| 0 <= k < deck.len() implies cards.contains(#[trigger] deck[k]) by {
            assert(order.contains(k as usize));
            let i = choose|i: int| 0 <= i < order.len() && order[i] == k as usize;
            assert(cards[i] == deck[k]);
        }
    }
}

/// The order in which a deck of `n` cards is taken under `seed`: the same
/// seed always gives the same order, and every card has its place in it.
pub fn shuffled_positions(n: usize, seed: u64) -> (order: Vec<usize>)
    ensures
        order@ == draw_order(n as nat, seed),
        is_permutation(order@, n as nat),
{
    let mut order: Vec<usize> = Vec::new();
    let mut i: usize = 0;
    while i < n
        invariant
            i <= n,
            order@ == positions(i as nat),
        decreases n - i,
    {
        order.push(i);
        assert(order@ =~= positions((i + 1) as nat));
        i += 1;
    }
    shuffle_seeded(&mut order, seed);
    proof {
        lemma_same_items_is_permutation(order@, n as nat);
    }
    order
}

/// Takes the first `count` cards of `deck` in the given order, as copies.
pub fn draw(deck: &Vec<Question>, order: &Vec<usize>, count: usize) -> (r: Vec<Question>)
    requires
        forall|i: int| 0 <= i < order.len() ==> #[trigger] order[i] < deck.len(),
    ensures
        question_views(r@) == drawn(question_views(deck@), order@, count as nat),
{
    let take: usize = if count <= order.len() {
        count
    } else {
        order.len()
    };
    let mut out: Vec<Question> = Vec::new();
    let mut i: usize = 0;
    while i < take
        invariant
            i <= take <= order.len(),
            out@.len() == i,
            forall|k: int| 0 <= k < order.len() ==> #[trigger] order[k] < deck.len(),
            forall|j: int| 0 <= j < i ==> out@[j]@ == deck@[order@[j] as int]@,
        decreases take - i,
    {
        let at: usize = order[i];
        out.push(deck[at].clone());
        i += 1;
    }
    assert(question_views(out@) =~= drawn(question_views(deck@), order@, count as nat));
    out
}

} // verus!
