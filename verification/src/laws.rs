use vstd::prelude::*;

use crate::card::CardView;
use crate::display::removed_count;
use crate::display::card_class_names;
use crate::session::{
    favorites_name, fisher_yates, rolls_within, shipped_decks, shuffle_rolls_fit, shuffle_steps,
    swap_at, AnimationState, AppView, Msg,
};

verus! {

broadcast use {vstd::multiset::group_multiset_axioms, vstd::seq_lib::group_to_multiset_ensures};

/// Removing a value that occurs takes one copy of it out.
pub proof fn lemma_remove_value_keeps_rest<A>(s: Seq<A>, x: A)
    requires
        s.contains(x),
    ensures
        s.remove_value(x).len() == s.len() - 1,
        s.remove_value(x).to_multiset() == s.to_multiset().remove(x),
{
    s.index_of_first_ensures(x);
    let i = s.index_of_first(x).unwrap();
    assert(s.remove_value(x) == s.remove(i));
}

/// When a deck holds the pile's cards, taking the pile's card at `ci` out of
/// both keeps them so.
pub proof fn lemma_mirror_removal(deck: Seq<CardView>, pile: Seq<CardView>, ci: int)
    requires
        deck.to_multiset() == pile.to_multiset(),
        0 <= ci < pile.len(),
    ensures
        deck.contains(pile[ci]),
        deck.remove_value(pile[ci]).len() == deck.len() - 1,
        deck.remove_value(pile[ci]).to_multiset() == pile.remove(ci).to_multiset(),
{
    assert(pile.contains(pile[ci]));
    assert(deck.to_multiset().count(pile[ci]) > 0);
    lemma_remove_value_keeps_rest(deck, pile[ci]);
}

/// When a deck holds the pile's cards, putting the same card back into both
/// keeps them so.
pub proof fn lemma_mirror_requeue(deck: Seq<CardView>, pile: Seq<CardView>, idx: int, c: CardView)
    requires
        deck.to_multiset() == pile.to_multiset(),
        deck.len() == pile.len(),
        0 <= idx <= pile.len(),
    ensures
        deck.insert(idx, c).to_multiset() == pile.insert(idx, c).to_multiset(),
        deck.push(c).to_multiset() == pile.push(c).to_multiset(),
{
}

/// Exchanging two cards keeps the cards of the pile.
pub proof fn lemma_swap_keeps_cards<A>(s: Seq<A>, i: int, j: int)
    requires
        0 <= i < s.len(),
        0 <= j < s.len(),
    ensures
        swap_at(s, i, j).len() == s.len(),
        swap_at(s, i, j).to_multiset() == s.to_multiset(),
{
    if i == j {
        assert(swap_at(s, i, j) =~= s);
    } else {
        let t = s.update(i, s[j]);
        assert(t =~= s.remove(i).insert(i, s[j]));
        let u = t.update(j, s[i]);
        assert(u =~= t.remove(j).insert(j, s[i]));
        assert(s.to_multiset().count(s[i]) > 0) by {
            assert(s.contains(s[i]));
        }
        assert(u.to_multiset() =~= s.to_multiset());
    }
}

/// Every prefix of the Fisher–Yates shuffle keeps the cards of the pile.
pub proof fn lemma_fisher_yates_keeps_cards<A>(s: Seq<A>, rolls: Seq<usize>, k: nat)
    requires
        k < s.len() || k == 0,
        forall|m: int| 0 <= m < k ==> #[trigger] rolls[m] <= s.len() - 1 - m,
    ensures
        fisher_yates(s, rolls, k).len() == s.len(),
        fisher_yates(s, rolls, k).to_multiset() == s.to_multiset(),
    decreases k,
{
    if k > 0 {
        lemma_fisher_yates_keeps_cards(s, rolls, (k - 1) as nat);
        let m = k - 1;
        assert(rolls[m] <= s.len() - 1 - m);
        lemma_swap_keeps_cards(
            fisher_yates(s, rolls, (k - 1) as nat),
            s.len() - k,
            rolls[k - 1] as int,
        );
    }
}

/// Shuffling rearranges the pile and nothing else: the pile holds the same
/// cards as many times each, the top card is the first, and the decks, the
/// deck studied and the counter base stay as they were.
pub proof fn law_shuffle_permutes_pile(s: AppView, rolls: Seq<usize>)
    requires
        s.inv(),
        s.anim_state == AnimationState::Shuffling,
        shuffle_rolls_fit(s.cards.len() as int, rolls),
    ensures
        ({
            let t = s.step(Msg::AnimDone, rolls).0;
            &&& t.cards.to_multiset() == s.cards.to_multiset()
            &&& t.cards.len() == s.cards.len()
            &&& t.current_index == 0
            &&& t.decks == s.decks
            &&& t.current_deck == s.current_deck
            &&& t.initial_count == s.initial_count
            &&& t.anim_state == AnimationState::Idle
        }),
{
    reveal(AppView::anim_done);
    lemma_fisher_yates_keeps_cards(s.cards, rolls, shuffle_steps(s.cards.len() as int));
}

/// Replacing a card keeps the pile's cards: the top card goes back into the
/// pile, and when other cards remain it is not the new top card, which is
/// the first of the others. Unless the pile is the "Favorites" deck's, the
/// stored deck keeps its cards too.
pub proof fn law_replace_requeues_card(s: AppView, rolls: Seq<usize>)
    requires
        s.inv(),
        s.anim_state == AnimationState::Replacing,
        s.rolls_fit(Msg::AnimDone, rolls),
    ensures
        ({
            let t = s.step(Msg::AnimDone, rolls).0;
            &&& t.cards.to_multiset() == s.cards.to_multiset()
            &&& t.cards.len() == s.cards.len()
            &&& t.current_index == 0
            &&& s.cards.len() >= 2 ==> t.cards[0] == s.cards.remove(s.current_index)[0]
            &&& t.decks.dom() == s.decks.dom()
            &&& s.current_deck != favorites_name() ==> t.decks[s.current_deck].to_multiset()
                == s.decks[s.current_deck].to_multiset()
        }),
{
    reveal(AppView::anim_done);
    let t = s.step(Msg::AnimDone, rolls).0;
    law_step_keeps_invariant(s, Msg::AnimDone, rolls);
    if s.cards.len() > 0 {
        let ci = s.current_index;
        let rest = s.cards.remove(ci);
        if rest.len() == 0 {
            assert(rest.push(s.cards[ci]).to_multiset() =~= s.cards.to_multiset());
        } else {
            assert(rest.insert(rolls[0] as int, s.cards[ci]).to_multiset() =~= s.cards.to_multiset());
        }
        assert(t.decks.dom() =~= s.decks.dom());
    }
}

/// Removing a card takes exactly the top card out of the pile, and, unless
/// the pile is the "Favorites" deck's, one copy of that same card out of the
/// stored deck.
pub proof fn law_remove_takes_top_card(s: AppView)
    requires
        s.inv(),
        s.anim_state == AnimationState::Removing,
        s.cards.len() > 0,
    ensures
        ({
            let t = s.step(Msg::AnimDone, Seq::empty()).0;
            &&& t.cards == s.cards.remove(s.current_index)
            &&& t.cards.to_multiset() == s.cards.to_multiset().remove(s.cards[s.current_index])
            &&& s.current_deck != favorites_name() ==> t.decks == s.decks.insert(
                s.current_deck,
                s.decks[s.current_deck].remove_value(s.cards[s.current_index]),
            )
            &&& s.current_deck != favorites_name() ==> t.decks[s.current_deck].to_multiset()
                == s.decks[s.current_deck].to_multiset().remove(s.cards[s.current_index])
            &&& t.initial_count == s.initial_count
        }),
{
    reveal(AppView::anim_done);
    if s.current_deck != favorites_name() {
        lemma_mirror_removal(s.decks[s.current_deck], s.cards, s.current_index);
        lemma_remove_value_keeps_rest(s.decks[s.current_deck], s.cards[s.current_index]);
    }
}

/// The counter adds up: the cards left and the cards removed make the deck
/// as it was chosen.
pub proof fn law_counts_add_up(s: AppView)
    requires
        s.inv(),
    ensures
        s.cards.len() + removed_count(s) == s.initial_count,
{
}

/// While an animation plays, flipping, starting another animation and
/// choosing a deck are refused: nothing changes and nothing is redrawn.
pub proof fn law_busy_session_refuses(s: AppView, msg: Msg, rolls: Seq<usize>)
    requires
        s.anim_state != AnimationState::Idle,
        msg is Flip || msg is StartRemove || msg is StartReplace || msg is StartShuffle
            || msg is SelectDeck,
    ensures
        s.step(msg, rolls) == (s, false),
{
}

/// The end of an animation always leaves the session idle with the top card
/// face up, and asks for a redraw.
pub proof fn law_anim_done_settles(s: AppView, rolls: Seq<usize>)
    ensures
        s.step(Msg::AnimDone, rolls).0.anim_state == AnimationState::Idle,
        !s.step(Msg::AnimDone, rolls).0.show_back,
        s.step(Msg::AnimDone, rolls).1,
{
    reveal(AppView::anim_done);
}

/// Flipping an idle card twice shows the side it showed before.
pub proof fn law_flip_twice(s: AppView)
    requires
        s.anim_state == AnimationState::Idle,
    ensures
        s.step(Msg::Flip, Seq::empty()).0.step(Msg::Flip, Seq::empty()).0 == s,
        s.step(Msg::Flip, Seq::empty()).1,
{
}

/// Choosing an existing deck while idle studies a fresh copy of it: its
/// cards from the first, face up, the counter restarted, and the decks
/// untouched.
pub proof fn law_select_loads_copy(s: AppView, name: String, rolls: Seq<usize>)
    requires
        s.anim_state == AnimationState::Idle,
        s.decks.contains_key(name@),
    ensures
        ({
            let (t, redraw) = s.step(Msg::SelectDeck(name), rolls);
            &&& redraw
            &&& t.current_deck == name@
            &&& t.cards == s.decks[name@]
            &&& t.current_index == 0
            &&& !t.show_back
            &&& t.initial_count == s.decks[name@].len()
            &&& t.decks == s.decks
        }),
{
}

/// Choosing a deck that does not exist is refused.
pub proof fn law_select_unknown_refused(s: AppView, name: String, rolls: Seq<usize>)
    requires
        !s.decks.contains_key(name@),
    ensures
        s.step(Msg::SelectDeck(name), rolls) == (s, false),
{
}

/// The set of deck names never changes.
pub proof fn law_deck_names_fixed(s: AppView, msg: Msg, rolls: Seq<usize>)
    requires
        s.inv(),
        s.rolls_fit(msg, rolls),
    ensures
        s.step(msg, rolls).0.decks.dom() == s.decks.dom(),
{
    reveal(AppView::anim_done);
    assert(s.step(msg, rolls).0.decks.dom() =~= s.decks.dom());
}

/// Studying the "Favorites" deck never changes the stored decks.
pub proof fn law_favorites_untouched(s: AppView, msg: Msg, rolls: Seq<usize>)
    requires
        s.current_deck == favorites_name(),
    ensures
        s.step(msg, rolls).0.decks == s.decks,
{
    reveal(AppView::anim_done);
}

/// Setting a display toggle changes that toggle only, and asks for a redraw.
pub proof fn law_toggle_changes_only_display(s: AppView, v: bool, rolls: Seq<usize>)
    ensures
        s.step(Msg::TogglePinyin(v), rolls) == (AppView { show_pinyin: v, ..s }, true),
        s.step(Msg::ToggleEnglish(v), rolls) == (AppView { show_english: v, ..s }, true),
        s.step(Msg::ToggleExamples(v), rolls) == (AppView { show_examples: v, ..s }, true),
        s.step(Msg::ToggleExamplesPinyin(v), rolls) == (
        AppView { show_examples_pinyin: v, ..s },
        true,
        ),
        s.step(Msg::ToggleExamplesEnglish(v), rolls) == (
        AppView { show_examples_english: v, ..s },
        true,
        ),
        s.step(Msg::ToggleRadicals(v), rolls) == (AppView { show_radicals: v, ..s }, true),
{
}

/// Keyboard focus is taken at most once: no step changes whether focus was
/// taken, and once it was, no later render asks for it.
pub proof fn law_focus_taken_at_most_once(
    s: AppView,
    msg: Msg,
    rolls: Seq<usize>,
    first_render: bool,
)
    ensures
        s.step(msg, rolls).0.focus_set == s.focus_set,
        !(AppView { focus_set: true, ..s }).asks_focus(first_render),
{
    reveal(AppView::anim_done);
}

proof fn lemma_finish_remove_keeps_invariant(s: AppView)
    requires
        s.inv(),
    ensures
        s.finish_remove().inv(),
{
    if s.cards.len() > 1 {
        let n = (s.cards.len() - 1) as int;
        vstd::arithmetic::div_mod::lemma_mod_bound(s.current_index, n);
    }
    if s.cards.len() > 0 && s.current_deck != favorites_name() {
        lemma_mirror_removal(s.decks[s.current_deck], s.cards, s.current_index);
    }
}

proof fn lemma_finish_replace_keeps_invariant(s: AppView, rolls: Seq<usize>)
    requires
        s.inv(),
        s.cards.len() >= 2 ==> {
            &&& rolls.len() >= 1
            &&& 1 <= rolls[0] <= s.cards.len() - 1
        },
    ensures
        s.finish_replace(rolls).inv(),
{
    if s.cards.len() > 0 && s.current_deck != favorites_name() {
        let ci = s.current_index;
        lemma_mirror_removal(s.decks[s.current_deck], s.cards, ci);
        let deck1 = s.decks[s.current_deck].remove_value(s.cards[ci]);
        let pile1 = s.cards.remove(ci);
        if pile1.len() > 0 {
            lemma_mirror_requeue(deck1, pile1, rolls[0] as int, s.cards[ci]);
        } else {
            lemma_mirror_requeue(deck1, pile1, 0, s.cards[ci]);
        }
    }
}

/// Every step keeps the session's invariant; in particular, while the deck
/// studied is not "Favorites", its stored copy holds exactly the pile's
/// cards, as many times each.
pub proof fn law_step_keeps_invariant(s: AppView, msg: Msg, rolls: Seq<usize>)
    requires
        s.inv(),
        s.rolls_fit(msg, rolls),
    ensures
        s.step(msg, rolls).0.inv(),
{
    reveal(AppView::anim_done);
    if msg is AnimDone {
        match s.anim_state {
            AnimationState::Shuffling => {
                lemma_fisher_yates_keeps_cards(
                    s.cards,
                    rolls,
                    shuffle_steps(s.cards.len() as int),
                );
            },
            AnimationState::Removing => lemma_finish_remove_keeps_invariant(s),
            AnimationState::Replacing => lemma_finish_replace_keeps_invariant(s, rolls),
            AnimationState::Idle => {},
        }
    }
}

/// Draws that name each step's own position leave the pile as it was.
proof fn lemma_fisher_yates_stay<A>(s: Seq<A>, rolls: Seq<usize>, k: nat)
    requires
        k < s.len() || k == 0,
        forall|m: int| 0 <= m < k ==> #[trigger] rolls[m] == s.len() - 1 - m,
    ensures
        fisher_yates(s, rolls, k) == s,
    decreases k,
{
    if k > 0 {
        lemma_fisher_yates_stay(s, rolls, (k - 1) as nat);
        let m = k - 1;
        assert(rolls[m] == s.len() - 1 - m);
        assert(swap_at(s, s.len() - k, rolls[k - 1] as int) =~= s);
    }
}

/// A shuffle of `n >= 2` cards draws `n - 1` times, step `m` from the whole
/// range `0..=n - 1 - m`; so any card may stay in place, and in particular the
/// draws exist under which the shuffle leaves the pile in its order.
pub proof fn law_shuffle_draws_whole_ranges(s: AppView)
    requires
        s.inv(),
        s.anim_state == AnimationState::Shuffling,
        s.cards.len() >= 2,
    ensures
        s.draw_ranges(Msg::AnimDone).len() == s.cards.len() - 1,
        forall|m: int|
            0 <= m < s.cards.len() - 1 ==> #[trigger] s.draw_ranges(Msg::AnimDone)[m] == (
                0usize,
                (s.cards.len() - 1 - m) as usize,
            ),
        ({
            let n = s.cards.len();
            let rolls = Seq::new((n - 1) as nat, |m: int| (n - 1 - m) as usize);
            &&& rolls_within(rolls, s.draw_ranges(Msg::AnimDone))
            &&& s.step(Msg::AnimDone, rolls).0.cards == s.cards
        }),
{
    reveal(AppView::anim_done);
    let n = s.cards.len();
    let rolls = Seq::new((n - 1) as nat, |m: int| (n - 1 - m) as usize);
    lemma_fisher_yates_stay(s.cards, rolls, (n - 1) as nat);
}

/// A replacement among `n >= 2` cards draws once, from `1..=n - 1`: the card
/// may go back to every position after the next card, and goes there in
/// both the pile and, unless it is the "Favorites" deck's, the stored deck.
pub proof fn law_replace_reaches_every_position(s: AppView, p: int)
    requires
        s.inv(),
        s.anim_state == AnimationState::Replacing,
        s.cards.len() >= 2,
        1 <= p <= s.cards.len() - 1,
    ensures
        s.draw_ranges(Msg::AnimDone) == seq![(1usize, (s.cards.len() - 1) as usize)],
        ({
            let rolls = seq![p as usize];
            let card = s.cards[s.current_index];
            let t = s.step(Msg::AnimDone, rolls).0;
            &&& rolls_within(rolls, s.draw_ranges(Msg::AnimDone))
            &&& t.cards == s.cards.remove(s.current_index).insert(p, card)
            &&& s.current_deck != favorites_name() ==> t.decks[s.current_deck]
                == s.decks[s.current_deck].remove_value(card).insert(p, card)
        }),
{
    reveal(AppView::anim_done);
}

/// Starting an animation from an idle session: removing and replacing turn
/// the card face up, shuffling leaves its side; the pile, the decks and the
/// deck studied stay as they were, and a redraw is asked for.
pub proof fn law_start_animation(s: AppView, rolls: Seq<usize>)
    requires
        s.anim_state == AnimationState::Idle,
    ensures
        ({
            let (t, r) = s.step(Msg::StartRemove, rolls);
            &&& r
            &&& t.anim_state == AnimationState::Removing
            &&& !t.show_back
            &&& t.cards == s.cards && t.decks == s.decks && t.current_deck == s.current_deck
        }),
        ({
            let (t, r) = s.step(Msg::StartReplace, rolls);
            &&& r
            &&& t.anim_state == AnimationState::Replacing
            &&& !t.show_back
            &&& t.cards == s.cards && t.decks == s.decks && t.current_deck == s.current_deck
        }),
        ({
            let (t, r) = s.step(Msg::StartShuffle, rolls);
            &&& r
            &&& t.anim_state == AnimationState::Shuffling
            &&& t.show_back == s.show_back
            &&& t.cards == s.cards && t.decks == s.decks && t.current_deck == s.current_deck
        }),
{
}

/// The top card's classes: `card-inner` first, `flipped` exactly when it
/// shows its back, and the class of the running animation exactly when that
/// animation plays, whichever side the card shows.
pub proof fn law_card_classes(show_back: bool, anim: AnimationState)
    ensures
        card_class_names(show_back, anim)[0] == "card-inner"@,
        card_class_names(show_back, anim).contains("flipped"@) <==> show_back,
        card_class_names(show_back, anim).contains("removing"@) <==> anim
            == AnimationState::Removing,
        card_class_names(show_back, anim).contains("replacing"@) <==> anim
            == AnimationState::Replacing,
        card_class_names(show_back, anim).contains("shuffling"@) <==> anim
            == AnimationState::Shuffling,
{
    reveal_strlit("card-inner");
    reveal_strlit("flipped");
    reveal_strlit("removing");
    reveal_strlit("replacing");
    reveal_strlit("shuffling");
    let c = card_class_names(show_back, anim);
    assert("card-inner"@.len() == 10 && "flipped"@.len() == 7 && "removing"@.len() == 8
        && "replacing"@.len() == 9 && "shuffling"@.len() == 9);
    assert("replacing"@[0] != "shuffling"@[0]);
    assert("card-inner"@ != "flipped"@);
    assert("card-inner"@ != "removing"@ && "card-inner"@ != "replacing"@ && "card-inner"@
        != "shuffling"@);
    assert("flipped"@ != "removing"@ && "flipped"@ != "replacing"@ && "flipped"@ != "shuffling"@);
    assert("removing"@ != "replacing"@ && "removing"@ != "shuffling"@ && "replacing"@
        != "shuffling"@);
    if show_back {
        assert(c[1] == "flipped"@);
    }
    if anim == AnimationState::Removing {
        assert(c[c.len() - 1] == "removing"@);
    }
    if anim == AnimationState::Replacing {
        assert(c[c.len() - 1] == "replacing"@);
    }
    if anim == AnimationState::Shuffling {
        assert(c[c.len() - 1] == "shuffling"@);
    }
}

/// The shipped decks hold each deck argument under its own name, and no other
/// name.
pub proof fn law_shipped_decks_by_name(
    hsk1: Seq<CardView>,
    hsk2: Seq<CardView>,
    hsk3: Seq<CardView>,
    hsk4: Seq<CardView>,
    in_class: Seq<CardView>,
    collection: Seq<CardView>,
)
    ensures
        ({
            let d = shipped_decks(hsk1, hsk2, hsk3, hsk4, in_class, collection);
            &&& d["HSK1"@] == hsk1
            &&& d["HSK2 (INCMPLT)"@] == hsk2
            &&& d["HSK3 (INCMPLT)"@] == hsk3
            &&& d["HSK4 (INCMPLT)"@] == hsk4
            &&& d["In Class"@] == in_class
            &&& d["Collection"@] == collection
            &&& d.dom() == set![
                "HSK1"@,
                "HSK2 (INCMPLT)"@,
                "HSK3 (INCMPLT)"@,
                "HSK4 (INCMPLT)"@,
                "In Class"@,
                "Collection"@,
            ]
        }),
{
    reveal_strlit("HSK1");
    reveal_strlit("HSK2 (INCMPLT)");
    reveal_strlit("HSK3 (INCMPLT)");
    reveal_strlit("HSK4 (INCMPLT)");
    reveal_strlit("In Class");
    reveal_strlit("Collection");
    let d = shipped_decks(hsk1, hsk2, hsk3, hsk4, in_class, collection);
    assert("HSK1"@.len() == 4 && "HSK2 (INCMPLT)"@.len() == 14 && "HSK3 (INCMPLT)"@.len() == 14
        && "HSK4 (INCMPLT)"@.len() == 14 && "In Class"@.len() == 8 && "Collection"@.len() == 10);
    assert("HSK1"@ != "HSK2 (INCMPLT)"@ && "HSK1"@ != "HSK3 (INCMPLT)"@ && "HSK1"@
        != "HSK4 (INCMPLT)"@ && "HSK1"@ != "In Class"@ && "HSK1"@ != "Collection"@);
    assert("HSK2 (INCMPLT)"@[3] != "HSK3 (INCMPLT)"@[3] && "HSK2 (INCMPLT)"@[3]
        != "HSK4 (INCMPLT)"@[3] && "HSK3 (INCMPLT)"@[3] != "HSK4 (INCMPLT)"@[3]);
    assert("HSK2 (INCMPLT)"@ != "In Class"@ && "HSK2 (INCMPLT)"@ != "Collection"@);
    assert("HSK3 (INCMPLT)"@ != "In Class"@ && "HSK3 (INCMPLT)"@ != "Collection"@);
    assert("HSK4 (INCMPLT)"@ != "In Class"@ && "HSK4 (INCMPLT)"@ != "Collection"@);
    assert("In Class"@ != "Collection"@);
    assert(d.dom() =~= set![
        "HSK1"@,
        "HSK2 (INCMPLT)"@,
        "HSK3 (INCMPLT)"@,
        "HSK4 (INCMPLT)"@,
        "In Class"@,
        "Collection"@,
    ]);
}

} // verus!
