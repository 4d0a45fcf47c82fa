use vstd::prelude::*;

use crate::card::{cards_view, Card};
use crate::decks::{strictly_sorted, strings_view};
use crate::session::{AnimationState, App, AppView, Msg};
use crate::laws::law_card_classes;
use crate::text::text_eq;

verus! {

/// The message a key press stands for: arrows left and right remove and
/// re-queue the card, space and arrows up and down flip it, `s` shuffles, and
/// any other key ends the running animation.
pub open spec fn key_msg(key: Seq<char>) -> Msg {
    if key == "ArrowLeft"@ {
        Msg::StartRemove
    } else if key == "ArrowRight"@ {
        Msg::StartReplace
    } else if key == " "@ || key == "Spacebar"@ || key == "ArrowUp"@ || key == "ArrowDown"@ {
        Msg::Flip
    } else if key == "s"@ || key == "S"@ {
        Msg::StartShuffle
    } else {
        Msg::AnimDone
    }
}

/// The message for the key named `key`.
pub fn msg_for_key(key: &str) -> (m: Msg)
    ensures
        m == key_msg(key@),
{
    if text_eq(key, "ArrowLeft") {
        Msg::StartRemove
    } else if text_eq(key, "ArrowRight") {
        Msg::StartReplace
    } else if text_eq(key, " ") || text_eq(key, "Spacebar") || text_eq(key, "ArrowUp") || text_eq(
        key,
        "ArrowDown",
    ) {
        Msg::Flip
    } else if text_eq(key, "s") || text_eq(key, "S") {
        Msg::StartShuffle
    } else {
        Msg::AnimDone
    }
}

/// The font size of a headword of `n` characters on the front of a card.
pub open spec fn front_size(n: int) -> Seq<char> {
    if n == 1 || n == 2 {
        "10em"@
    } else if n == 3 {
        "9em"@
    } else if n == 4 {
        "7em"@
    } else if n == 5 {
        "5em"@
    } else {
        "4em"@
    }
}

/// The font size of a headword of `n` characters on the back of a card.
pub open spec fn back_size(n: int) -> Seq<char> {
    if n >= 4 {
        "1.7em"@
    } else if n == 3 {
        "2.1em"@
    } else {
        "2.8em"@
    }
}

/// The font size of a headword of `char_len` characters on the front of a card.
pub fn front_font_size(char_len: usize) -> (r: &'static str)
    ensures
        r@ == front_size(char_len as int),
{
    match char_len {
        1 => "10em",
        2 => "10em",
        3 => "9em",
        4 => "7em",
        5 => "5em",
        _ => "4em",
    }
}

/// The font size of a headword of `char_len` characters on the back of a card.
pub fn back_font_size(char_len: usize) -> (r: &'static str)
    ensures
        r@ == back_size(char_len as int),
{
    if char_len >= 4 {
        "1.7em"
    } else if char_len == 3 {
        "2.1em"
    } else {
        "2.8em"
    }
}

/// The style classes of the top card: always `card-inner`, then `flipped`
/// when it shows its back, then the class of the animation playing.
pub open spec fn card_class_names(show_back: bool, anim: AnimationState) -> Seq<Seq<char>> {
    let base = if show_back {
        seq!["card-inner"@, "flipped"@]
    } else {
        seq!["card-inner"@]
    };
    match anim {
        AnimationState::Removing => base.push("removing"@),
        AnimationState::Replacing => base.push("replacing"@),
        AnimationState::Shuffling => base.push("shuffling"@),
        AnimationState::Idle => base,
    }
}

/// The character sequences of a sequence of string slices.
pub open spec fn strs_view(s: Seq<&'static str>) -> Seq<Seq<char>> {
    s.map_values(|x: &'static str| x@)
}

/// The number of cards removed since the deck was chosen: the size of the
/// pile then less its size now, never below zero.
pub open spec fn removed_count(s: AppView) -> int {
    if s.initial_count >= s.cards.len() {
        s.initial_count - s.cards.len()
    } else {
        0
    }
}

/// Which parts of a card's back are drawn.
#[derive(Debug, PartialEq, Eq, Structural, Clone, Copy)]
pub struct BackFace {
    /// The reading beside the headword.
    pub pinyin: bool,
    /// The meaning.
    pub english: bool,
    /// The example sentences.
    pub examples: bool,
    /// The reading under each example sentence.
    pub examples_pinyin: bool,
    /// The translation under each example sentence.
    pub examples_english: bool,
    /// The radicals in the corner.
    pub radicals: bool,
}

/// The names of deck-chooser entries.
pub open spec fn option_names(s: Seq<(String, bool)>) -> Seq<Seq<char>> {
    s.map_values(|o: (String, bool)| o.0@)
}

impl App {
    /// The deck names for the deck chooser, in increasing order, each with
    /// whether it is the deck being studied.
    pub fn deck_options(&self) -> (res: Vec<(String, bool)>)
        requires
            self.well_formed(),
        ensures
            strictly_sorted(option_names(res@)),
            forall|k: Seq<char>|
                self@.decks.contains_key(k) <==> #[trigger] option_names(res@).contains(k),
            forall|i: int|
                0 <= i < res@.len() ==> #[trigger] res@[i].1 == (res@[i].0@
                    == self@.current_deck),
    {
        let names = self.decks().sorted_names();
        let ghost nv = strings_view(names@);
        let mut res: Vec<(String, bool)> = Vec::new();
        let mut i: usize = 0;
        while i < names.len()
            invariant
                nv == strings_view(names@),
                i <= names@.len(),
                res@.len() == i,
                forall|j: int| 0 <= j < i ==> #[trigger] res@[j].0@ == nv[j],
                forall|j: int|
                    0 <= j < i ==> #[trigger] res@[j].1 == (res@[j].0@ == self@.current_deck),
            decreases names@.len() - i,
        {
            let selected = text_eq(names[i].as_str(), self.current_deck().as_str());
            res.push((names[i].clone(), selected));
            i = i + 1;
        }
        assert(option_names(res@) =~= nv);
        res
    }

    /// The number of cards left in the pile.
    pub fn remaining(&self) -> (n: usize)
        ensures
            n == self@.cards.len(),
    {
        self.cards().len()
    }

    /// The number of cards removed since the deck was chosen (never below zero).
    pub fn removed(&self) -> (n: usize)
        ensures
            n == removed_count(self@),
    {
        self.initial_count().saturating_sub(self.remaining())
    }

    /// The card `k` places after the top card, counting round the pile (the
    /// top card itself for `k == 0`), if the pile holds more than `k` cards.
    pub fn pile_card(&self, k: usize) -> (res: Option<&Card>)
        requires
            self.well_formed(),
        ensures
            match res {
                Some(c) => k < self@.cards.len() && c@ == self@.cards[(self@.current_index + k)
                    % (self@.cards.len() as int)],
                None => k >= self@.cards.len(),
            },
    {
        proof {
            self.lemma_inv();
        }
        let cards = self.cards();
        let len = cards.len();
        if k < len {
            let ci = self.current_index();
            let d = len - ci;
            let pos = if k < d {
                ci + k
            } else {
                k - d
            };
            proof {
                let n = len as int;
                let t = ci + k;
                if k < d {
                    vstd::arithmetic::div_mod::lemma_small_mod(t as nat, n as nat);
                } else {
                    vstd::arithmetic::div_mod::lemma_mod_add_multiples_vanish(t - n, n);
                    assert(n + (t - n) == t);
                    vstd::arithmetic::div_mod::lemma_small_mod((t - n) as nat, n as nat);
                }
            }
            assert(cards@[pos as int]@ == cards_view(cards@)[pos as int]);
            Some(&cards[pos])
        } else {
            None
        }
    }

    /// The style classes of the top card.
    pub fn card_classes(&self) -> (res: Vec<&'static str>)
        ensures
            strs_view(res@) == card_class_names(self@.show_back, self@.anim_state),
            strs_view(res@)[0] == "card-inner"@,
            strs_view(res@).contains("flipped"@) <==> self@.show_back,
            strs_view(res@).contains("removing"@) <==> self@.anim_state
                == AnimationState::Removing,
            strs_view(res@).contains("replacing"@) <==> self@.anim_state
                == AnimationState::Replacing,
            strs_view(res@).contains("shuffling"@) <==> self@.anim_state
                == AnimationState::Shuffling,
    {
        proof {
            law_card_classes(self@.show_back, self@.anim_state);
        }
        let mut res: Vec<&'static str> = Vec::new();
        res.push("card-inner");
        if self.show_back() {
            res.push("flipped");
        }
        match self.anim_state() {
            AnimationState::Removing => res.push("removing"),
            AnimationState::Replacing => res.push("replacing"),
            AnimationState::Shuffling => res.push("shuffling"),
            AnimationState::Idle => {},
        }
        assert(strs_view(res@) =~= card_class_names(self@.show_back, self@.anim_state));
        res
    }

    /// Whether the remove and replace buttons are disabled: when the pile is
    /// empty or an animation plays.
    pub fn actions_disabled(&self) -> (res: bool)
        ensures
            res == (self@.cards.len() == 0 || self@.anim_state != AnimationState::Idle),
    {
        self.cards().is_empty() || self.anim_state() != AnimationState::Idle
    }

    /// Which parts of the back of `card` are drawn: each follows its toggle;
    /// the lines under example sentences are drawn only with the sentences;
    /// the radicals only when the card has some.
    pub fn back_face(&self, card: &Card) -> (res: BackFace)
        ensures
            res.pinyin == self@.show_pinyin,
            res.english == self@.show_english,
            res.examples == self@.show_examples,
            res.examples_pinyin == (self@.show_examples && self@.show_examples_pinyin),
            res.examples_english == (self@.show_examples && self@.show_examples_english),
            res.radicals == (self@.show_radicals && card@.radicals.len() > 0),
    {
        BackFace {
            pinyin: self.show_pinyin(),
            english: self.show_english(),
            examples: self.show_examples(),
            examples_pinyin: self.show_examples() && self.show_examples_pinyin(),
            examples_english: self.show_examples() && self.show_examples_english(),
            radicals: self.shows_radicals(card),
        }
    }

    /// Whether the back of `card` shows its radicals: when the radicals are
    /// switched on and the card has some.
    pub fn shows_radicals(&self, card: &Card) -> (res: bool)
        ensures
            res == (self@.show_radicals && card@.radicals.len() > 0),
    {
        self.show_radicals() && !card.radicals.is_empty()
    }
}

} // verus!
