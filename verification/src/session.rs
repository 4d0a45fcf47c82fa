use vstd::prelude::*;

use crate::card::{cards_view, duplicate_cards, Card, CardView};
use crate::decks::DeckSet;
use crate::laws::{
    law_shipped_decks_by_name, lemma_fisher_yates_keeps_cards, lemma_mirror_removal,
    lemma_mirror_requeue,
};
use crate::random::{gen_range_inclusive, thread_rng};
use crate::text::text_eq;

verus! {

/// The animation the top card is playing; while one plays, the session
/// refuses new actions until it is told the animation ended.
#[derive(PartialEq, Eq, Structural, Clone, Copy, Debug)]
pub enum AnimationState {
    Idle,
    Removing,
    Replacing,
    Shuffling,
}

/// What the user (or the front end) asks of the session.
#[derive(Debug, PartialEq)]
pub enum Msg {
    Flip,
    StartRemove,
    StartReplace,
    StartShuffle,
    AnimDone,
    SelectDeck(String),
    TogglePinyin(bool),
    ToggleEnglish(bool),
    ToggleExamples(bool),
    ToggleExamplesPinyin(bool),
    ToggleExamplesEnglish(bool),
    ToggleRadicals(bool),
}

/// The abstract state of a study session.
pub struct AppView {
    pub decks: Map<Seq<char>, Seq<CardView>>,
    pub current_deck: Seq<char>,
    pub cards: Seq<CardView>,
    pub current_index: int,
    pub show_back: bool,
    pub anim_state: AnimationState,
    pub show_pinyin: bool,
    pub show_english: bool,
    pub show_examples: bool,
    pub show_examples_pinyin: bool,
    pub show_examples_english: bool,
    pub show_radicals: bool,
    pub initial_count: int,
    pub focus_set: bool,
}

/// The name of the deck whose pile is studied without touching the stored deck.
pub open spec fn favorites_name() -> Seq<char> {
    "Favorites"@
}

/// A session over `decks` studying the deck `current` from its first card,
/// face up, idle, with every toggle on.
pub open spec fn fresh_session(decks: Map<Seq<char>, Seq<CardView>>, current: Seq<char>) -> AppView {
    AppView {
        decks: decks,
        current_deck: current,
        cards: decks[current],
        current_index: 0,
        show_back: false,
        anim_state: AnimationState::Idle,
        show_pinyin: true,
        show_english: true,
        show_examples: true,
        show_examples_pinyin: true,
        show_examples_english: true,
        show_radicals: true,
        initial_count: decks[current].len() as int,
        focus_set: false,
    }
}

/// The decks the application ships with, under their names.
pub open spec fn shipped_decks(
    hsk1: Seq<CardView>,
    hsk2: Seq<CardView>,
    hsk3: Seq<CardView>,
    hsk4: Seq<CardView>,
    in_class: Seq<CardView>,
    collection: Seq<CardView>,
) -> Map<Seq<char>, Seq<CardView>> {
    Map::empty().insert("HSK1"@, hsk1).insert("HSK2 (INCMPLT)"@, hsk2).insert(
        "HSK3 (INCMPLT)"@,
        hsk3,
    ).insert("HSK4 (INCMPLT)"@, hsk4).insert("In Class"@, in_class).insert(
        "Collection"@,
        collection,
    )
}

/// Whether each draw lies in the range it was drawn from.
pub open spec fn rolls_within(rolls: Seq<usize>, ranges: Seq<(usize, usize)>) -> bool {
    &&& rolls.len() == ranges.len()
    &&& forall|k: int| 0 <= k < rolls.len() ==> ranges[k].0 <= #[trigger] rolls[k] <= ranges[k].1
}

/// `s` with the elements at `i` and `j` exchanged.
pub open spec fn swap_at<A>(s: Seq<A>, i: int, j: int) -> Seq<A> {
    s.update(i, s[j]).update(j, s[i])
}

/// The pile after the first `k` steps of the Fisher–Yates shuffle: step `m`
/// exchanges position `len - 1 - m` with position `rolls[m]`.
pub open spec fn fisher_yates<A>(s: Seq<A>, rolls: Seq<usize>, k: nat) -> Seq<A>
    decreases k,
{
    if k == 0 {
        s
    } else {
        swap_at(
            fisher_yates(s, rolls, (k - 1) as nat),
            s.len() - k,
            rolls[k - 1] as int,
        )
    }
}

/// Whether `rolls` are draws the Fisher–Yates shuffle of `n` cards may use:
/// step `m` draws from `0..=n - 1 - m`.
pub open spec fn shuffle_rolls_fit(n: int, rolls: Seq<usize>) -> bool {
    n >= 1 ==> {
        &&& rolls.len() >= n - 1
        &&& forall|m: int| 0 <= m < n - 1 ==> #[trigger] rolls[m] <= n - 1 - m
    }
}

/// The number of swaps the shuffle of `n` cards performs.
pub open spec fn shuffle_steps(n: int) -> nat {
    if n >= 1 {
        (n - 1) as nat
    } else {
        0
    }
}

impl AppView {
    /// The pile mirrors a stored deck that it must keep in step with: the
    /// deck holds the pile's cards, as many times each.
    pub open spec fn tracks_deck(self) -> bool {
        self.current_deck != favorites_name() && self.decks.contains_key(self.current_deck)
    }

    /// The session's invariant.
    pub open spec fn inv(self) -> bool {
        &&& self.decks.contains_key(self.current_deck)
        &&& self.current_deck != favorites_name() ==> {
            &&& self.decks[self.current_deck].len() == self.cards.len()
            &&& self.decks[self.current_deck].to_multiset() == self.cards.to_multiset()
        }
        &&& if self.cards.len() == 0 {
            self.current_index == 0
        } else {
            0 <= self.current_index < self.cards.len()
        }
        &&& self.cards.len() <= self.initial_count <= usize::MAX
        &&& forall|k: Seq<char>| #[trigger]
            self.decks.contains_key(k) ==> self.decks[k].len() <= usize::MAX
    }

    /// Whether the front end should give the session keyboard focus after a
    /// render: on the first render, unless focus was already taken.
    pub open spec fn asks_focus(self, first_render: bool) -> bool {
        first_render && !self.focus_set
    }

    /// The inclusive ranges handling `msg` draws from, in order: the position
    /// a replaced card goes back to, from 1 to the number of other cards,
    /// when there are other cards; for a shuffle of `n >= 2` cards, step `m`
    /// draws from `0..=n - 1 - m`.
    pub open spec fn draw_ranges(self, msg: Msg) -> Seq<(usize, usize)> {
        let n = self.cards.len();
        match msg {
            Msg::AnimDone => match self.anim_state {
                AnimationState::Replacing => if n >= 2 {
                    seq![(1usize, (n - 1) as usize)]
                } else {
                    Seq::empty()
                },
                AnimationState::Shuffling => if n >= 2 {
                    Seq::new((n - 1) as nat, |m: int| (0usize, (n - 1 - m) as usize))
                } else {
                    Seq::empty()
                },
                _ => Seq::empty(),
            },
            _ => Seq::empty(),
        }
    }

    /// Whether the random draws `rolls` fit what handling `msg` draws.
    pub open spec fn rolls_fit(self, msg: Msg, rolls: Seq<usize>) -> bool {
        match msg {
            Msg::AnimDone => match self.anim_state {
                AnimationState::Replacing => self.cards.len() >= 2 ==> {
                    &&& rolls.len() >= 1
                    &&& 1 <= rolls[0] <= self.cards.len() - 1
                },
                AnimationState::Shuffling => shuffle_rolls_fit(self.cards.len() as int, rolls),
                _ => true,
            },
            _ => true,
        }
    }

    /// Turning the top card over; refused during an animation.
    pub open spec fn flip(self) -> (AppView, bool) {
        if self.anim_state == AnimationState::Idle {
            (AppView { show_back: !self.show_back, ..self }, true)
        } else {
            (self, false)
        }
    }

    /// Starting an animation; refused while one plays. Removing and replacing
    /// turn the card face up; shuffling leaves it as it is.
    pub open spec fn start(self, anim: AnimationState) -> (AppView, bool) {
        if self.anim_state == AnimationState::Idle {
            if anim == AnimationState::Shuffling {
                (AppView { anim_state: anim, ..self }, true)
            } else {
                (AppView { anim_state: anim, show_back: false, ..self }, true)
            }
        } else {
            (self, false)
        }
    }

    /// Studying the deck `name` from its first card; refused during an
    /// animation or when there is no such deck.
    pub open spec fn select_deck(self, name: Seq<char>) -> (AppView, bool) {
        if self.anim_state == AnimationState::Idle && self.decks.contains_key(name) {
            (
                AppView {
                    current_deck: name,
                    cards: self.decks[name],
                    current_index: 0,
                    show_back: false,
                    initial_count: self.decks[name].len() as int,
                    ..self
                },
                true,
            )
        } else {
            (self, false)
        }
    }

    /// The stored decks after `card` left the pile: the deck the pile
    /// mirrors loses its first copy of that card.
    pub open spec fn decks_without(self, card: CardView) -> Map<Seq<char>, Seq<CardView>> {
        if self.tracks_deck() {
            self.decks.insert(self.current_deck, self.decks[self.current_deck].remove_value(card))
        } else {
            self.decks
        }
    }

    /// The end of a removal: the top card leaves the pile and its deck.
    pub open spec fn finish_remove(self) -> AppView {
        if self.cards.len() == 0 {
            self
        } else {
            let ci = self.current_index;
            let cards1 = self.cards.remove(ci);
            AppView {
                cards: cards1,
                decks: self.decks_without(self.cards[ci]),
                current_index: if cards1.len() > 0 {
                    ci % (cards1.len() as int)
                } else {
                    ci
                },
                ..self
            }
        }
    }

    /// The end of a replacement: the top card goes back into the pile, at
    /// the end when it was alone, else at position `rolls[0]` (at least 1),
    /// and its deck trades its first copy of the card for one put at the
    /// same place.
    pub open spec fn finish_replace(self, rolls: Seq<usize>) -> AppView {
        if self.cards.len() == 0 {
            self
        } else {
            let ci = self.current_index;
            let card = self.cards[ci];
            let cards1 = self.cards.remove(ci);
            let decks1 = self.decks_without(card);
            let name = self.current_deck;
            if cards1.len() == 0 {
                AppView {
                    cards: cards1.push(card),
                    decks: if self.tracks_deck() {
                        decks1.insert(name, decks1[name].push(card))
                    } else {
                        decks1
                    },
                    current_index: 0,
                    ..self
                }
            } else {
                let idx = rolls[0] as int;
                AppView {
                    cards: cards1.insert(idx, card),
                    decks: if self.tracks_deck() {
                        decks1.insert(name, decks1[name].insert(idx, card))
                    } else {
                        decks1
                    },
                    current_index: 0,
                    ..self
                }
            }
        }
    }

    /// The end of a shuffle: the pile is shuffled with the draws `rolls`.
    pub open spec fn finish_shuffle(self, rolls: Seq<usize>) -> AppView {
        AppView {
            cards: fisher_yates(self.cards, rolls, shuffle_steps(self.cards.len() as int)),
            current_index: 0,
            ..self
        }
    }

    /// The end of the running animation: its effect, then back to idle with
    /// the card face up.
    #[verifier::opaque]
    pub open spec fn anim_done(self, rolls: Seq<usize>) -> (AppView, bool) {
        let s1 = match self.anim_state {
            AnimationState::Removing => self.finish_remove(),
            AnimationState::Replacing => self.finish_replace(rolls),
            AnimationState::Shuffling => self.finish_shuffle(rolls),
            AnimationState::Idle => self,
        };
        (AppView { anim_state: AnimationState::Idle, show_back: false, ..s1 }, true)
    }

    /// Setting a display toggle.
    pub open spec fn set_toggle(self, msg: Msg) -> AppView {
        match msg {
            Msg::TogglePinyin(v) => AppView { show_pinyin: v, ..self },
            Msg::ToggleEnglish(v) => AppView { show_english: v, ..self },
            Msg::ToggleExamples(v) => AppView { show_examples: v, ..self },
            Msg::ToggleExamplesPinyin(v) => AppView { show_examples_pinyin: v, ..self },
            Msg::ToggleExamplesEnglish(v) => AppView { show_examples_english: v, ..self },
            Msg::ToggleRadicals(v) => AppView { show_radicals: v, ..self },
            _ => self,
        }
    }

    /// The session after `msg`, with the random draws `rolls`, and whether
    /// the front end must redraw.
    pub open spec fn step(self, msg: Msg, rolls: Seq<usize>) -> (AppView, bool) {
        match msg {
            Msg::Flip => self.flip(),
            Msg::StartRemove => self.start(AnimationState::Removing),
            Msg::StartReplace => self.start(AnimationState::Replacing),
            Msg::StartShuffle => self.start(AnimationState::Shuffling),
            Msg::AnimDone => self.anim_done(rolls),
            Msg::SelectDeck(name) => self.select_deck(name@),
            _ => (self.set_toggle(msg), true),
        }
    }
}

/// Exchanges the cards at `i` and `j`.
fn swap_cards(v: &mut Vec<Card>, i: usize, j: usize)
    requires
        j <= i < old(v)@.len(),
    ensures
        final(v)@ == swap_at(old(v)@, i as int, j as int),
{
    let ghost s = v@;
    if i != j {
        let a = v.remove(i);
        let b = v.remove(j);
        v.insert(j, a);
        v.insert(i, b);
    }
    assert(v@ =~= swap_at(s, i as int, j as int));
}

/// Whether this is the name of the deck whose pile is studied without
/// touching the stored deck.
pub fn is_favorites(name: &str) -> (res: bool)
    ensures
        res == (name@ == favorites_name()),
{
    text_eq(name, "Favorites")
}

/// A study session: the named decks, the pile being studied (a copy of one
/// deck), the position of the top card, the card's side, the animation
/// playing and the display toggles.
pub struct App {
    decks: DeckSet,
    current_deck: String,
    cards: Vec<Card>,
    current_index: usize,
    show_back: bool,
    anim_state: AnimationState,
    show_pinyin: bool,
    show_english: bool,
    show_examples: bool,
    show_examples_pinyin: bool,
    show_examples_english: bool,
    show_radicals: bool,
    initial_count: usize,
    focus_set: bool,
}

impl View for App {
    type V = AppView;

    closed spec fn view(&self) -> AppView {
        AppView {
            decks: self.decks@,
            current_deck: self.current_deck@,
            cards: cards_view(self.cards@),
            current_index: self.current_index as int,
            show_back: self.show_back,
            anim_state: self.anim_state,
            show_pinyin: self.show_pinyin,
            show_english: self.show_english,
            show_examples: self.show_examples,
            show_examples_pinyin: self.show_examples_pinyin,
            show_examples_english: self.show_examples_english,
            show_radicals: self.show_radicals,
            initial_count: self.initial_count as int,
            focus_set: self.focus_set,
        }
    }
}

impl App {
    /// The session is well formed.
    pub closed spec fn well_formed(&self) -> bool {
        &&& self.decks.wf()
        &&& self@.inv()
    }

    /// A well-formed session keeps its invariant.
    pub proof fn lemma_inv(&self)
        requires
            self.well_formed(),
        ensures
            self@.inv(),
    {
    }

    /// A session over `decks` studying the deck `current`, face up, with every
    /// toggle on.
    pub fn new(decks: DeckSet, current: String) -> (res: App)
        requires
            decks.wf(),
            decks@.contains_key(current@),
        ensures
            res.well_formed(),
            res@ == fresh_session(decks@, current@),
    {
        proof {
            decks.lemma_bounded();
        }
        let cards = decks.cards_of(current.as_str());
        let initial_count = cards.len();
        App {
            decks,
            current_deck: current,
            cards,
            current_index: 0,
            show_back: false,
            anim_state: AnimationState::Idle,
            show_pinyin: true,
            show_english: true,
            show_examples: true,
            show_examples_pinyin: true,
            show_examples_english: true,
            show_radicals: true,
            initial_count,
            focus_set: false,
        }
    }

    fn do_flip(&mut self) -> (r: bool)
        requires
            old(self).well_formed(),
        ensures
            final(self).well_formed(),
            (final(self)@, r) == old(self)@.flip(),
    {
        if self.anim_state == AnimationState::Idle {
            self.show_back = !self.show_back;
            true
        } else {
            false
        }
    }

    fn do_start(&mut self, anim: AnimationState) -> (r: bool)
        requires
            old(self).well_formed(),
        ensures
            final(self).well_formed(),
            (final(self)@, r) == old(self)@.start(anim),
    {
        if self.anim_state == AnimationState::Idle {
            self.anim_state = anim;
            if anim != AnimationState::Shuffling {
                self.show_back = false;
            }
            true
        } else {
            false
        }
    }

    fn do_select_deck(&mut self, name: String) -> (r: bool)
        requires
            old(self).well_formed(),
        ensures
            final(self).well_formed(),
            (final(self)@, r) == old(self)@.select_deck(name@),
    {
        if self.anim_state == AnimationState::Idle {
            if self.decks.contains(name.as_str()) {
                let cards = self.decks.cards_of(name.as_str());
                self.current_deck = name;
                self.cards = cards;
                self.current_index = 0;
                self.show_back = false;
                self.initial_count = self.cards.len();
                true
            } else {
                false
            }
        } else {
            false
        }
    }

    /// Removes `card` from the stored deck the pile mirrors, as it leaves
    /// the pile.
    fn remove_from_deck(&mut self, card: &Card)
        requires
            old(self).decks.wf(),
            old(self)@.decks.contains_key(old(self)@.current_deck),
        ensures
            final(self).decks.wf(),
            final(self)@ == (AppView { decks: old(self)@.decks_without(card@), ..old(self)@ }),
    {
        if !is_favorites(self.current_deck.as_str()) {
            if self.decks.contains(self.current_deck.as_str()) {
                self.decks.remove_one(self.current_deck.as_str(), card);
            }
        }
    }

    fn do_finish_remove(&mut self)
        requires
            old(self).well_formed(),
        ensures
            final(self).well_formed(),
            final(self)@ == old(self)@.finish_remove(),
    {
        if !self.cards.is_empty() {
            let ci = self.current_index;
            let ghost cards0 = self@.cards;
            let card = self.cards.remove(ci);
            assert(cards_view(self.cards@) =~= cards0.remove(ci as int));
            assert(card@ == cards0[ci as int]);
            proof {
                if self@.current_deck != favorites_name() {
                    lemma_mirror_removal(self@.decks[self@.current_deck], cards0, ci as int);
                }
            }
            self.remove_from_deck(&card);
            proof {
                self.decks.lemma_bounded();
            }
            if !self.cards.is_empty() {
                self.current_index = ci % self.cards.len();
            }
        }
    }

    #[verifier::rlimit(50)]
    fn do_finish_replace(&mut self, rolls: &Vec<usize>)
        requires
            old(self).well_formed(),
            old(self)@.cards.len() >= 2 ==> {
                &&& rolls@.len() >= 1
                &&& 1 <= rolls@[0] <= old(self)@.cards.len() - 1
            },
        ensures
            final(self).well_formed(),
            final(self)@ == old(self)@.finish_replace(rolls@),
    {
        if !self.cards.is_empty() {
            let ghost s0 = self@;
            let ci = self.current_index;
            let card = self.cards.remove(ci);
            assert(cards_view(self.cards@) =~= s0.cards.remove(ci as int));
            assert(card@ == s0.cards[ci as int]);
            proof {
                if s0.current_deck != favorites_name() {
                    lemma_mirror_removal(s0.decks[s0.current_deck], s0.cards, ci as int);
                }
            }
            self.remove_from_deck(&card);
            proof {
                self.decks.lemma_bounded();
            }
            let ghost s1 = self@;
            let tracks = !is_favorites(self.current_deck.as_str()) && self.decks.contains(
                self.current_deck.as_str(),
            );
            let copy = card.duplicate();
            let len = self.cards.len();
            if len == 0 {
                self.cards.push(card);
                assert(cards_view(self.cards@) =~= s1.cards.push(s0.cards[ci as int]));
                proof {
                    if s1.current_deck != favorites_name() {
                        lemma_mirror_requeue(
                            s1.decks[s1.current_deck],
                            s1.cards,
                            0,
                            s0.cards[ci as int],
                        );
                    }
                }
                if tracks {
                    self.decks.push_card(self.current_deck.as_str(), copy);
                    proof {
                        self.decks.lemma_bounded();
                    }
                }
                self.current_index = 0;
            } else {
                let idx = rolls[0];
                self.cards.insert(idx, card);
                assert(cards_view(self.cards@) =~= s1.cards.insert(
                    idx as int,
                    s0.cards[ci as int],
                ));
                proof {
                    if s1.current_deck != favorites_name() {
                        lemma_mirror_requeue(
                            s1.decks[s1.current_deck],
                            s1.cards,
                            idx as int,
                            s0.cards[ci as int],
                        );
                    }
                }
                if tracks {
                    self.decks.insert_card(self.current_deck.as_str(), idx, copy);
                    proof {
                        self.decks.lemma_bounded();
                    }
                }
                self.current_index = 0;
            }
        }
    }


    fn do_finish_shuffle(&mut self, rolls: &Vec<usize>)
        requires
            old(self).well_formed(),
            shuffle_rolls_fit(old(self)@.cards.len() as int, rolls@),
        ensures
            final(self).well_formed(),
            final(self)@ == old(self)@.finish_shuffle(rolls@),
    {
        let ghost s0 = self@;
        let len = self.cards.len();
        if len > 1 {
            let mut i: usize = len - 1;
            let mut k: usize = 0;
            while i >= 1
                invariant
                    len == s0.cards.len(),
                    len > 1,
                    self.decks.wf(),
                    k + i == len - 1,
                    self.cards@.len() == len,
                    rolls@.len() >= len - 1,
                    forall|m: int| 0 <= m < len - 1 ==> #[trigger] rolls@[m] <= len - 1 - m,
                    cards_view(self.cards@) == fisher_yates(s0.cards, rolls@, k as nat),
                    self@ == (AppView { cards: cards_view(self.cards@), ..s0 }),
                decreases i,
            {
                let j = rolls[k];
                assert(rolls@[k as int] <= len - 1 - k);
                let ghost before = self.cards@;
                swap_cards(&mut self.cards, i, j);
                assert(cards_view(self.cards@) =~= swap_at(cards_view(before), i as int, j as int));
                i = i - 1;
                k = k + 1;
            }
            assert(k == shuffle_steps(len as int));
        }
        self.current_index = 0;
        proof {
            lemma_fisher_yates_keeps_cards(s0.cards, rolls@, shuffle_steps(len as int));
        }
    }


    fn do_anim_done(&mut self, rolls: &Vec<usize>) -> (r: bool)
        requires
            old(self).well_formed(),
            old(self)@.rolls_fit(Msg::AnimDone, rolls@),
        ensures
            final(self).well_formed(),
            (final(self)@, r) == old(self)@.anim_done(rolls@),
    {
        reveal(AppView::anim_done);
        match self.anim_state {
            AnimationState::Removing => self.do_finish_remove(),
            AnimationState::Replacing => self.do_finish_replace(rolls),
            AnimationState::Shuffling => self.do_finish_shuffle(rolls),
            AnimationState::Idle => {},
        }
        self.anim_state = AnimationState::Idle;
        self.show_back = false;
        true
    }

    fn do_set_toggle(&mut self, msg: Msg)
        requires
            old(self).well_formed(),
        ensures
            final(self).well_formed(),
            final(self)@ == old(self)@.set_toggle(msg),
    {
        match msg {
            Msg::TogglePinyin(v) => self.show_pinyin = v,
            Msg::ToggleEnglish(v) => self.show_english = v,
            Msg::ToggleExamples(v) => self.show_examples = v,
            Msg::ToggleExamplesPinyin(v) => self.show_examples_pinyin = v,
            Msg::ToggleExamplesEnglish(v) => self.show_examples_english = v,
            Msg::ToggleRadicals(v) => self.show_radicals = v,
            _ => {},
        }
    }

    /// Handles `msg` with the random draws `rolls` (the position a replaced
    /// card goes back to, or the draws of a shuffle) and says whether the
    /// front end must redraw.
    pub fn update_with_rolls(&mut self, msg: Msg, rolls: &Vec<usize>) -> (r: bool)
        requires
            old(self).well_formed(),
            old(self)@.rolls_fit(msg, rolls@),
        ensures
            final(self).well_formed(),
            (final(self)@, r) == old(self)@.step(msg, rolls@),
    {
        match msg {
            Msg::Flip => self.do_flip(),
            Msg::StartRemove => self.do_start(AnimationState::Removing),
            Msg::StartReplace => self.do_start(AnimationState::Replacing),
            Msg::StartShuffle => self.do_start(AnimationState::Shuffling),
            Msg::AnimDone => self.do_anim_done(rolls),
            Msg::SelectDeck(name) => self.do_select_deck(name),
            _ => {
                self.do_set_toggle(msg);
                true
            },
        }
    }

    /// Draws from the thread's random generator what handling `msg` needs:
    /// the position a replaced card goes back to, or the draws of a shuffle.
    /// Beside the draws comes a ghost record of the ranges the generator was
    /// asked for, in order.
    fn draw_rolls(&self, msg: &Msg) -> (res: (Vec<usize>, Ghost<Seq<(usize, usize)>>))
        requires
            self.well_formed(),
        ensures
            res.1@ == self@.draw_ranges(*msg),
            rolls_within(res.0@, res.1@),
    {
        proof {
            self.lemma_inv();
        }
        let mut rolls: Vec<usize> = Vec::new();
        let ghost mut asked: Seq<(usize, usize)> = Seq::empty();
        match msg {
            Msg::AnimDone => match self.anim_state {
                AnimationState::Replacing => {
                    if !self.cards.is_empty() {
                        let mut rng = thread_rng();
                        let len = self.cards.len() - 1;
                        if len > 0 {
                            let (r, range) = gen_range_inclusive(&mut rng, 1, len);
                            rolls.push(r);
                            proof {
                                asked = asked.push(range@);
                            }
                        }
                    }
                },
                AnimationState::Shuffling => {
                    let mut rng = thread_rng();
                    let len = self.cards.len();
                    if len > 1 {
                        let mut i: usize = len - 1;
                        while i >= 1
                            invariant
                                len == self@.cards.len(),
                                len > 1,
                                i < len,
                                rolls@.len() == len - 1 - i,
                                asked.len() == rolls@.len(),
                                forall|m: int|
                                    0 <= m < asked.len() ==> #[trigger] asked[m] == (
                                        0usize,
                                        (len - 1 - m) as usize,
                                    ),
                                rolls_within(rolls@, asked),
                            decreases i,
                        {
                            let (j, range) = gen_range_inclusive(&mut rng, 0, i);
                            rolls.push(j);
                            proof {
                                asked = asked.push(range@);
                            }
                            i = i - 1;
                        }
                        assert(asked =~= self@.draw_ranges(*msg));
                    }
                },
                _ => {},
            },
            _ => {},
        }
        assert(asked =~= self@.draw_ranges(*msg));
        (rolls, Ghost(asked))
    }

    /// Handles `msg` and says whether the front end must redraw. The random
    /// draws of a replacement or a shuffle come from the thread's random
    /// generator, asked for exactly the ranges `draw_ranges`: the result is
    /// the step for some draws within those ranges.
    pub fn update(&mut self, msg: Msg) -> (r: bool)
        requires
            old(self).well_formed(),
        ensures
            final(self).well_formed(),
            exists|rolls: Seq<usize>|
                rolls_within(rolls, old(self)@.draw_ranges(msg)) && (final(self)@, r)
                    == #[trigger] old(self)@.step(msg, rolls),
    {
        let (rolls, _asked) = self.draw_rolls(&msg);
        proof {
            self.lemma_ranges_fit(msg, rolls@);
        }
        self.update_with_rolls(msg, &rolls)
    }

    /// Draws within the ranges `draw_ranges` fit what handling `msg` draws.
    proof fn lemma_ranges_fit(&self, msg: Msg, rolls: Seq<usize>)
        requires
            self.well_formed(),
            rolls_within(rolls, self@.draw_ranges(msg)),
        ensures
            self@.rolls_fit(msg, rolls),
    {
        let n = self@.cards.len();
        if msg is AnimDone && self@.anim_state == AnimationState::Shuffling && n >= 2 {
            assert forall|m: int| 0 <= m < n - 1 implies #[trigger] rolls[m] <= n - 1 - m by {
                assert(self@.draw_ranges(msg)[m] == (0usize, (n - 1 - m) as usize));
            }
        }
        if msg is AnimDone && self@.anim_state == AnimationState::Replacing && n >= 2 {
            assert(self@.draw_ranges(msg)[0] == (1usize, (n - 1) as usize));
        }
    }

    /// The session the application starts with: the shipped decks under
    /// their names, studying the "In Class" deck.
    pub fn create(
        hsk1: Vec<Card>,
        hsk2: Vec<Card>,
        hsk3: Vec<Card>,
        hsk4: Vec<Card>,
        in_class: Vec<Card>,
        collection: Vec<Card>,
    ) -> (res: App)
        ensures
            res.well_formed(),
            res@ == fresh_session(
                shipped_decks(
                    cards_view(hsk1@),
                    cards_view(hsk2@),
                    cards_view(hsk3@),
                    cards_view(hsk4@),
                    cards_view(in_class@),
                    cards_view(collection@),
                ),
                "In Class"@,
            ),
            res@.decks["HSK1"@] == cards_view(hsk1@),
            res@.decks["HSK2 (INCMPLT)"@] == cards_view(hsk2@),
            res@.decks["HSK3 (INCMPLT)"@] == cards_view(hsk3@),
            res@.decks["HSK4 (INCMPLT)"@] == cards_view(hsk4@),
            res@.decks["In Class"@] == cards_view(in_class@),
            res@.decks["Collection"@] == cards_view(collection@),
            res@.current_deck == "In Class"@,
            res@.cards == cards_view(in_class@),
    {
        proof {
            law_shipped_decks_by_name(
                cards_view(hsk1@),
                cards_view(hsk2@),
                cards_view(hsk3@),
                cards_view(hsk4@),
                cards_view(in_class@),
                cards_view(collection@),
            );
        }
        let mut decks = DeckSet::new();
        decks.insert(String::from_str("HSK1"), hsk1);
        decks.insert(String::from_str("HSK2 (INCMPLT)"), hsk2);
        decks.insert(String::from_str("HSK3 (INCMPLT)"), hsk3);
        decks.insert(String::from_str("HSK4 (INCMPLT)"), hsk4);
        decks.insert(String::from_str("In Class"), in_class);
        decks.insert(String::from_str("Collection"), collection);
        let current = String::from_str("In Class");
        App::new(decks, current)
    }

    /// The named decks.
    pub fn decks(&self) -> (res: &DeckSet)
        requires
            self.well_formed(),
        ensures
            res.wf(),
            res@ == self@.decks,
    {
        &self.decks
    }

    /// The name of the deck being studied.
    pub fn current_deck(&self) -> (res: &String)
        ensures
            res@ == self@.current_deck,
    {
        &self.current_deck
    }

    /// The pile being studied.
    pub fn cards(&self) -> (res: &Vec<Card>)
        ensures
            cards_view(res@) == self@.cards,
    {
        &self.cards
    }

    /// The position of the top card in the pile.
    pub fn current_index(&self) -> (res: usize)
        ensures
            res == self@.current_index,
    {
        self.current_index
    }

    /// Whether the top card shows its back.
    pub fn show_back(&self) -> (res: bool)
        ensures
            res == self@.show_back,
    {
        self.show_back
    }

    /// The animation playing.
    pub fn anim_state(&self) -> (res: AnimationState)
        ensures
            res == self@.anim_state,
    {
        self.anim_state
    }

    /// Whether the back shows the reading.
    pub fn show_pinyin(&self) -> (res: bool)
        ensures
            res == self@.show_pinyin,
    {
        self.show_pinyin
    }

    /// Whether the back shows the meaning.
    pub fn show_english(&self) -> (res: bool)
        ensures
            res == self@.show_english,
    {
        self.show_english
    }

    /// Whether the back shows the example sentences.
    pub fn show_examples(&self) -> (res: bool)
        ensures
            res == self@.show_examples,
    {
        self.show_examples
    }

    /// Whether example sentences show their reading.
    pub fn show_examples_pinyin(&self) -> (res: bool)
        ensures
            res == self@.show_examples_pinyin,
    {
        self.show_examples_pinyin
    }

    /// Whether example sentences show their translation.
    pub fn show_examples_english(&self) -> (res: bool)
        ensures
            res == self@.show_examples_english,
    {
        self.show_examples_english
    }

    /// Whether the back shows the radicals.
    pub fn show_radicals(&self) -> (res: bool)
        ensures
            res == self@.show_radicals,
    {
        self.show_radicals
    }

    /// The size of the pile when the deck was chosen.
    pub fn initial_count(&self) -> (res: usize)
        ensures
            res == self@.initial_count,
    {
        self.initial_count
    }

    /// Whether the front end should give the session keyboard focus after a
    /// render: on the first render, unless focus was already taken.
    pub fn wants_focus(&self, first_render: bool) -> (res: bool)
        ensures
            res == self@.asks_focus(first_render),
    {
        first_render && !self.focus_set
    }

    /// Records that the session took keyboard focus.
    pub fn focus_taken(&mut self)
        requires
            old(self).well_formed(),
        ensures
            final(self).well_formed(),
            final(self)@ == (AppView { focus_set: true, ..old(self)@ }),
    {
        self.focus_set = true;
    }

}

} // verus!
