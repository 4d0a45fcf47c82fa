use flashcards::card::{Card, Example, Radical};
use flashcards::decks::DeckSet;
use flashcards::session::{AnimationState, App, Msg};

fn card(ch: &str) -> Card {
    Card {
        character: ch.to_string(),
        pinyin: format!("{}-py", ch),
        english: format!("{}-en", ch),
        examples: vec![Example {
            chinese: format!("{}。", ch),
            pinyin: "li".to_string(),
            english: "example".to_string(),
        }],
        radicals: vec![Radical {
            character: "口".to_string(),
            pinyin: "kǒu".to_string(),
            meaning: "mouth".to_string(),
        }],
    }
}

fn pile(chars: &[&str]) -> Vec<Card> {
    chars.iter().map(|c| card(c)).collect()
}

fn heads(cards: &[Card]) -> Vec<String> {
    cards.iter().map(|c| c.character.clone()).collect()
}

fn session(chars: &[&str]) -> App {
    let mut decks = DeckSet::new();
    decks.insert("Main".to_string(), pile(chars));
    decks.insert("Other".to_string(), pile(&["甲", "乙"]));
    App::new(decks, "Main".to_string())
}

fn deck_heads(app: &App, name: &str) -> Vec<String> {
    heads(&app.decks().cards_of(name))
}

#[test]
fn create_studies_in_class_deck() {
    let app = App::create(
        pile(&["一"]),
        pile(&["二", "三"]),
        pile(&[]),
        pile(&["四"]),
        pile(&["你", "好", "吗"]),
        pile(&["书"]),
    );
    assert_eq!(app.current_deck(), "In Class");
    assert_eq!(heads(app.cards()), vec!["你", "好", "吗"]);
    assert_eq!(app.current_index(), 0);
    assert_eq!(app.initial_count(), 3);
    assert!(!app.show_back());
    assert_eq!(app.anim_state(), AnimationState::Idle);
    assert!(app.show_pinyin() && app.show_english() && app.show_examples());
    assert!(app.show_examples_pinyin() && app.show_examples_english() && app.show_radicals());
    assert_eq!(deck_heads(&app, "HSK2 (INCMPLT)"), vec!["二", "三"]);
    assert!(app.decks().contains("Collection"));
    assert!(!app.decks().contains("Favorites"));
}

#[test]
fn flip_turns_card_and_twice_restores() {
    let mut app = session(&["a", "b"]);
    assert!(app.update(Msg::Flip));
    assert!(app.show_back());
    assert!(app.update(Msg::Flip));
    assert!(!app.show_back());
}

#[test]
fn remove_takes_top_card_from_pile_and_deck() {
    let mut app = session(&["a", "b", "c"]);
    assert!(app.update(Msg::Flip));
    assert!(app.update(Msg::StartRemove));
    assert_eq!(app.anim_state(), AnimationState::Removing);
    assert!(!app.show_back());
    assert!(app.update(Msg::AnimDone));
    assert_eq!(app.anim_state(), AnimationState::Idle);
    assert_eq!(heads(app.cards()), vec!["b", "c"]);
    assert_eq!(deck_heads(&app, "Main"), vec!["b", "c"]);
    assert_eq!(deck_heads(&app, "Other"), vec!["甲", "乙"]);
    assert_eq!(app.remaining(), 2);
    assert_eq!(app.removed(), 1);
    assert_eq!(app.remaining() + app.removed(), app.initial_count());
}

#[test]
fn remove_last_card_empties_pile() {
    let mut app = session(&["a"]);
    assert!(app.update(Msg::StartRemove));
    assert!(app.update(Msg::AnimDone));
    assert!(app.cards().is_empty());
    assert_eq!(app.current_index(), 0);
    assert_eq!(app.removed(), 1);
    assert!(app.actions_disabled());
    // Ending an animation on an empty pile changes nothing but the state.
    assert!(app.update(Msg::StartRemove));
    assert!(app.update(Msg::AnimDone));
    assert!(app.cards().is_empty());
    assert!(app.decks().cards_of("Main").is_empty());
}

#[test]
fn busy_session_refuses_actions() {
    let mut app = session(&["a", "b"]);
    assert!(app.update(Msg::StartReplace));
    assert!(!app.update(Msg::Flip));
    assert!(!app.update(Msg::StartRemove));
    assert!(!app.update(Msg::StartShuffle));
    assert!(!app.update(Msg::SelectDeck("Other".to_string())));
    assert_eq!(app.anim_state(), AnimationState::Replacing);
    assert_eq!(app.current_deck(), "Main");
    assert!(!app.show_back());
    assert!(app.actions_disabled());
}

#[test]
fn shuffle_start_keeps_card_side() {
    let mut app = session(&["a", "b"]);
    assert!(app.update(Msg::Flip));
    assert!(app.update(Msg::StartShuffle));
    assert!(app.show_back());
    assert_eq!(app.anim_state(), AnimationState::Shuffling);
}

#[test]
fn replace_puts_card_back_at_drawn_position() {
    let mut app = session(&["a", "b", "c", "d"]);
    assert!(app.update(Msg::StartReplace));
    assert!(app.update_with_rolls(Msg::AnimDone, &vec![2]));
    assert_eq!(heads(app.cards()), vec!["b", "c", "a", "d"]);
    assert_eq!(deck_heads(&app, "Main"), vec!["b", "c", "a", "d"]);
    assert_eq!(app.current_index(), 0);
    assert_eq!(app.removed(), 0);
    assert!(!app.show_back());
}

#[test]
fn replace_single_card_keeps_it() {
    let mut app = session(&["a"]);
    assert!(app.update(Msg::StartReplace));
    assert!(app.update(Msg::AnimDone));
    assert_eq!(heads(app.cards()), vec!["a"]);
    assert_eq!(deck_heads(&app, "Main"), vec!["a"]);
    assert_eq!(app.decks().cards_of("Main")[0], card("a"));
}

#[test]
fn replace_with_random_draw_never_keeps_card_on_top() {
    for _ in 0..20 {
        let mut app = session(&["a", "b", "c"]);
        assert!(app.update(Msg::StartReplace));
        assert!(app.update(Msg::AnimDone));
        let h = heads(app.cards());
        assert_eq!(h[0], "b");
        let mut sorted = h.clone();
        sorted.sort();
        assert_eq!(sorted, vec!["a", "b", "c"]);
        assert_eq!(deck_heads(&app, "Main"), h);
    }
}

#[test]
fn shuffle_with_draws_is_fisher_yates() {
    let mut app = session(&["a", "b", "c", "d"]);
    assert!(app.update(Msg::StartShuffle));
    assert!(app.update_with_rolls(Msg::AnimDone, &vec![0, 0, 0]));
    assert_eq!(heads(app.cards()), vec!["b", "c", "d", "a"]);
    // The stored deck is not shuffled.
    assert_eq!(deck_heads(&app, "Main"), vec!["a", "b", "c", "d"]);
    assert_eq!(app.current_index(), 0);

    let mut app = session(&["a", "b", "c", "d"]);
    assert!(app.update(Msg::StartShuffle));
    assert!(app.update_with_rolls(Msg::AnimDone, &vec![3, 2, 1]));
    assert_eq!(heads(app.cards()), vec!["a", "b", "c", "d"]);
}

#[test]
fn random_shuffle_permutes_and_varies() {
    let chars = ["a", "b", "c", "d", "e", "f", "g"];
    let mut outcomes = Vec::new();
    for _ in 0..30 {
        let mut app = session(&chars);
        assert!(app.update(Msg::StartShuffle));
        assert!(app.update(Msg::AnimDone));
        let h = heads(app.cards());
        let mut sorted = h.clone();
        sorted.sort();
        assert_eq!(sorted, chars.to_vec());
        outcomes.push(h);
    }
    assert!(outcomes.iter().any(|o| *o != outcomes[0]));
}

#[test]
fn shuffle_then_remove_removes_the_shown_card_from_deck() {
    let mut app = session(&["a", "b", "c"]);
    assert!(app.update(Msg::StartShuffle));
    assert!(app.update_with_rolls(Msg::AnimDone, &vec![0, 0]));
    assert_eq!(heads(app.cards()), vec!["b", "c", "a"]);
    assert!(app.update(Msg::StartRemove));
    assert!(app.update(Msg::AnimDone));
    assert_eq!(heads(app.cards()), vec!["c", "a"]);
    assert_eq!(deck_heads(&app, "Main"), vec!["a", "c"]);
}

#[test]
fn shuffle_then_replace_keeps_deck_cards() {
    let mut app = session(&["a", "b", "c"]);
    assert!(app.update(Msg::StartShuffle));
    assert!(app.update_with_rolls(Msg::AnimDone, &vec![0, 0]));
    assert!(app.update(Msg::StartReplace));
    assert!(app.update_with_rolls(Msg::AnimDone, &vec![2]));
    assert_eq!(heads(app.cards()), vec!["c", "a", "b"]);
    assert_eq!(deck_heads(&app, "Main"), vec!["a", "c", "b"]);
    let mut deck = deck_heads(&app, "Main");
    deck.sort();
    assert_eq!(deck, vec!["a", "b", "c"]);
}

#[test]
fn remove_takes_one_copy_of_duplicated_card() {
    let mut app = session(&["a", "b", "a"]);
    assert!(app.update(Msg::StartShuffle));
    assert!(app.update_with_rolls(Msg::AnimDone, &vec![0, 0]));
    assert_eq!(heads(app.cards()), vec!["b", "a", "a"]);
    assert!(app.update(Msg::StartRemove));
    assert!(app.update(Msg::AnimDone));
    assert_eq!(heads(app.cards()), vec!["a", "a"]);
    assert_eq!(deck_heads(&app, "Main"), vec!["a", "a"]);
    assert!(app.update(Msg::StartRemove));
    assert!(app.update(Msg::AnimDone));
    assert_eq!(heads(app.cards()), vec!["a"]);
    assert_eq!(deck_heads(&app, "Main"), vec!["a"]);
}

#[test]
fn select_deck_loads_fresh_copy() {
    let mut app = session(&["a", "b", "c"]);
    assert!(app.update(Msg::StartRemove));
    assert!(app.update(Msg::AnimDone));
    assert!(app.update(Msg::Flip));
    assert!(app.update(Msg::SelectDeck("Other".to_string())));
    assert_eq!(app.current_deck(), "Other");
    assert_eq!(heads(app.cards()), vec!["甲", "乙"]);
    assert_eq!(app.initial_count(), 2);
    assert_eq!(app.removed(), 0);
    assert!(!app.show_back());
    assert!(app.update(Msg::SelectDeck("Main".to_string())));
    assert_eq!(heads(app.cards()), vec!["b", "c"]);
    assert_eq!(app.initial_count(), 2);
}

#[test]
fn select_unknown_deck_is_refused() {
    let mut app = session(&["a"]);
    assert!(!app.update(Msg::SelectDeck("Nope".to_string())));
    assert_eq!(app.current_deck(), "Main");
}

#[test]
fn favorites_deck_is_never_changed() {
    let mut decks = DeckSet::new();
    decks.insert("Favorites".to_string(), pile(&["a", "b", "c"]));
    let mut app = App::new(decks, "Favorites".to_string());
    assert!(app.update(Msg::StartRemove));
    assert!(app.update(Msg::AnimDone));
    assert!(app.update(Msg::StartReplace));
    assert!(app.update_with_rolls(Msg::AnimDone, &vec![1]));
    assert_eq!(heads(app.cards()), vec!["c", "b"]);
    assert_eq!(deck_heads(&app, "Favorites"), vec!["a", "b", "c"]);
}

#[test]
fn toggles_set_flags_only() {
    let mut app = session(&["a"]);
    assert!(app.update(Msg::TogglePinyin(false)));
    assert!(!app.show_pinyin());
    assert!(app.update(Msg::ToggleEnglish(false)));
    assert!(!app.show_english());
    assert!(app.update(Msg::ToggleExamples(false)));
    assert!(!app.show_examples());
    assert!(app.update(Msg::ToggleExamplesPinyin(false)));
    assert!(!app.show_examples_pinyin());
    assert!(app.update(Msg::ToggleExamplesEnglish(false)));
    assert!(!app.show_examples_english());
    assert!(app.update(Msg::ToggleRadicals(false)));
    assert!(!app.show_radicals());
    assert!(app.update(Msg::ToggleRadicals(true)));
    assert!(app.show_radicals());
    assert_eq!(heads(app.cards()), vec!["a"]);
    // Toggles are taken even while an animation plays.
    assert!(app.update(Msg::StartRemove));
    assert!(app.update(Msg::TogglePinyin(true)));
    assert!(app.show_pinyin());
}

#[test]
fn focus_is_taken_once() {
    let mut app = session(&["a"]);
    assert!(!app.wants_focus(false));
    assert!(app.wants_focus(true));
    app.focus_taken();
    assert!(!app.wants_focus(true));
}
