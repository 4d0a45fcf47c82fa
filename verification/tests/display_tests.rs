use flashcards::card::{Card, Radical};
use flashcards::decks::DeckSet;
use flashcards::display::{back_font_size, front_font_size, msg_for_key, BackFace};
use flashcards::session::{App, Msg};

fn card(ch: &str, radicals: usize) -> Card {
    Card {
        character: ch.to_string(),
        pinyin: String::new(),
        english: String::new(),
        examples: Vec::new(),
        radicals: (0..radicals)
            .map(|_| Radical {
                character: "人".to_string(),
                pinyin: "rén".to_string(),
                meaning: "person".to_string(),
            })
            .collect(),
    }
}

fn session(chars: &[&str]) -> App {
    let mut decks = DeckSet::new();
    decks.insert("b deck".to_string(), chars.iter().map(|c| card(c, 0)).collect());
    decks.insert("A deck".to_string(), Vec::new());
    decks.insert("a deck".to_string(), Vec::new());
    App::new(decks, "b deck".to_string())
}

#[test]
fn keys_map_to_messages() {
    assert_eq!(msg_for_key("ArrowLeft"), Msg::StartRemove);
    assert_eq!(msg_for_key("ArrowRight"), Msg::StartReplace);
    assert_eq!(msg_for_key(" "), Msg::Flip);
    assert_eq!(msg_for_key("Spacebar"), Msg::Flip);
    assert_eq!(msg_for_key("ArrowUp"), Msg::Flip);
    assert_eq!(msg_for_key("ArrowDown"), Msg::Flip);
    assert_eq!(msg_for_key("s"), Msg::StartShuffle);
    assert_eq!(msg_for_key("S"), Msg::StartShuffle);
    assert_eq!(msg_for_key("Enter"), Msg::AnimDone);
    assert_eq!(msg_for_key(""), Msg::AnimDone);
    assert_eq!(msg_for_key("arrowleft"), Msg::AnimDone);
}

#[test]
fn front_font_sizes() {
    assert_eq!(front_font_size(0), "4em");
    assert_eq!(front_font_size(1), "10em");
    assert_eq!(front_font_size(2), "10em");
    assert_eq!(front_font_size(3), "9em");
    assert_eq!(front_font_size(4), "7em");
    assert_eq!(front_font_size(5), "5em");
    assert_eq!(front_font_size(6), "4em");
    assert_eq!(front_font_size(40), "4em");
}

#[test]
fn back_font_sizes() {
    assert_eq!(back_font_size(0), "2.8em");
    assert_eq!(back_font_size(2), "2.8em");
    assert_eq!(back_font_size(3), "2.1em");
    assert_eq!(back_font_size(4), "1.7em");
    assert_eq!(back_font_size(9), "1.7em");
}

#[test]
fn char_count_counts_characters_not_bytes() {
    assert_eq!(card("你好", 0).char_count(), 2);
    assert_eq!(front_font_size(card("你好", 0).char_count()), "10em");
    assert_eq!(card("图书馆", 0).char_count(), 3);
    assert_eq!(card("", 0).char_count(), 0);
}

#[test]
fn deck_options_sorted_with_current_selected() {
    let app = session(&["x"]);
    let opts = app.deck_options();
    let names: Vec<&str> = opts.iter().map(|o| o.0.as_str()).collect();
    assert_eq!(names, vec!["A deck", "a deck", "b deck"]);
    let selected: Vec<bool> = opts.iter().map(|o| o.1).collect();
    assert_eq!(selected, vec![false, false, true]);

    let shipped = App::create(Vec::new(), Vec::new(), Vec::new(), Vec::new(), Vec::new(), Vec::new());
    let names: Vec<String> = shipped.deck_options().into_iter().map(|o| o.0).collect();
    assert_eq!(
        names,
        vec!["Collection", "HSK1", "HSK2 (INCMPLT)", "HSK3 (INCMPLT)", "HSK4 (INCMPLT)", "In Class"]
    );
}

#[test]
fn card_classes_follow_side_and_animation() {
    let mut app = session(&["x", "y"]);
    assert_eq!(app.card_classes(), vec!["card-inner"]);
    app.update(Msg::Flip);
    assert_eq!(app.card_classes(), vec!["card-inner", "flipped"]);
    app.update(Msg::StartShuffle);
    assert_eq!(app.card_classes(), vec!["card-inner", "flipped", "shuffling"]);
    app.update(Msg::AnimDone);
    app.update(Msg::StartRemove);
    assert_eq!(app.card_classes(), vec!["card-inner", "removing"]);
    app.update(Msg::AnimDone);
    app.update(Msg::StartReplace);
    assert_eq!(app.card_classes(), vec!["card-inner", "replacing"]);
}

#[test]
fn pile_cards_peek_round_the_pile() {
    let app = session(&["a", "b", "c"]);
    let h = |k: usize| app.pile_card(k).map(|c| c.character.clone());
    assert_eq!(h(0), Some("a".to_string()));
    assert_eq!(h(1), Some("b".to_string()));
    assert_eq!(h(2), Some("c".to_string()));
    assert_eq!(h(3), None);
    let empty = session(&[]);
    assert!(empty.pile_card(0).is_none());
    assert!(empty.pile_card(1).is_none());
}

#[test]
fn counters_and_disabled_actions() {
    let mut app = session(&["a", "b"]);
    assert_eq!(app.remaining(), 2);
    assert_eq!(app.removed(), 0);
    assert!(!app.actions_disabled());
    app.update(Msg::StartRemove);
    assert!(app.actions_disabled());
    app.update(Msg::AnimDone);
    assert_eq!(app.remaining(), 1);
    assert_eq!(app.removed(), 1);
    assert!(!app.actions_disabled());
    let empty = session(&[]);
    assert!(empty.actions_disabled());
}

#[test]
fn radicals_shown_only_when_present_and_enabled() {
    let mut app = session(&["a"]);
    assert!(app.shows_radicals(&card("口", 2)));
    assert!(!app.shows_radicals(&card("口", 0)));
    app.update(Msg::ToggleRadicals(false));
    assert!(!app.shows_radicals(&card("口", 2)));
}

#[test]
fn back_face_follows_toggles() {
    let mut app = session(&["a"]);
    let all = BackFace {
        pinyin: true,
        english: true,
        examples: true,
        examples_pinyin: true,
        examples_english: true,
        radicals: true,
    };
    assert_eq!(app.back_face(&card("口", 1)), all);
    assert_eq!(app.back_face(&card("口", 0)), BackFace { radicals: false, ..all });
    app.update(Msg::ToggleExamples(false));
    assert_eq!(
        app.back_face(&card("口", 1)),
        BackFace { examples: false, examples_pinyin: false, examples_english: false, ..all }
    );
    app.update(Msg::ToggleExamples(true));
    app.update(Msg::ToggleExamplesEnglish(false));
    app.update(Msg::TogglePinyin(false));
    assert_eq!(
        app.back_face(&card("口", 1)),
        BackFace { pinyin: false, examples_english: false, ..all }
    );
}
