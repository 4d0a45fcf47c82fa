use flashcards::card::Card;
use flashcards::decks::DeckSet;
use flashcards::text::{text_eq, text_less};

fn card(ch: &str) -> Card {
    Card {
        character: ch.to_string(),
        pinyin: String::new(),
        english: String::new(),
        examples: Vec::new(),
        radicals: Vec::new(),
    }
}

#[test]
fn text_equality() {
    assert!(text_eq("In Class", "In Class"));
    assert!(!text_eq("In Class", "In class"));
    assert!(!text_eq("HSK1", "HSK"));
    assert!(text_eq("", ""));
    assert!(text_eq("汉字", "汉字"));
}

#[test]
fn text_order_matches_string_order() {
    let words = ["", "A", "B", "a", "ab", "abc", "b", "汉", "字", "HSK1", "HSK2 (INCMPLT)", "In Class"];
    for x in words.iter() {
        for y in words.iter() {
            assert_eq!(text_less(x, y), x.to_string() < y.to_string(), "{:?} < {:?}", x, y);
        }
    }
}

#[test]
fn deck_insert_replaces_same_name() {
    let mut decks = DeckSet::new();
    assert!(!decks.contains("One"));
    decks.insert("One".to_string(), vec![card("一")]);
    decks.insert("Two".to_string(), vec![card("二"), card("三")]);
    decks.insert("One".to_string(), vec![card("壹"), card("幺")]);
    assert!(decks.contains("One"));
    assert_eq!(decks.deck_len("One"), 2);
    assert_eq!(decks.cards_of("One")[0].character, "壹");
    assert_eq!(decks.deck_len("Two"), 2);
    let names = decks.sorted_names();
    assert_eq!(names, vec!["One".to_string(), "Two".to_string()]);
}

#[test]
fn deck_card_edits() {
    let mut decks = DeckSet::new();
    decks.insert("D".to_string(), vec![card("a"), card("b"), card("a")]);
    decks.remove_one("D", &card("a"));
    decks.insert_card("D", 1, card("c"));
    decks.push_card("D", card("d"));
    decks.remove_one("D", &card("z"));
    let heads: Vec<String> = decks.cards_of("D").into_iter().map(|c| c.character).collect();
    assert_eq!(heads, vec!["b", "c", "a", "d"]);
}

#[test]
fn duplicate_copies_everything() {
    let c = Card {
        character: "好".to_string(),
        pinyin: "hǎo".to_string(),
        english: "good".to_string(),
        examples: vec![flashcards::card::Example {
            chinese: "很好".to_string(),
            pinyin: "hěn hǎo".to_string(),
            english: "very good".to_string(),
        }],
        radicals: vec![flashcards::card::Radical {
            character: "女".to_string(),
            pinyin: "nǚ".to_string(),
            meaning: "woman".to_string(),
        }],
    };
    assert_eq!(c.duplicate(), c);
    assert!(c.same_as(&c.duplicate()));
    let mut d = c.duplicate();
    d.examples[0].english = "quite good".to_string();
    assert!(!c.same_as(&d));
    let mut e = c.duplicate();
    e.radicals.clear();
    assert!(!c.same_as(&e));
    assert!(!c.same_as(&card("好")));
}
