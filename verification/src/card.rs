use vstd::prelude::*;

use crate::text::text_eq;

verus! {

/// An example sentence shown on the back of a card.
#[derive(Debug, PartialEq)]
pub struct Example {
    pub chinese: String,
    pub pinyin: String,
    pub english: String,
}

/// A radical (component) of a card's character, with its reading and meaning.
#[derive(Debug, PartialEq)]
pub struct Radical {
    pub character: String,
    pub pinyin: String,
    pub meaning: String,
}

/// One flashcard: a character or word with its reading, meaning, example
/// sentences and radicals.
#[derive(Debug, PartialEq)]
pub struct Card {
    pub character: String,
    pub pinyin: String,
    pub english: String,
    pub examples: Vec<Example>,
    pub radicals: Vec<Radical>,
}

/// The text of an example sentence.
pub struct ExampleView {
    pub chinese: Seq<char>,
    pub pinyin: Seq<char>,
    pub english: Seq<char>,
}

/// The text of a radical.
pub struct RadicalView {
    pub character: Seq<char>,
    pub pinyin: Seq<char>,
    pub meaning: Seq<char>,
}

/// The content of a card.
pub struct CardView {
    pub character: Seq<char>,
    pub pinyin: Seq<char>,
    pub english: Seq<char>,
    pub examples: Seq<ExampleView>,
    pub radicals: Seq<RadicalView>,
}

impl View for Example {
    type V = ExampleView;

    open spec fn view(&self) -> ExampleView {
        ExampleView { chinese: self.chinese@, pinyin: self.pinyin@, english: self.english@ }
    }
}

impl View for Radical {
    type V = RadicalView;

    open spec fn view(&self) -> RadicalView {
        RadicalView { character: self.character@, pinyin: self.pinyin@, meaning: self.meaning@ }
    }
}

impl View for Card {
    type V = CardView;

    open spec fn view(&self) -> CardView {
        CardView {
            character: self.character@,
            pinyin: self.pinyin@,
            english: self.english@,
            examples: self.examples@.map_values(|e: Example| e@),
            radicals: self.radicals@.map_values(|r: Radical| r@),
        }
    }
}

/// The content of a sequence of cards.
pub open spec fn cards_view(s: Seq<Card>) -> Seq<CardView> {
    s.map_values(|c: Card| c@)
}

impl Example {
    /// A copy of this example.
    pub fn duplicate(&self) -> (res: Example)
        ensures
            res@ == self@,
    {
        Example {
            chinese: self.chinese.clone(),
            pinyin: self.pinyin.clone(),
            english: self.english.clone(),
        }
    }

    /// Whether the two examples hold the same text.
    pub fn same_as(&self, other: &Example) -> (res: bool)
        ensures
            res == (self@ == other@),
    {
        text_eq(self.chinese.as_str(), other.chinese.as_str()) && text_eq(
            self.pinyin.as_str(),
            other.pinyin.as_str(),
        ) && text_eq(self.english.as_str(), other.english.as_str())
    }
}

impl Radical {
    /// A copy of this radical.
    pub fn duplicate(&self) -> (res: Radical)
        ensures
            res@ == self@,
    {
        Radical {
            character: self.character.clone(),
            pinyin: self.pinyin.clone(),
            meaning: self.meaning.clone(),
        }
    }

    /// Whether the two radicals hold the same text.
    pub fn same_as(&self, other: &Radical) -> (res: bool)
        ensures
            res == (self@ == other@),
    {
        text_eq(self.character.as_str(), other.character.as_str()) && text_eq(
            self.pinyin.as_str(),
            other.pinyin.as_str(),
        ) && text_eq(self.meaning.as_str(), other.meaning.as_str())
    }
}

impl Card {
    /// A copy of this card.
    pub fn duplicate(&self) -> (res: Card)
        ensures
            res@ == self@,
    {
        let mut examples: Vec<Example> = Vec::new();
        let mut i: usize = 0;
        while i < self.examples.len()
            invariant
                i <= self.examples@.len(),
                examples@.len() == i,
                forall|j: int| 0 <= j < i ==> #[trigger] examples@[j]@ == self.examples@[j]@,
            decreases self.examples@.len() - i,
        {
            examples.push(self.examples[i].duplicate());
            i = i + 1;
        }
        let mut radicals: Vec<Radical> = Vec::new();
        let mut k: usize = 0;
        while k < self.radicals.len()
            invariant
                k <= self.radicals@.len(),
                radicals@.len() == k,
                forall|j: int| 0 <= j < k ==> #[trigger] radicals@[j]@ == self.radicals@[j]@,
            decreases self.radicals@.len() - k,
        {
            radicals.push(self.radicals[k].duplicate());
            k = k + 1;
        }
        let res = Card {
            character: self.character.clone(),
            pinyin: self.pinyin.clone(),
            english: self.english.clone(),
            examples,
            radicals,
        };
        assert(res@.examples =~= self@.examples);
        assert(res@.radicals =~= self@.radicals);
        res
    }

    /// Whether the two cards have the same content.
    pub fn same_as(&self, other: &Card) -> (res: bool)
        ensures
            res == (self@ == other@),
    {
        if !text_eq(self.character.as_str(), other.character.as_str()) || !text_eq(
            self.pinyin.as_str(),
            other.pinyin.as_str(),
        ) || !text_eq(self.english.as_str(), other.english.as_str()) {
            return false;
        }
        if self.examples.len() != other.examples.len() || self.radicals.len()
            != other.radicals.len() {
            assert(self@.examples.len() != other@.examples.len() || self@.radicals.len()
                != other@.radicals.len());
            return false;
        }
        let mut i: usize = 0;
        while i < self.examples.len()
            invariant
                self.examples@.len() == other.examples@.len(),
                i <= self.examples@.len(),
                forall|j: int| 0 <= j < i ==> #[trigger] self@.examples[j] == other@.examples[j],
            decreases self.examples@.len() - i,
        {
            if !self.examples[i].same_as(&other.examples[i]) {
                assert(self@.examples[i as int] != other@.examples[i as int]);
                return false;
            }
            i = i + 1;
        }
        assert(self@.examples =~= other@.examples);
        let mut k: usize = 0;
        while k < self.radicals.len()
            invariant
                self.radicals@.len() == other.radicals@.len(),
                k <= self.radicals@.len(),
                forall|j: int| 0 <= j < k ==> #[trigger] self@.radicals[j] == other@.radicals[j],
            decreases self.radicals@.len() - k,
        {
            if !self.radicals[k].same_as(&other.radicals[k]) {
                assert(self@.radicals[k as int] != other@.radicals[k as int]);
                return false;
            }
            k = k + 1;
        }
        assert(self@.radicals =~= other@.radicals);
        true
    }

    /// The number of characters (Unicode scalar values) in the card's headword.
    pub fn char_count(&self) -> (n: usize)
        ensures
            n == self.character@.len(),
    {
        self.character.as_str().unicode_len()
    }
}

/// A copy of a sequence of cards.
pub fn duplicate_cards(v: &Vec<Card>) -> (res: Vec<Card>)
    ensures
        cards_view(res@) == cards_view(v@),
{
    let mut res: Vec<Card> = Vec::new();
    let mut i: usize = 0;
    while i < v.len()
        invariant
            i <= v@.len(),
            res@.len() == i,
            forall|j: int| 0 <= j < i ==> #[trigger] res@[j]@ == v@[j]@,
        decreases v@.len() - i,
    {
        res.push(v[i].duplicate());
        i = i + 1;
    }
    assert(cards_view(res@) =~= cards_view(v@));
    res
}

} // verus!
