use vstd::prelude::*;

use crate::card::{cards_view, duplicate_cards, Card, CardView};
use crate::text::{
    lemma_text_lt_total, lemma_text_lt_transitive, text_eq, text_less,
    text_lt,
};

verus! {

/// The map from deck names to deck contents described by parallel sequences
/// of names and contents; a later entry for a name wins.
pub open spec fn deck_map(ns: Seq<Seq<char>>, ps: Seq<Seq<CardView>>) -> Map<
    Seq<char>,
    Seq<CardView>,
>
    decreases ns.len(),
{
    if ns.len() == 0 {
        Map::empty()
    } else {
        deck_map(ns.drop_last(), ps.drop_last()).insert(ns.last(), ps[ns.len() - 1])
    }
}

/// Names in strictly increasing order.
pub open spec fn strictly_sorted(s: Seq<Seq<char>>) -> bool {
    forall|p: int, q: int| 0 <= p < q < s.len() ==> text_lt(#[trigger] s[p], #[trigger] s[q])
}

/// The character sequences of a sequence of strings.
pub open spec fn strings_view(s: Seq<String>) -> Seq<Seq<char>> {
    s.map_values(|x: String| x@)
}

proof fn lemma_deck_map_dom(ns: Seq<Seq<char>>, ps: Seq<Seq<CardView>>, k: Seq<char>)
    requires
        ns.len() == ps.len(),
    ensures
        deck_map(ns, ps).contains_key(k) <==> ns.contains(k),
    decreases ns.len(),
{
    if ns.len() > 0 {
        lemma_deck_map_dom(ns.drop_last(), ps.drop_last(), k);
        if ns.drop_last().contains(k) {
            let j = choose|j: int| 0 <= j < ns.drop_last().len() && ns.drop_last()[j] == k;
            assert(ns[j] == k);
        }
        if ns.contains(k) && k != ns.last() {
            let j = choose|j: int| 0 <= j < ns.len() && ns[j] == k;
            assert(ns.drop_last()[j] == k);
        }
        if k == ns.last() {
            assert(ns[ns.len() - 1] == k);
        }
    }
}

proof fn lemma_deck_map_at(ns: Seq<Seq<char>>, ps: Seq<Seq<CardView>>, i: int)
    requires
        ns.len() == ps.len(),
        ns.no_duplicates(),
        0 <= i < ns.len(),
    ensures
        deck_map(ns, ps).contains_key(ns[i]),
        deck_map(ns, ps)[ns[i]] == ps[i],
    decreases ns.len(),
{
    if i < ns.len() - 1 {
        assert(ns.drop_last().no_duplicates());
        lemma_deck_map_at(ns.drop_last(), ps.drop_last(), i);
        assert(ns[i] != ns[ns.len() - 1]);
    }
}

proof fn lemma_deck_map_update(
    ns: Seq<Seq<char>>,
    ps: Seq<Seq<CardView>>,
    i: int,
    v: Seq<CardView>,
)
    requires
        ns.len() == ps.len(),
        ns.no_duplicates(),
        0 <= i < ns.len(),
    ensures
        deck_map(ns, ps.update(i, v)) == deck_map(ns, ps).insert(ns[i], v),
    decreases ns.len(),
{
    let n = ns.len();
    if i == n - 1 {
        assert(ps.update(i, v).drop_last() =~= ps.drop_last());
        assert(deck_map(ns, ps.update(i, v)) =~= deck_map(ns, ps).insert(ns[i], v));
    } else {
        assert(ns.drop_last().no_duplicates());
        assert(ps.update(i, v).drop_last() =~= ps.drop_last().update(i, v));
        lemma_deck_map_update(ns.drop_last(), ps.drop_last(), i, v);
        assert(ns[i] != ns[n - 1]);
        assert(deck_map(ns, ps.update(i, v)) =~= deck_map(ns, ps).insert(ns[i], v));
    }
}

/// Removing a value takes out its first occurrence, found at `k`, or
/// nothing when `k` ran past the end.
pub proof fn lemma_remove_value_at<A>(s: Seq<A>, x: A, k: int)
    requires
        0 <= k <= s.len(),
        k < s.len() ==> s[k] == x,
        forall|j: int| 0 <= j < k ==> s[j] != x,
    ensures
        k < s.len() ==> s.remove_value(x) == s.remove(k),
        k == s.len() ==> s.remove_value(x) == s,
{
    s.index_of_first_ensures(x);
    match s.index_of_first(x) {
        Some(idx) => {
            if k == s.len() {
                assert(s[idx] == x);
            } else {
                assert(idx == k);
            }
        },
        None => {
            if k < s.len() {
                assert(s.contains(x));
            }
        },
    }
}

/// Named decks of cards: a map from deck names to their cards.
pub struct DeckSet {
    names: Vec<String>,
    piles: Vec<Vec<Card>>,
}

impl DeckSet {
    /// The names of the decks, in the order they were first added.
    pub closed spec fn names_view(&self) -> Seq<Seq<char>> {
        strings_view(self.names@)
    }

    /// The contents of the decks, in the order of `names_view`.
    pub closed spec fn piles_view(&self) -> Seq<Seq<CardView>> {
        self.piles@.map_values(|v: Vec<Card>| cards_view(v@))
    }

    /// Every name occurs once, and each has its contents.
    pub closed spec fn wf(&self) -> bool {
        &&& self.names@.len() == self.piles@.len()
        &&& self.names_view().no_duplicates()
    }

    /// An empty set of decks.
    pub fn new() -> (res: DeckSet)
        ensures
            res.wf(),
            res@ == Map::<Seq<char>, Seq<CardView>>::empty(),
    {
        let res = DeckSet { names: Vec::new(), piles: Vec::new() };
        assert(res.names_view() =~= Seq::<Seq<char>>::empty());
        res
    }

    /// The position of the deck with this name.
    fn find(&self, name: &str) -> (res: Option<usize>)
        requires
            self.wf(),
        ensures
            match res {
                Some(i) => i < self.names@.len() && self.names_view()[i as int] == name@,
                None => !self.names_view().contains(name@),
            },
    {
        let mut i: usize = 0;
        while i < self.names.len()
            invariant
                self.wf(),
                i <= self.names@.len(),
                forall|j: int| 0 <= j < i ==> self.names_view()[j] != name@,
            decreases self.names@.len() - i,
        {
            if text_eq(self.names[i].as_str(), name) {
                return Some(i);
            }
            i = i + 1;
        }
        None
    }

    proof fn lemma_view_at(&self, i: int)
        requires
            self.wf(),
            0 <= i < self.names@.len(),
        ensures
            self@.contains_key(self.names_view()[i]),
            self@[self.names_view()[i]] == self.piles_view()[i],
    {
        lemma_deck_map_at(self.names_view(), self.piles_view(), i);
    }

    proof fn lemma_view_dom(&self, k: Seq<char>)
        requires
            self.wf(),
        ensures
            self@.contains_key(k) <==> self.names_view().contains(k),
    {
        lemma_deck_map_dom(self.names_view(), self.piles_view(), k);
    }

    /// No deck holds more cards than a `usize` counts.
    pub proof fn lemma_bounded(&self)
        requires
            self.wf(),
        ensures
            forall|k: Seq<char>| #[trigger]
                self@.contains_key(k) ==> self@[k].len() <= usize::MAX,
    {
        assert forall|k: Seq<char>| #[trigger]
            self@.contains_key(k) implies self@[k].len() <= usize::MAX by {
            self.lemma_view_dom(k);
            let i = choose|i: int|
                0 <= i < self.names_view().len() && self.names_view()[i] == k;
            self.lemma_view_at(i);
            assert(self.piles_view()[i] == cards_view(self.piles@[i]@));
            assert(self.piles@[i]@.len() == self.piles@[i].len());
        }
    }

    /// Adds a deck under `name`, replacing the deck of that name if there is one.
    pub fn insert(&mut self, name: String, cards: Vec<Card>)
        requires
            old(self).wf(),
        ensures
            final(self).wf(),
            final(self)@ == old(self)@.insert(name@, cards_view(cards@)),
    {
        match self.find(name.as_str()) {
            Some(i) => {
                let ghost old_piles = self.piles_view();
                self.piles.set(i, cards);
                assert(self.piles_view() =~= old_piles.update(i as int, cards_view(cards@)));
                proof {
                    lemma_deck_map_update(self.names_view(), old_piles, i as int, cards_view(cards@));
                }
            },
            None => {
                let ghost old_names = self.names_view();
                let ghost old_piles = self.piles_view();
                let ghost k = name@;
                self.names.push(name);
                self.piles.push(cards);
                assert(self.names_view() =~= old_names.push(k));
                assert(self.piles_view() =~= old_piles.push(cards_view(cards@)));
                assert(self.names_view().drop_last() =~= old_names);
                assert(self.piles_view().drop_last() =~= old_piles);
                assert forall|p: int, q: int|
                    0 <= p < self.names_view().len() && 0 <= q < self.names_view().len() && p
                        != q implies self.names_view()[p] != self.names_view()[q] by {
                    if p == old_names.len() {
                        assert(old_names.contains(old_names[q]));
                    } else if q == old_names.len() {
                        assert(old_names.contains(old_names[p]));
                    }
                }
            },
        }
    }

    /// Whether there is a deck with this name.
    pub fn contains(&self, name: &str) -> (res: bool)
        requires
            self.wf(),
        ensures
            res == self@.contains_key(name@),
    {
        proof {
            self.lemma_view_dom(name@);
        }
        self.find(name).is_some()
    }

    /// The number of cards in the deck with this name.
    pub fn deck_len(&self, name: &str) -> (n: usize)
        requires
            self.wf(),
            self@.contains_key(name@),
        ensures
            n == self@[name@].len(),
    {
        proof {
            self.lemma_view_dom(name@);
        }
        let i = self.find(name).unwrap();
        proof {
            self.lemma_view_at(i as int);
        }
        self.piles[i].len()
    }

    /// A copy of the cards of the deck with this name.
    pub fn cards_of(&self, name: &str) -> (res: Vec<Card>)
        requires
            self.wf(),
            self@.contains_key(name@),
        ensures
            cards_view(res@) == self@[name@],
    {
        proof {
            self.lemma_view_dom(name@);
        }
        let i = self.find(name).unwrap();
        proof {
            self.lemma_view_at(i as int);
        }
        duplicate_cards(&self.piles[i])
    }
    /// Takes the cards of deck `i` out, leaving it empty in place.
    fn take_pile(&mut self, i: usize) -> (pile: Vec<Card>)
        requires
            old(self).wf(),
            i < old(self).names@.len(),
        ensures
            final(self).wf(),
            final(self).names@ == old(self).names@,
            final(self)@ == old(self)@.insert(old(self).names_view()[i as int], Seq::empty()),
            pile == old(self).piles@[i as int],
    {
        let ghost old_piles = self.piles_view();
        let mut pile: Vec<Card> = Vec::new();
        assert(cards_view(pile@) =~= Seq::<CardView>::empty());
        self.piles.set_and_swap(i, &mut pile);
        assert(self.piles_view() =~= old_piles.update(i as int, Seq::empty()));
        proof {
            lemma_deck_map_update(self.names_view(), old_piles, i as int, Seq::empty());
        }
        pile
    }

    /// Puts `pile` back as the cards of deck `i`.
    fn put_pile(&mut self, i: usize, pile: Vec<Card>)
        requires
            old(self).wf(),
            i < old(self).names@.len(),
        ensures
            final(self).wf(),
            final(self)@ == old(self)@.insert(old(self).names_view()[i as int], cards_view(pile@)),
    {
        let ghost old_piles = self.piles_view();
        let ghost v = cards_view(pile@);
        self.piles.set(i, pile);
        assert(self.piles_view() =~= old_piles.update(i as int, v));
        proof {
            lemma_deck_map_update(self.names_view(), old_piles, i as int, v);
        }
    }

    /// Removes the first card with the content of `card` from the deck with
    /// this name; the deck stays as it is when it holds no such card.
    pub fn remove_one(&mut self, name: &str, card: &Card)
        requires
            old(self).wf(),
            old(self)@.contains_key(name@),
        ensures
            final(self).wf(),
            final(self)@ == old(self)@.insert(name@, old(self)@[name@].remove_value(card@)),
    {
        proof {
            self.lemma_view_dom(name@);
        }
        let i = self.find(name).unwrap();
        proof {
            self.lemma_view_at(i as int);
        }
        let ghost before = self@;
        let ghost d = before[name@];
        let mut pile = self.take_pile(i);
        assert(cards_view(pile@) == d);
        let mut k: usize = 0;
        while k < pile.len() && !pile[k].same_as(card)
            invariant
                cards_view(pile@) == d,
                k <= d.len(),
                forall|j: int| 0 <= j < k ==> d[j] != card@,
            decreases d.len() - k,
        {
            k = k + 1;
        }
        proof {
            lemma_remove_value_at(d, card@, k as int);
        }
        if k < pile.len() {
            pile.remove(k);
            assert(cards_view(pile@) =~= d.remove(k as int));
        }
        let ghost after = cards_view(pile@);
        assert(after == d.remove_value(card@));
        self.put_pile(i, pile);
        assert(self@ =~= before.insert(name@, after));
    }

    /// Inserts `card` at `pos` into the deck with this name.
    pub fn insert_card(&mut self, name: &str, pos: usize, card: Card)
        requires
            old(self).wf(),
            old(self)@.contains_key(name@),
            pos <= old(self)@[name@].len(),
        ensures
            final(self).wf(),
            final(self)@ == old(self)@.insert(name@, old(self)@[name@].insert(pos as int, card@)),
    {
        proof {
            self.lemma_view_dom(name@);
        }
        let i = self.find(name).unwrap();
        proof {
            self.lemma_view_at(i as int);
        }
        let ghost before = self@;
        let ghost c = card@;
        let mut pile = self.take_pile(i);
        pile.insert(pos, card);
        let ghost after = cards_view(pile@);
        assert(after =~= before[name@].insert(pos as int, c));
        self.put_pile(i, pile);
        assert(self@ =~= before.insert(name@, after));
    }

    /// Appends `card` to the deck with this name.
    pub fn push_card(&mut self, name: &str, card: Card)
        requires
            old(self).wf(),
            old(self)@.contains_key(name@),
        ensures
            final(self).wf(),
            final(self)@ == old(self)@.insert(name@, old(self)@[name@].push(card@)),
    {
        proof {
            self.lemma_view_dom(name@);
        }
        let i = self.find(name).unwrap();
        proof {
            self.lemma_view_at(i as int);
        }
        let ghost before = self@;
        let ghost c = card@;
        let mut pile = self.take_pile(i);
        pile.push(card);
        let ghost after = cards_view(pile@);
        assert(after =~= before[name@].push(c));
        self.put_pile(i, pile);
        assert(self@ =~= before.insert(name@, after));
    }
    /// The deck names in increasing order (the order of `String`'s `Ord`).
    pub fn sorted_names(&self) -> (res: Vec<String>)
        requires
            self.wf(),
        ensures
            strictly_sorted(strings_view(res@)),
            forall|k: Seq<char>|
                self@.contains_key(k) <==> #[trigger] strings_view(res@).contains(k),
    {
        let ghost ns = self.names_view();
        let mut res: Vec<String> = Vec::new();
        let mut i: usize = 0;
        assert(strings_view(res@) =~= Seq::<Seq<char>>::empty());
        while i < self.names.len()
            invariant
                self.wf(),
                ns == self.names_view(),
                i <= ns.len(),
                strictly_sorted(strings_view(res@)),
                forall|k: Seq<char>|
                    #[trigger] strings_view(res@).contains(k) <==> ns.take(i as int).contains(k),
            decreases ns.len() - i,
        {
            let ghost rv = strings_view(res@);
            let name = &self.names[i];
            let mut pos: usize = 0;
            while pos < res.len() && text_less(res[pos].as_str(), name.as_str())
                invariant
                    rv == strings_view(res@),
                    pos <= rv.len(),
                    forall|p: int| 0 <= p < pos ==> text_lt(rv[p], name@),
                decreases rv.len() - pos,
            {
                pos = pos + 1;
            }
            proof {
                if pos < rv.len() {
                    assert(rv.contains(rv[pos as int]));
                    assert(ns.take(i as int).contains(rv[pos as int]));
                    let j = choose|j: int|
                        0 <= j < ns.take(i as int).len() && ns.take(i as int)[j] == rv[pos as int];
                    assert(ns[j] != ns[i as int]);
                    assert(ns[i as int] == name@);
                    lemma_text_lt_total(rv[pos as int], name@, 0);
                }
            }
            res.insert(pos, name.clone());
            let ghost rv2 = strings_view(res@);
            assert(rv2 =~= rv.insert(pos as int, name@));
            assert forall|p: int, q: int| 0 <= p < q < rv2.len() implies text_lt(
                #[trigger] rv2[p],
                #[trigger] rv2[q],
            ) by {
                if q < pos {
                } else if q == pos {
                } else if p < pos {
                    assert(text_lt(rv[p], name@));
                    assert(text_lt(name@, rv[pos as int]));
                    lemma_text_lt_transitive(rv[p], name@, rv[pos as int], 0);
                    if q - 1 > pos {
                        lemma_text_lt_transitive(rv[p], rv[pos as int], rv[q - 1], 0);
                    }
                } else if p == pos {
                    if q - 1 > pos {
                        lemma_text_lt_transitive(name@, rv[pos as int], rv[q - 1], 0);
                    }
                } else {
                    assert(rv2[p] == rv[p - 1]);
                    assert(rv2[q] == rv[q - 1]);
                }
            }
            let ghost t0 = ns.take(i as int);
            let ghost t1 = ns.take(i + 1);
            assert(t1 =~= t0.push(name@));
            assert forall|k: Seq<char>| #[trigger]
                rv2.contains(k) <==> t1.contains(k) by {
                if rv2.contains(k) {
                    let p = choose|p: int| 0 <= p < rv2.len() && rv2[p] == k;
                    if p < pos {
                        assert(rv.contains(rv[p]));
                    } else if p > pos {
                        assert(rv.contains(rv[p - 1]));
                    }
                    if k != name@ {
                        assert(rv.contains(k));
                        let j = choose|j: int|
                            0 <= j < t0.len() && t0[j] == k;
                        assert(t1[j] == k);
                    } else {
                        assert(t1[i as int] == k);
                    }
                }
                if t1.contains(k) {
                    let j = choose|j: int| 0 <= j < t1.len() && t1[j] == k;
                    if j < i {
                        assert(t0[j] == k);
                        assert(rv.contains(k));
                        let p = choose|p: int| 0 <= p < rv.len() && rv[p] == k;
                        if p < pos {
                            assert(rv2[p] == k);
                        } else {
                            assert(rv2[p + 1] == k);
                        }
                    } else {
                        assert(rv2[pos as int] == k);
                    }
                }
            }
            i = i + 1;
        }
        proof {
            assert(ns.take(ns.len() as int) =~= ns);
            assert forall|k: Seq<char>|
                self@.contains_key(k) <==> #[trigger] strings_view(res@).contains(k) by {
                self.lemma_view_dom(k);
            }
        }
        res
    }
}

impl View for DeckSet {
    type V = Map<Seq<char>, Seq<CardView>>;

    closed spec fn view(&self) -> Map<Seq<char>, Seq<CardView>> {
        deck_map(self.names_view(), self.piles_view())
    }
}

} // verus!
