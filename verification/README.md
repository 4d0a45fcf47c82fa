# flashcards

A study session over decks of Chinese flashcards, verified with Verus.

- `src/text.rs`: equality and the `String` order on text, with the order's laws.
- `src/card.rs`: cards, example sentences and radicals, and their views.
- `src/decks.rs`: `DeckSet`, a map from deck names to cards.
- `src/session.rs`: the session state machine (`App`, `Msg`), its abstract
  model `AppView`, and the transition function `AppView::step`.
- `src/display.rs`: what a front end draws: key bindings, font sizes, card
  classes, the deck chooser, counters and the cards under the top one.
- `src/laws.rs`: properties of the session proved over `AppView::step`.
- `src/random.rs`: the random draws used by re-queueing and shuffling.
- `app/`: the yew web front end, which reads the deck JSON files and renders.
