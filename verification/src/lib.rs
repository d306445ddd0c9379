//! Flashcards from tagged outlines, with spaced-repetition scheduling.
//!
//! An outline is a tree of headlines, sections, paragraphs and lists. A
//! headline tagged `context` is compiled into a [`org::Document`]; the
//! headlines tagged `card` below it become [`org::FlashCard`]s. Each card
//! carries a [`sr::Stats`] that a review updates, and a
//! [`cards_ui::CardsUI`] runs one review pass over a batch of cards.
//!
//! - [`outline`]: the tree, as an arena.
//! - [`tokenizer`]: from the tokens of a parser to the tree.
//! - [`org`]: documents and cards, and how they are compiled.
//! - [`folding`]: what holds of every compiled document.
//! - [`sr`]: the schedule of one card.
//! - [`cards_ui`]: a review pass.
//! - [`content_ui`]: the content of a document, laid out for reading.
//! - [`files`]: the files that were read, and which to read.
//! - [`database`]: the names of the tables and columns of the store.

pub mod cards_ui;
pub mod content_ui;
pub mod database;
pub mod files;
pub mod folding;
pub mod org;
pub mod outline;
pub mod sr;
pub mod tokenizer;
