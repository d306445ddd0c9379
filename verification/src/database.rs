//! The tables of the store and their columns, by name.
//!
//! Documents are kept as `documents(id, title, content)`, cards as
//! `flashcards(id, document, questions, answers, difficulty, repetitions,
//! intervals, created_at, scheduled_at)`, and the files that were read as
//! `files(id, name, path)`.

use vstd::prelude::*;

verus! {

/// The table of documents and its columns.
#[derive(Debug, Clone, Copy, PartialEq, Eq, Structural)]
pub enum Documents {
    Table,
    Id,
    Title,
    Content,
}

/// The table of cards and its columns.
#[derive(Debug, Clone, Copy, PartialEq, Eq, Structural)]
pub enum FlashCards {
    Table,
    Id,
    DocId,
    Questions,
    Answers,
    Interval,
    Reps,
    Difficulty,
    Created,
    Scheduled,
}

/// The table of files and its columns.
#[derive(Debug, Clone, Copy, PartialEq, Eq, Structural)]
pub enum Files {
    Id,
    Table,
    Name,
    Path,
}

impl Documents {
    /// The name in the store.
    pub open spec fn name(self) -> Seq<char> {
        match self {
            Documents::Table => "documents"@,
            Documents::Id => "id"@,
            Documents::Title => "title"@,
            Documents::Content => "content"@,
        }
    }

    /// The name in the store, without quotes.
    pub fn unquoted(&self) -> (name: &'static str)
        ensures
            name@ == self.name(),
    {
        match self {
            Documents::Table => "documents",
            Documents::Id => "id",
            Documents::Title => "title",
            Documents::Content => "content",
        }
    }
}

impl FlashCards {
    /// The name in the store.
    pub open spec fn name(self) -> Seq<char> {
        match self {
            FlashCards::Table => "flashcards"@,
            FlashCards::Id => "id"@,
            FlashCards::DocId => "document"@,
            FlashCards::Questions => "questions"@,
            FlashCards::Answers => "answers"@,
            FlashCards::Difficulty => "difficulty"@,
            FlashCards::Reps => "repetitions"@,
            FlashCards::Interval => "intervals"@,
            FlashCards::Created => "created_at"@,
            FlashCards::Scheduled => "scheduled_at"@,
        }
    }

    /// The name in the store, without quotes.
    pub fn unquoted(&self) -> (name: &'static str)
        ensures
            name@ == self.name(),
    {
        match self {
            FlashCards::Table => "flashcards",
            FlashCards::Id => "id",
            FlashCards::DocId => "document",
            FlashCards::Questions => "questions",
            FlashCards::Answers => "answers",
            FlashCards::Difficulty => "difficulty",
            FlashCards::Reps => "repetitions",
            FlashCards::Interval => "intervals",
            FlashCards::Created => "created_at",
            FlashCards::Scheduled => "scheduled_at",
        }
    }
}

impl Files {
    /// The name in the store.
    pub open spec fn name(self) -> Seq<char> {
        match self {
            Files::Id => "id"@,
            Files::Table => "files"@,
            Files::Name => "name"@,
            Files::Path => "path"@,
        }
    }

    /// The name in the store, without quotes.
    pub fn unquoted(&self) -> (name: &'static str)
        ensures
            name@ == self.name(),
    {
        match self {
            Files::Id => "id",
            Files::Table => "files",
            Files::Name => "name",
            Files::Path => "path",
        }
    }
}

} // verus!
