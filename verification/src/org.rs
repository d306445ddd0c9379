//! Documents and flashcards, and how an outline is compiled into them.
//!
//! A headline tagged `context` becomes a [`Document`]: its own heading, the
//! text of its section and the headings and sections below it make up the
//! content. A headline tagged `card` below it is not rendered: its title is
//! the question of a new [`FlashCard`], and the titles of the headlines
//! nested in it are joined into the answer.

use crate::outline::{has_tag, is_tagged, Kind, Outline, OutlineError};
use crate::sr::Stats;
use vstd::prelude::*;

verus! {

/// A question with its answer, and when to ask it next.
#[derive(Debug, Clone)]
pub struct FlashCard {
    id: i64,
    doc_id: i64,
    questions: String,
    answers: String,
    stats: Stats,
    created: i64,
    scheduled: i64,
}

/// A compiled context: its title, its text, and the cards found in it.
#[derive(Debug, Clone)]
pub struct Document {
    id: i64,
    title: String,
    content: String,
    cards: Vec<FlashCard>,
}

/// What a [`FlashCard`] holds.
pub struct CardView {
    pub id: int,
    pub doc_id: int,
    pub question: Seq<char>,
    pub answer: Seq<char>,
    pub stats: Stats,
    /// The day the card was made, as a day number.
    pub created: int,
    /// The day of the next review, as a day number.
    pub scheduled: int,
}

/// What a [`Document`] holds.
pub struct DocView {
    pub id: int,
    pub title: Seq<char>,
    pub content: Seq<char>,
    pub cards: Seq<CardView>,
}

impl View for FlashCard {
    type V = CardView;

    closed spec fn view(&self) -> CardView {
        CardView {
            id: self.id as int,
            doc_id: self.doc_id as int,
            question: self.questions@,
            answer: self.answers@,
            stats: self.stats,
            created: self.created as int,
            scheduled: self.scheduled as int,
        }
    }
}

/// The views of `cards`, in order.
pub open spec fn card_views(cards: Seq<FlashCard>) -> Seq<CardView> {
    Seq::new(cards.len(), |i: int| cards[i]@)
}

impl View for Document {
    type V = DocView;

    closed spec fn view(&self) -> DocView {
        DocView {
            id: self.id as int,
            title: self.title@,
            content: self.content@,
            cards: card_views(self.cards@),
        }
    }
}

/// `n` times the character `c`.
pub open spec fn repeated_char(c: char, n: nat) -> Seq<char> {
    Seq::new(n, |i: int| c)
}

/// How many line breaks end a paragraph: one more than its blank lines, or
/// none for text inside a paragraph.
pub open spec fn line_breaks(blank: Option<usize>) -> nat {
    match blank {
        Some(b) => (b + 1) as nat,
        None => 0,
    }
}

/// The text of the children of the paragraph `id` from the `from`-th on:
/// plain text as it is, bold text between two `*`.
pub open spec fn inline_text(o: Outline, id: int, from: int) -> Seq<char>
    decreases o.nodes@.len() - id, 0int, o.arity(id) - from,
{
    if 0 <= id < o.nodes@.len() && 0 <= from < o.arity(id) {
        let c = o.child(id, from);
        let piece = if id < c < o.nodes@.len() {
            match o.nodes@[c].kind {
                Kind::Text { value } => value@,
                Kind::Bold => "*"@ + paragraph_text(o, c, None) + "*"@,
                _ => Seq::empty(),
            }
        } else {
            Seq::empty()
        };
        piece + inline_text(o, id, from + 1)
    } else {
        Seq::empty()
    }
}

/// The text of the paragraph `id`, ended by [`line_breaks`] line breaks.
pub open spec fn paragraph_text(o: Outline, id: int, blank: Option<usize>) -> Seq<char>
    decreases o.nodes@.len() - id, 1int, 0int,
{
    if 0 <= id < o.nodes@.len() {
        inline_text(o, id, 0) + repeated_char('\n', line_breaks(blank))
    } else {
        Seq::empty()
    }
}

/// The text of the children of the list or list item `id` from the
/// `from`-th on. An item is its indent, its bullet, and what it holds,
/// followed by the blank lines of the list it stands in.
pub open spec fn list_items_text(o: Outline, id: int, from: int, post_blank: usize) -> Seq<char>
    decreases o.nodes@.len() - id, 2int, o.arity(id) - from,
{
    if 0 <= id < o.nodes@.len() && 0 <= from < o.arity(id) {
        let c = o.child(id, from);
        let piece = if id < c < o.nodes@.len() {
            match o.nodes@[c].kind {
                Kind::List { post_blank: inner } => list_text(o, c, inner),
                Kind::ListItem { indent, bullet } => repeated_char(' ', indent as nat) + bullet@
                    + list_text(o, c, post_blank),
                Kind::Paragraph { post_blank: inner } => paragraph_text(o, c, Some(inner)),
                _ => Seq::empty(),
            }
        } else {
            Seq::empty()
        };
        piece + list_items_text(o, id, from + 1, post_blank)
    } else {
        Seq::empty()
    }
}

/// The text of the list or list item `id`, followed by `post_blank` line
/// breaks.
pub open spec fn list_text(o: Outline, id: int, post_blank: usize) -> Seq<char>
    decreases o.nodes@.len() - id, 3int, 0int,
{
    if 0 <= id < o.nodes@.len() {
        list_items_text(o, id, 0, post_blank) + repeated_char('\n', post_blank as nat)
    } else {
        Seq::empty()
    }
}

/// The text of the children of the section `id` from the `from`-th on.
pub open spec fn section_parts_text(o: Outline, id: int, from: int) -> Seq<char>
    decreases o.nodes@.len() - id, 4int, o.arity(id) - from,
{
    if 0 <= id < o.nodes@.len() && 0 <= from < o.arity(id) {
        let c = o.child(id, from);
        let piece = if id < c < o.nodes@.len() {
            section_text(o, c)
        } else {
            Seq::empty()
        };
        piece + section_parts_text(o, id, from + 1)
    } else {
        Seq::empty()
    }
}

/// The text of the node `id` where it is a section, a paragraph or a list;
/// nothing for any other node.
pub open spec fn section_text(o: Outline, id: int) -> Seq<char>
    decreases o.nodes@.len() - id, 5int, 0int,
{
    if 0 <= id < o.nodes@.len() {
        match o.nodes@[id].kind {
            Kind::Section => section_parts_text(o, id, 0),
            Kind::Paragraph { post_blank } => paragraph_text(o, id, Some(post_blank)),
            Kind::List { post_blank } => list_text(o, id, post_blank),
            _ => Seq::empty(),
        }
    } else {
        Seq::empty()
    }
}

/// `d` with `text` added at the end of its content.
pub open spec fn append_content(d: DocView, text: Seq<char>) -> DocView {
    DocView { content: d.content + text, ..d }
}

/// The index of the card that titles are folded into, if any.
pub open spec fn fold_target(fold: Option<usize>) -> Option<int> {
    match fold {
        Some(i) => Some(i as int),
        None => None,
    }
}

/// A card that was just made from a title: the question is the title's
/// text, everything else is empty.
pub open spec fn fresh_card(question: Seq<char>) -> CardView {
    CardView {
        id: 0,
        doc_id: 0,
        question,
        answer: Seq::empty(),
        stats: Stats { interval: 0, repetitions: 0, difficulty: crate::sr::MIN_DIFFICULTY },
        created: 0,
        scheduled: 0,
    }
}

/// `d` with a fresh card for `question` added at the end of its cards.
pub open spec fn push_card(d: DocView, question: Seq<char>) -> DocView {
    DocView { cards: d.cards.push(fresh_card(question)), ..d }
}

/// `card` with `fragment` and a comma added at the end of its answer.
pub open spec fn with_fragment(card: CardView, fragment: Seq<char>) -> CardView {
    CardView { answer: card.answer + fragment + ", "@, ..card }
}

/// `d` with `fragment` folded into the answer of its `i`-th card. With no
/// such card `d` stays as it is.
pub open spec fn fold_answer(d: DocView, i: int, fragment: Seq<char>) -> DocView {
    if 0 <= i < d.cards.len() {
        DocView { cards: d.cards.update(i, with_fragment(d.cards[i], fragment)), ..d }
    } else {
        d
    }
}

/// A heading as a line of text: `level` stars, a space, the text.
pub open spec fn heading_line(level: usize, raw: Seq<char>) -> Seq<char> {
    repeated_char('*', level as nat) + " "@ + raw + "\n"@
}

/// What the title `raw` of a headline at `level` adds to `d`: a fragment of
/// the answer of the card that is folded into, or else a heading line of
/// the content.
pub open spec fn with_title(d: DocView, level: usize, fold: Option<int>, raw: Seq<char>) -> DocView {
    match fold {
        Some(i) => fold_answer(d, i, raw),
        None => append_content(d, heading_line(level, raw)),
    }
}

/// `d` after the children of the headline `id` from the `from`-th on.
///
/// A section adds its text to the content. A nested headline is walked in
/// turn, at its own level. The title adds what [`with_title`] says, unless
/// it is tagged `card`: then the headline is a card, see [`with_cards`], and
/// nothing else of it is rendered.
pub open spec fn with_headline_from(
    o: Outline,
    id: int,
    from: int,
    level: usize,
    fold: Option<int>,
    d: DocView,
) -> DocView
    decreases o.nodes@.len() - id, 2int, o.arity(id) - from,
{
    if 0 <= id < o.nodes@.len() && 0 <= from < o.arity(id) {
        let c = o.child(id, from);
        if id < c < o.nodes@.len() {
            match o.nodes@[c].kind {
                Kind::Section => with_headline_from(
                    o,
                    id,
                    from + 1,
                    level,
                    fold,
                    append_content(d, section_text(o, c)),
                ),
                Kind::Headline { level: inner } => with_headline_from(
                    o,
                    id,
                    from + 1,
                    level,
                    fold,
                    with_headline(o, c, inner, fold, d),
                ),
                Kind::Title { raw, tags } => if has_tag(tags@, "card"@) {
                    with_cards(o, id, d)
                } else {
                    with_headline_from(o, id, from + 1, level, fold, with_title(d, level, fold, raw@))
                },
                _ => with_headline_from(o, id, from + 1, level, fold, d),
            }
        } else {
            with_headline_from(o, id, from + 1, level, fold, d)
        }
    } else {
        d
    }
}

/// `d` after the headline `id`, rendered at `level`: headings and sections
/// go to the content, or, with a `fold` target, headings go to the answer of
/// that card.
pub open spec fn with_headline(o: Outline, id: int, level: usize, fold: Option<int>, d: DocView) -> DocView
    decreases o.nodes@.len() - id, 3int, 0int,
{
    if 0 <= id < o.nodes@.len() {
        with_headline_from(o, id, 0, level, fold, d)
    } else {
        d
    }
}

/// `d` after the children of the card headline `id` from the `from`-th on.
///
/// The title starts a new card. A nested headline is folded into the card
/// that was made last.
pub open spec fn with_cards_from(o: Outline, id: int, from: int, d: DocView) -> DocView
    decreases o.nodes@.len() - id, 0int, o.arity(id) - from,
{
    if 0 <= id < o.nodes@.len() && 0 <= from < o.arity(id) {
        let c = o.child(id, from);
        if id < c < o.nodes@.len() {
            match o.nodes@[c].kind {
                Kind::Title { raw, tags } => with_cards_from(o, id, from + 1, push_card(d, raw@)),
                Kind::Headline { level } => with_cards_from(
                    o,
                    id,
                    from + 1,
                    with_headline(o, c, level, Some(d.cards.len() - 1), d),
                ),
                _ => with_cards_from(o, id, from + 1, d),
            }
        } else {
            with_cards_from(o, id, from + 1, d)
        }
    } else {
        d
    }
}

/// `d` after the card headline `id`.
pub open spec fn with_cards(o: Outline, id: int, d: DocView) -> DocView
    decreases o.nodes@.len() - id, 1int, 0int,
{
    if 0 <= id < o.nodes@.len() {
        with_cards_from(o, id, 0, d)
    } else {
        d
    }
}

/// `d` after the node `id` below a context, looking at the children of
/// `id` from the `from`-th on: a headline tagged `card` is a card, any other
/// headline is rendered at level 2, and a node without title adds nothing.
pub open spec fn with_child_from(o: Outline, id: int, from: int, d: DocView) -> DocView
    decreases o.arity(id) - from,
{
    if 0 <= id < o.nodes@.len() && 0 <= from < o.arity(id) {
        let c = o.child(id, from);
        let next = if id < c < o.nodes@.len() {
            match o.nodes@[c].kind {
                Kind::Title { raw, tags } => if has_tag(tags@, "card"@) {
                    with_cards(o, id, d)
                } else {
                    with_headline(o, id, 2, None, d)
                },
                _ => d,
            }
        } else {
            d
        };
        with_child_from(o, id, from + 1, next)
    } else {
        d
    }
}

/// `d` after each child of the headline `id` from the `from`-th on, see
/// [`with_child_from`].
pub open spec fn with_children_from(o: Outline, id: int, from: int, d: DocView) -> DocView
    decreases o.arity(id) - from,
{
    if 0 <= id < o.nodes@.len() && 0 <= from < o.arity(id) {
        let c = o.child(id, from);
        let next = if id < c < o.nodes@.len() {
            with_child_from(o, c, 0, d)
        } else {
            d
        };
        with_children_from(o, id, from + 1, next)
    } else {
        d
    }
}

/// Whether the node `id` is a context: its first child is a title tagged
/// `context`.
pub open spec fn is_context(o: Outline, id: int) -> bool {
    &&& 0 <= id < o.nodes@.len()
    &&& o.arity(id) > 0
    &&& id < o.child(id, 0) < o.nodes@.len()
    &&& o.nodes@[o.child(id, 0)].kind.tagged("context"@)
}

/// The text of the title of the headline `id`.
pub open spec fn title_of(o: Outline, id: int) -> Seq<char> {
    match o.nodes@[o.child(id, 0)].kind {
        Kind::Title { raw, tags } => raw@,
        _ => Seq::empty(),
    }
}

/// The first line of the content of a context titled `raw`.
pub open spec fn context_line(raw: Seq<char>) -> Seq<char> {
    "* "@ + raw + " :context:"@ + "\n"@
}

/// The text of the section of the headline `id`: of its second child, if
/// that is a section.
pub open spec fn own_section_text(o: Outline, id: int) -> Seq<char> {
    if o.arity(id) > 1 && id < o.child(id, 1) < o.nodes@.len() && o.nodes@[o.child(
        id,
        1,
    )].kind is Section {
        section_text(o, o.child(id, 1))
    } else {
        Seq::empty()
    }
}

/// `d` after the headline `id` where it is a context: the title is added
/// to the title of `d`, the content gets the context line and the text of
/// the headline's own section, and then come the children. Any other node
/// leaves `d` as it is.
pub open spec fn with_context(o: Outline, id: int, d: DocView) -> DocView {
    if is_context(o, id) {
        let raw = title_of(o, id);
        let opened = DocView {
            title: d.title + raw,
            content: d.content + context_line(raw) + own_section_text(o, id),
            ..d
        };
        with_children_from(o, id, 0, opened)
    } else {
        d
    }
}

/// A document that holds nothing yet.
pub open spec fn empty_doc() -> DocView {
    DocView { id: 0, title: Seq::empty(), content: Seq::empty(), cards: Seq::empty() }
}

/// `cards`, each with `id` as its document.
pub open spec fn owned_by(cards: Seq<CardView>, id: int) -> Seq<CardView> {
    Seq::new(cards.len(), |i: int| CardView { doc_id: id, ..cards[i] })
}

/// The documents of the children of the root from the `from`-th on: one
/// for each child that is a context, in order.
pub open spec fn compiled_from(o: Outline, from: int) -> Seq<DocView>
    decreases o.arity(0) - from,
{
    if 0 < o.nodes@.len() && 0 <= from < o.arity(0) {
        let c = o.child(0, from);
        let first = if is_context(o, c) {
            seq![with_context(o, c, empty_doc())]
        } else {
            Seq::empty()
        };
        first + compiled_from(o, from + 1)
    } else {
        Seq::empty()
    }
}

/// The documents of an outline: one for each context among the children of
/// its root, the node at position 0.
pub open spec fn compiled(o: Outline) -> Seq<DocView> {
    compiled_from(o, 0)
}

/// The views of `docs`, in order.
pub open spec fn doc_views(docs: Seq<Document>) -> Seq<DocView> {
    Seq::new(docs.len(), |i: int| docs[i]@)
}

/// Whether the node `id` is a context, see [`is_context`].
pub fn is_context_headline(outline: &Outline, id: usize) -> (b: bool)
    requires
        outline.wf(),
        id < outline.nodes@.len(),
    ensures
        b == is_context(*outline, id as int),
{
    if outline.nodes[id].children.len() == 0 {
        return false;
    }
    assert(outline.links_forward(id as int));
    let title = outline.nodes[id].children[0];
    assert(title == outline.child(id as int, 0));
    match &outline.nodes[title].kind {
        Kind::Title { raw, tags } => is_tagged(tags, "context"),
        _ => false,
    }
}

/// Compiles each context among the children of the root into a document of
/// its own, in order. An outline with a fault is refused.
pub fn compile(outline: &Outline) -> (r: Result<Vec<Document>, OutlineError>)
    ensures
        match r {
            Ok(docs) => outline.fault() is None && doc_views(docs@) == compiled(*outline),
            Err(e) => outline.fault() == Some(e),
        },
{
    match outline.check() {
        Err(e) => {
            return Err(e);
        },
        Ok(_) => {},
    }
    let mut docs: Vec<Document> = Vec::new();
    if outline.nodes.len() == 0 {
        assert(doc_views(docs@) =~= compiled(*outline));
        return Ok(docs);
    }
    let n = outline.nodes[0].children.len();
    let mut j: usize = 0;
    assert(doc_views(docs@) + compiled_from(*outline, 0) =~= compiled(*outline));
    while j < n
        invariant
            j <= n,
            outline.wf(),
            outline.titled(),
            0 < outline.nodes@.len(),
            n == outline.arity(0),
            doc_views(docs@) + compiled_from(*outline, j as int) == compiled(*outline),
        decreases n - j,
    {
        let c = outline.nodes[0].children[j];
        assert(outline.links_forward(0));
        assert(c == outline.child(0, j as int));
        let ghost before = doc_views(docs@);
        let ghost rest = compiled_from(*outline, j + 1);
        if is_context_headline(outline, c) {
            let mut doc = Document::new();
            doc.handle_context(outline, c);
            let ghost made = doc@;
            docs.push(doc);
            assert(doc_views(docs@) =~= before + seq![made]);
            assert(doc_views(docs@) + rest =~= before + (seq![made] + rest));
        } else {
            assert(doc_views(docs@) + rest =~= before + (Seq::<DocView>::empty() + rest));
        }
        j += 1;
    }
    assert(doc_views(docs@) =~= compiled(*outline));
    Ok(docs)
}

/// Adds `n` times the character `c` to `text`. `piece` is that character as
/// a string.
pub(crate) fn push_repeated(text: &mut String, piece: &str, c: char, n: usize)
    requires
        piece@ == seq![c],
    ensures
        final(text)@ == old(text)@ + repeated_char(c, n as nat),
{
    let mut k: usize = 0;
    assert(text@ =~= old(text)@ + repeated_char(c, 0));
    while k < n
        invariant
            k <= n,
            piece@ == seq![c],
            text@ == old(text)@ + repeated_char(c, k as nat),
        decreases n - k,
    {
        text.append(piece);
        assert(text@ =~= old(text)@ + repeated_char(c, (k + 1) as nat));
        k += 1;
    }
}

impl FlashCard {
    /// A card with nothing in it.
    pub fn new() -> (card: Self)
        ensures
            card@ == fresh_card(Seq::empty()),
    {
        FlashCard {
            id: 0,
            doc_id: 0,
            questions: String::new(),
            answers: String::new(),
            stats: Stats::new(),
            created: 0,
            scheduled: 0,
        }
    }

    /// A card as it was stored. `created` and `scheduled` are day numbers.
    pub fn from_db(
        questions: &str,
        answers: &str,
        id: i64,
        doc_id: i64,
        stats: Stats,
        created: i64,
        scheduled: i64,
    ) -> (card: Self)
        ensures
            card@ == (CardView {
                id: id as int,
                doc_id: doc_id as int,
                question: questions@,
                answer: answers@,
                stats,
                created: created as int,
                scheduled: scheduled as int,
            }),
    {
        FlashCard {
            id,
            doc_id,
            questions: String::from_str(questions),
            answers: String::from_str(answers),
            stats,
            created,
            scheduled,
        }
    }

    /// Adds `question` at the end of the question.
    pub fn add_question(&mut self, question: &str)
        ensures
            final(self)@ == (CardView { question: old(self)@.question + question@, ..old(self)@ }),
    {
        self.questions.append(question);
    }

    /// Adds `answer` and a comma at the end of the answer.
    pub fn add_answer(&mut self, answer: &str)
        ensures
            final(self)@ == with_fragment(old(self)@, answer@),
    {
        self.answers.append(answer);
        self.answers.append(", ");
    }

    /// The card's number in the store; 0 until it is stored.
    pub fn get_id(&self) -> (id: i64)
        ensures
            id == self@.id,
    {
        self.id
    }

    /// The number of the document that the card belongs to.
    pub fn get_doc_id(&self) -> (id: i64)
        ensures
            id == self@.doc_id,
    {
        self.doc_id
    }

    /// The question.
    pub fn get_questions(&self) -> (text: &str)
        ensures
            text@ == self@.question,
    {
        self.questions.as_str()
    }

    /// The answer: the fragments that were folded into it, each ended by
    /// a comma.
    pub fn get_answers(&self) -> (text: &str)
        ensures
            text@ == self@.answer,
    {
        self.answers.as_str()
    }

    /// The scheduling state.
    pub fn get_stats(&self) -> (stats: &Stats)
        ensures
            *stats == self@.stats,
    {
        &self.stats
    }

    /// The scheduling state, to be changed in place.
    pub fn get_stats_mut(&mut self) -> (stats: &mut Stats)
        ensures
            *stats == old(self)@.stats,
            final(self)@ == (CardView { stats: *final(stats), ..old(self)@ }),
    {
        &mut self.stats
    }

    /// Sets the day of the next review to `today` plus the interval.
    pub fn reschedule(&mut self, today: i64)
        ensures
            final(self)@ == (CardView {
                scheduled: crate::sr::due_day(today as int, old(self)@.stats.interval as int),
                ..old(self)@
            }),
    {
        self.scheduled = self.stats.due(today);
    }

    /// The day the card was made, as a day number.
    pub fn get_created(&self) -> (day: i64)
        ensures
            day == self@.created,
    {
        self.created
    }

    /// The day of the next review, as a day number.
    pub fn get_scheduled(&self) -> (day: i64)
        ensures
            day == self@.scheduled,
    {
        self.scheduled
    }
}

impl Document {
    /// A document that holds nothing yet.
    pub fn new() -> (doc: Self)
        ensures
            doc@ == empty_doc(),
    {
        let doc = Document { id: 0, title: String::new(), content: String::new(), cards: Vec::new() };
        assert(doc@.cards =~= Seq::empty());
        doc
    }

    /// A document as it was stored, without its cards.
    pub fn from_db(id: i64, title: &str, content: &str) -> (doc: Self)
        ensures
            doc@ == (DocView {
                id: id as int,
                title: title@,
                content: content@,
                cards: Seq::empty(),
            }),
    {
        let doc = Document {
            id,
            title: String::from_str(title),
            content: String::from_str(content),
            cards: Vec::new(),
        };
        assert(doc@.cards =~= Seq::empty());
        doc
    }

    /// Walks the headline `id`, see [`with_headline`]: headings and sections
    /// go to the content; with a `fold` target the headings go to the answer
    /// of that card instead. A headline tagged `card` becomes a card of its
    /// own.
    pub fn handle_normal_headline(
        &mut self,
        outline: &Outline,
        id: usize,
        level: usize,
        fold: Option<usize>,
    )
        requires
            outline.wf(),
            outline.titled(),
            id < outline.nodes@.len(),
        ensures
            final(self)@ == with_headline(*outline, id as int, level, fold_target(fold), old(self)@),
            final(self)@.cards.len() >= old(self)@.cards.len(),
        decreases outline.nodes@.len() - id, 3int,
    {
        let ghost start = self@;
        let ghost target = fold_target(fold);
        let n = outline.nodes[id].children.len();
        let mut j: usize = 0;
        while j < n
            invariant
                j <= n,
                outline.wf(),
                outline.titled(),
                id < outline.nodes@.len(),
                n == outline.arity(id as int),
                target == fold_target(fold),
                start == old(self)@,
                self@.cards.len() >= start.cards.len(),
                with_headline_from(*outline, id as int, j as int, level, target, self@)
                    == with_headline_from(*outline, id as int, 0, level, target, start),
            decreases n - j,
        {
            let c = outline.nodes[id].children[j];
            assert(outline.links_forward(id as int));
            assert(c == outline.child(id as int, j as int));
            let ghost before = self@;
            match &outline.nodes[c].kind {
                Kind::Section => {
                    self.handle_section(outline, c);
                },
                Kind::Headline { level: inner } => {
                    self.handle_normal_headline(outline, c, *inner, fold);
                },
                Kind::Title { raw, tags } => {
                    if is_tagged(tags, "card") {
                        assert(outline.titles_lead(id as int));
                        self.handle_flashcards(outline, id);
                        return ;
                    }
                    match fold {
                        Some(i) => {
                            if i < self.cards.len() {
                                self.cards[i].add_answer(raw.as_str());
                                assert(self@.cards =~= before.cards.update(
                                    i as int,
                                    with_fragment(before.cards[i as int], raw@),
                                ));
                            }
                        },
                        None => {
                            proof {
                                reveal_strlit("*");
                                assert("*"@ =~= seq!['*']);
                            }
                            push_repeated(&mut self.content, "*", '*', level);
                            self.content.append(" ");
                            self.content.append(raw.as_str());
                            self.content.append("\n");
                            assert(self@.content =~= before.content + heading_line(level, raw@));
                            assert(self@.cards =~= before.cards);
                        },
                    }
                    assert(self@ == with_title(before, level, target, raw@));
                },
                _ => {},
            }
            j += 1;
        }
    }

    /// Makes cards of the headline `id`, see [`with_cards`]: its title is
    /// the question of a new card, and each headline nested in it is folded
    /// into the answer of the card that was made last.
    pub fn handle_flashcards(&mut self, outline: &Outline, id: usize)
        requires
            outline.wf(),
            outline.titled(),
            id < outline.nodes@.len(),
            outline.nodes@[id as int].kind is Headline,
        ensures
            final(self)@ == with_cards(*outline, id as int, old(self)@),
            final(self)@.cards.len() >= old(self)@.cards.len(),
        decreases outline.nodes@.len() - id, 1int,
    {
        let ghost start = self@;
        let n = outline.nodes[id].children.len();
        let mut j: usize = 0;
        while j < n
            invariant
                j <= n,
                outline.wf(),
                outline.titled(),
                id < outline.nodes@.len(),
                outline.nodes@[id as int].kind is Headline,
                n == outline.arity(id as int),
                self@.cards.len() >= start.cards.len(),
                j > 0 ==> self@.cards.len() > 0,
                with_cards_from(*outline, id as int, j as int, self@) == with_cards_from(
                    *outline,
                    id as int,
                    0,
                    start,
                ),
            decreases n - j,
        {
            let c = outline.nodes[id].children[j];
            assert(outline.links_forward(id as int));
            assert(outline.headline_titled(id as int));
            assert(c == outline.child(id as int, j as int));
            let ghost before = self@;
            match &outline.nodes[c].kind {
                Kind::Title { raw, tags } => {
                    let mut card = FlashCard::new();
                    card.add_question(raw.as_str());
                    assert(card@.question =~= raw@);
                    self.cards.push(card);
                    assert(self@.cards =~= before.cards.push(fresh_card(raw@)));
                },
                Kind::Headline { level } => {
                    let last = self.cards.len() - 1;
                    self.handle_normal_headline(outline, c, *level, Some(last));
                },
                _ => {},
            }
            j += 1;
        }
    }

    /// Looks at the node `id` below a context, see [`with_child_from`]: a
    /// headline tagged `card` is made into cards, any other headline is
    /// rendered at level 2, and a node without title adds nothing.
    pub fn handle_headline(&mut self, outline: &Outline, id: usize)
        requires
            outline.wf(),
            outline.titled(),
            id < outline.nodes@.len(),
        ensures
            final(self)@ == with_child_from(*outline, id as int, 0, old(self)@),
    {
        let ghost start = self@;
        let n = outline.nodes[id].children.len();
        let mut j: usize = 0;
        while j < n
            invariant
                j <= n,
                outline.wf(),
                outline.titled(),
                id < outline.nodes@.len(),
                n == outline.arity(id as int),
                with_child_from(*outline, id as int, j as int, self@) == with_child_from(
                    *outline,
                    id as int,
                    0,
                    start,
                ),
            decreases n - j,
        {
            let c = outline.nodes[id].children[j];
            assert(outline.links_forward(id as int));
            assert(outline.titles_lead(id as int));
            assert(c == outline.child(id as int, j as int));
            match &outline.nodes[c].kind {
                Kind::Title { raw, tags } => {
                    if is_tagged(tags, "card") {
                        self.handle_flashcards(outline, id);
                    } else {
                        self.handle_normal_headline(outline, id, 2, None);
                    }
                },
                _ => {},
            }
            j += 1;
        }
    }

    /// Compiles the headline `headline` into this document where it is a
    /// context, see [`with_context`]. Any other node changes nothing.
    pub fn handle_context(&mut self, outline: &Outline, headline: usize)
        requires
            outline.wf(),
            outline.titled(),
            headline < outline.nodes@.len(),
        ensures
            final(self)@ == with_context(*outline, headline as int, old(self)@),
    {
        let ghost start = self@;
        let n = outline.nodes[headline].children.len();
        if n == 0 {
            return ;
        }
        assert(outline.links_forward(headline as int));
        let title = outline.nodes[headline].children[0];
        assert(title == outline.child(headline as int, 0));
        match &outline.nodes[title].kind {
            Kind::Title { raw, tags } => {
                if !is_tagged(tags, "context") {
                    return ;
                }
                self.content.append("* ");
                self.content.append(raw.as_str());
                self.title.append(raw.as_str());
                self.content.append(" :context:");
                self.content.append("\n");
                assert(self@.content =~= start.content + context_line(raw@));
                if n > 1 {
                    let section = outline.nodes[headline].children[1];
                    assert(section == outline.child(headline as int, 1));
                    match &outline.nodes[section].kind {
                        Kind::Section => {
                            self.handle_section(outline, section);
                        },
                        _ => {},
                    }
                }
                assert(self@.content =~= start.content + context_line(raw@) + own_section_text(
                    *outline,
                    headline as int,
                ));
                assert(self@.cards =~= start.cards);
                let ghost opened = self@;
                let mut j: usize = 0;
                while j < n
                    invariant
                        j <= n,
                        outline.wf(),
                        outline.titled(),
                        headline < outline.nodes@.len(),
                        n == outline.arity(headline as int),
                        with_children_from(*outline, headline as int, j as int, self@)
                            == with_children_from(*outline, headline as int, 0, opened),
                    decreases n - j,
                {
                    let c = outline.nodes[headline].children[j];
                    assert(outline.links_forward(headline as int));
                    assert(c == outline.child(headline as int, j as int));
                    self.handle_headline(outline, c);
                    j += 1;
                }
            },
            _ => {},
        }
    }

    /// The content: the context line, and what was rendered below it.
    pub fn get_contents(&self) -> (text: &str)
        ensures
            text@ == self@.content,
    {
        self.content.as_str()
    }

    /// The title of the context.
    pub fn get_title(&self) -> (text: &str)
        ensures
            text@ == self@.title,
    {
        self.title.as_str()
    }

    /// The cards, in the order in which they were found.
    pub fn get_cards(&self) -> (cards: &Vec<FlashCard>)
        ensures
            card_views(cards@) == self@.cards,
    {
        &self.cards
    }

    /// The document's number in the store; 0 until it is stored.
    pub fn get_id(&self) -> (id: i64)
        ensures
            id == self@.id,
    {
        self.id
    }

    /// Gives the document the number `id`, and tells each of its cards.
    pub fn update_id(&mut self, id: i64)
        ensures
            final(self)@ == (DocView {
                id: id as int,
                cards: owned_by(old(self)@.cards, id as int),
                ..old(self)@
            }),
    {
        self.id = id;
        let n = self.cards.len();
        let mut i: usize = 0;
        while i < n
            invariant
                i <= n,
                n == old(self).cards@.len(),
                self.cards@.len() == n,
                self.id == id,
                self.title == old(self).title,
                self.content == old(self).content,
                forall|k: int|
                    0 <= k < i ==> (#[trigger] self.cards@[k])@ == (CardView {
                        doc_id: id as int,
                        ..old(self).cards@[k]@
                    }),
                forall|k: int| i <= k < n ==> #[trigger] self.cards@[k] == old(self).cards@[k],
            decreases n - i,
        {
            let ghost before = self.cards@;
            self.cards[i].doc_id = id;
            assert(self.cards@.len() == before.len());
            assert(forall|k: int| 0 <= k < n && k != i ==> self.cards@[k] == before[k]);
            assert(self.cards@[i as int]@ == (CardView { doc_id: id as int, ..before[i as int]@ }));
            i += 1;
        }
        assert(self@.cards =~= owned_by(old(self)@.cards, id as int));
    }

    /// Adds the text of the paragraph `id` to the content, see
    /// [`paragraph_text`].
    pub fn handle_paragraph(&mut self, outline: &Outline, id: usize, blank: Option<usize>)
        requires
            outline.wf(),
            id < outline.nodes@.len(),
        ensures
            final(self)@ == append_content(old(self)@, paragraph_text(*outline, id as int, blank)),
        decreases outline.nodes@.len() - id, 1int,
    {
        let ghost start = self@;
        let ghost whole = inline_text(*outline, id as int, 0);
        let n = outline.nodes[id].children.len();
        let mut j: usize = 0;
        assert(start.content + whole =~= self@.content + inline_text(*outline, id as int, 0));
        while j < n
            invariant
                j <= n,
                outline.wf(),
                id < outline.nodes@.len(),
                n == outline.arity(id as int),
                whole == inline_text(*outline, id as int, 0),
                self@ == (DocView { content: self@.content, ..start }),
                start.content + whole == self@.content + inline_text(*outline, id as int, j as int),
            decreases n - j,
        {
            let c = outline.nodes[id].children[j];
            assert(outline.links_forward(id as int));
            assert(c == outline.child(id as int, j as int));
            let ghost before = self@.content;
            let ghost rest = inline_text(*outline, id as int, j + 1);
            match &outline.nodes[c].kind {
                Kind::Text { value } => {
                    self.content.append(value.as_str());
                    assert(self@.content + rest =~= before + (value@ + rest));
                },
                Kind::Bold => {
                    self.content.append("*");
                    self.handle_paragraph(outline, c, None);
                    self.content.append("*");
                    let ghost inner = paragraph_text(*outline, c as int, None);
                    assert(self@.content + rest =~= before + (("*"@ + inner + "*"@) + rest));
                },
                _ => {
                    assert(self@.content + rest =~= before + (Seq::<char>::empty() + rest));
                },
            }
            j += 1;
        }
        assert(self@.content =~= start.content + whole);
        match blank {
            Some(b) => {
                proof {
                    reveal_strlit("\n");
                    assert("\n"@ =~= seq!['\n']);
                }
                push_repeated(&mut self.content, "\n", '\n', b);
                self.content.append("\n");
                assert(self@.content =~= start.content + (whole + repeated_char(
                    '\n',
                    line_breaks(blank),
                )));
            },
            None => {
                assert(self@.content =~= start.content + (whole + repeated_char(
                    '\n',
                    line_breaks(blank),
                )));
            },
        }
    }
    /// Adds the text of the list or list item `id` to the content, see
    /// [`list_text`]. `post_blank` is the number of blank lines after the
    /// list that `id` is, or stands in.
    pub fn handle_list(&mut self, outline: &Outline, id: usize, post_blank: usize)
        requires
            outline.wf(),
            id < outline.nodes@.len(),
        ensures
            final(self)@ == append_content(old(self)@, list_text(*outline, id as int, post_blank)),
        decreases outline.nodes@.len() - id, 3int,
    {
        let ghost start = self@;
        let ghost whole = list_items_text(*outline, id as int, 0, post_blank);
        let n = outline.nodes[id].children.len();
        let mut j: usize = 0;
        assert(start.content + whole =~= self@.content + whole);
        while j < n
            invariant
                j <= n,
                outline.wf(),
                id < outline.nodes@.len(),
                n == outline.arity(id as int),
                whole == list_items_text(*outline, id as int, 0, post_blank),
                self@ == (DocView { content: self@.content, ..start }),
                start.content + whole == self@.content + list_items_text(
                    *outline,
                    id as int,
                    j as int,
                    post_blank,
                ),
            decreases n - j,
        {
            let c = outline.nodes[id].children[j];
            assert(outline.links_forward(id as int));
            assert(c == outline.child(id as int, j as int));
            let ghost before = self@.content;
            let ghost rest = list_items_text(*outline, id as int, j + 1, post_blank);
            match &outline.nodes[c].kind {
                Kind::List { post_blank: inner } => {
                    self.handle_list(outline, c, *inner);
                    assert(self@.content + rest =~= before + (list_text(*outline, c as int, *inner)
                        + rest));
                },
                Kind::ListItem { indent, bullet } => {
                    proof {
                        reveal_strlit(" ");
                        assert(" "@ =~= seq![' ']);
                    }
                    push_repeated(&mut self.content, " ", ' ', *indent);
                    self.content.append(bullet.as_str());
                    self.handle_list(outline, c, post_blank);
                    assert(self@.content + rest =~= before + ((repeated_char(' ', *indent as nat)
                        + bullet@ + list_text(*outline, c as int, post_blank)) + rest));
                },
                Kind::Paragraph { post_blank: inner } => {
                    self.handle_paragraph(outline, c, Some(*inner));
                    assert(self@.content + rest =~= before + (paragraph_text(
                        *outline,
                        c as int,
                        Some(*inner),
                    ) + rest));
                },
                _ => {
                    assert(self@.content + rest =~= before + (Seq::<char>::empty() + rest));
                },
            }
            j += 1;
        }
        assert(self@.content =~= start.content + whole);
        proof {
            reveal_strlit("\n");
            assert("\n"@ =~= seq!['\n']);
        }
        push_repeated(&mut self.content, "\n", '\n', post_blank);
        assert(self@.content =~= start.content + (whole + repeated_char('\n', post_blank as nat)));
    }

    /// Adds the text of the node `id` to the content where it is a section,
    /// a paragraph or a list, see [`section_text`]. Any other node adds
    /// nothing.
    pub fn handle_section(&mut self, outline: &Outline, id: usize)
        requires
            outline.wf(),
            id < outline.nodes@.len(),
        ensures
            final(self)@ == append_content(old(self)@, section_text(*outline, id as int)),
        decreases outline.nodes@.len() - id, 5int,
    {
        let ghost start = self@;
        match &outline.nodes[id].kind {
            Kind::Section => {
                let ghost whole = section_parts_text(*outline, id as int, 0);
                let n = outline.nodes[id].children.len();
                let mut j: usize = 0;
                assert(start.content + whole =~= self@.content + whole);
                while j < n
                    invariant
                        j <= n,
                        outline.wf(),
                        id < outline.nodes@.len(),
                        n == outline.arity(id as int),
                        whole == section_parts_text(*outline, id as int, 0),
                        self@ == (DocView { content: self@.content, ..start }),
                        start.content + whole == self@.content + section_parts_text(
                            *outline,
                            id as int,
                            j as int,
                        ),
                    decreases n - j,
                {
                    let c = outline.nodes[id].children[j];
                    assert(outline.links_forward(id as int));
                    assert(c == outline.child(id as int, j as int));
                    let ghost before = self@.content;
                    let ghost rest = section_parts_text(*outline, id as int, j + 1);
                    self.handle_section(outline, c);
                    assert(self@.content + rest =~= before + (section_text(*outline, c as int)
                        + rest));
                    j += 1;
                }
                assert(self@.content =~= start.content + whole);
            },
            Kind::Paragraph { post_blank } => {
                self.handle_paragraph(outline, id, Some(*post_blank));
            },
            Kind::List { post_blank } => {
                self.handle_list(outline, id, *post_blank);
            },
            _ => {
                assert(self@.content =~= start.content + Seq::<char>::empty());
            },
        }
    }
}

} // verus!
