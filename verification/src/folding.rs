//! What holds of every compiled document.
//!
//! The walks of [`crate::org`] only ever add: text at the end of the
//! content, cards at the end of the cards, fragments at the end of an
//! answer. A headline that is folded into a card adds the titles below it
//! to the answer of that card, in document order, and a headline tagged
//! `card` starts a card of its own and leaves the cards before it alone.
//! There is one card for each title tagged `card`, in document order, and
//! one fragment in one answer for each title that is not.

use crate::org::{
    append_content, compiled, compiled_from, context_line, empty_doc, fold_answer, fresh_card,
    heading_line, is_context, own_section_text, push_card, title_of, with_cards, with_cards_from,
    with_child_from, with_children_from, with_context, with_fragment, with_headline,
    with_headline_from, with_title, CardView, DocView,
};
use crate::outline::{has_tag, Kind, Outline};
use vstd::prelude::*;

verus! {

/// Whether `r` is `d` with things added: the same number and title, the
/// content of `d` and then more, the cards of `d` and then more, and on
/// each card of `d` the same answer and then more.
pub open spec fn extends(d: DocView, r: DocView) -> bool {
    &&& r.id == d.id
    &&& r.title == d.title
    &&& d.content.is_prefix_of(r.content)
    &&& r.cards.len() >= d.cards.len()
    &&& forall|k: int|
        0 <= k < d.cards.len() ==> (#[trigger] r.cards[k]) == (CardView {
            answer: r.cards[k].answer,
            ..d.cards[k]
        }) && d.cards[k].answer.is_prefix_of(r.cards[k].answer)
}

/// What extends an extension extends the first.
pub proof fn lemma_extends_twice(a: DocView, b: DocView, c: DocView)
    requires
        extends(a, b),
        extends(b, c),
    ensures
        extends(a, c),
{
    assert(a.content =~= c.content.subrange(0, a.content.len() as int)) by {
        assert(a.content =~= b.content.subrange(0, a.content.len() as int));
        assert(b.content =~= c.content.subrange(0, b.content.len() as int));
    }
    assert forall|k: int| 0 <= k < a.cards.len() implies (#[trigger] c.cards[k]) == (CardView {
        answer: c.cards[k].answer,
        ..a.cards[k]
    }) && a.cards[k].answer.is_prefix_of(c.cards[k].answer) by {
        assert(b.cards[k] == (CardView { answer: b.cards[k].answer, ..a.cards[k] }));
        assert(c.cards[k] == (CardView { answer: c.cards[k].answer, ..b.cards[k] }));
        let x = a.cards[k].answer;
        let y = b.cards[k].answer;
        let z = c.cards[k].answer;
        assert(x =~= y.subrange(0, x.len() as int));
        assert(y =~= z.subrange(0, y.len() as int));
        assert(x =~= z.subrange(0, x.len() as int));
    }
}

/// Adding text to the content extends a document.
pub proof fn lemma_extends_content(d: DocView, text: Seq<char>)
    ensures
        extends(d, append_content(d, text)),
{
    assert(d.content =~= (d.content + text).subrange(0, d.content.len() as int));
}

/// Adding a card extends a document.
pub proof fn lemma_extends_card(d: DocView, question: Seq<char>)
    ensures
        extends(d, push_card(d, question)),
{
}

/// Folding a fragment into an answer extends a document.
pub proof fn lemma_extends_fold(d: DocView, i: int, fragment: Seq<char>)
    ensures
        extends(d, fold_answer(d, i, fragment)),
{
    if 0 <= i < d.cards.len() {
        let x = d.cards[i].answer;
        let y = with_fragment(d.cards[i], fragment).answer;
        assert(x =~= y.subrange(0, x.len() as int));
    }
}

/// Walking a headline from any child on extends the document.
pub proof fn lemma_headline_extends_from(
    o: Outline,
    id: int,
    from: int,
    level: usize,
    fold: Option<int>,
    d: DocView,
)
    ensures
        extends(d, with_headline_from(o, id, from, level, fold, d)),
    decreases o.nodes@.len() - id, 2int, o.arity(id) - from,
{
    if 0 <= id < o.nodes@.len() && 0 <= from < o.arity(id) {
        let c = o.child(id, from);
        let r = with_headline_from(o, id, from, level, fold, d);
        if id < c < o.nodes@.len() {
            match o.nodes@[c].kind {
                Kind::Section => {
                    let next = append_content(d, crate::org::section_text(o, c));
                    lemma_extends_content(d, crate::org::section_text(o, c));
                    lemma_headline_extends_from(o, id, from + 1, level, fold, next);
                    lemma_extends_twice(d, next, r);
                },
                Kind::Headline { level: inner } => {
                    let next = with_headline(o, c, inner, fold, d);
                    lemma_headline_extends(o, c, inner, fold, d);
                    lemma_headline_extends_from(o, id, from + 1, level, fold, next);
                    lemma_extends_twice(d, next, r);
                },
                Kind::Title { raw, tags } => {
                    if has_tag(tags@, "card"@) {
                        lemma_cards_extend(o, id, d);
                    } else {
                        let next = with_title(d, level, fold, raw@);
                        match fold {
                            Some(i) => lemma_extends_fold(d, i, raw@),
                            None => lemma_extends_content(d, heading_line(level, raw@)),
                        }
                        lemma_headline_extends_from(o, id, from + 1, level, fold, next);
                        lemma_extends_twice(d, next, r);
                    }
                },
                _ => {
                    lemma_headline_extends_from(o, id, from + 1, level, fold, d);
                },
            }
        } else {
            lemma_headline_extends_from(o, id, from + 1, level, fold, d);
        }
    }
}

/// Walking a headline extends the document.
pub proof fn lemma_headline_extends(o: Outline, id: int, level: usize, fold: Option<int>, d: DocView)
    ensures
        extends(d, with_headline(o, id, level, fold, d)),
    decreases o.nodes@.len() - id, 3int, 0int,
{
    if 0 <= id < o.nodes@.len() {
        lemma_headline_extends_from(o, id, 0, level, fold, d);
    }
}

/// Making cards of a headline from any child on extends the document.
pub proof fn lemma_cards_extend_from(o: Outline, id: int, from: int, d: DocView)
    ensures
        extends(d, with_cards_from(o, id, from, d)),
    decreases o.nodes@.len() - id, 0int, o.arity(id) - from,
{
    if 0 <= id < o.nodes@.len() && 0 <= from < o.arity(id) {
        let c = o.child(id, from);
        let r = with_cards_from(o, id, from, d);
        if id < c < o.nodes@.len() {
            match o.nodes@[c].kind {
                Kind::Title { raw, tags } => {
                    let next = push_card(d, raw@);
                    lemma_extends_card(d, raw@);
                    lemma_cards_extend_from(o, id, from + 1, next);
                    lemma_extends_twice(d, next, r);
                },
                Kind::Headline { level } => {
                    let next = with_headline(o, c, level, Some(d.cards.len() - 1), d);
                    lemma_headline_extends(o, c, level, Some(d.cards.len() - 1), d);
                    lemma_cards_extend_from(o, id, from + 1, next);
                    lemma_extends_twice(d, next, r);
                },
                _ => {
                    lemma_cards_extend_from(o, id, from + 1, d);
                },
            }
        } else {
            lemma_cards_extend_from(o, id, from + 1, d);
        }
    }
}

/// Making cards of a headline extends the document.
pub proof fn lemma_cards_extend(o: Outline, id: int, d: DocView)
    ensures
        extends(d, with_cards(o, id, d)),
    decreases o.nodes@.len() - id, 1int, 0int,
{
    if 0 <= id < o.nodes@.len() {
        lemma_cards_extend_from(o, id, 0, d);
    }
}

/// The fragments that the headline `id` adds to the card it is folded
/// into, looking at its children from the `from`-th on: for each title
/// below it, in document order, the text of the title and a comma. A
/// headline tagged `card` adds none, nor does anything below it.
pub open spec fn folded_from(o: Outline, id: int, from: int) -> Seq<char>
    decreases o.nodes@.len() - id, 0int, o.arity(id) - from,
{
    if 0 <= id < o.nodes@.len() && 0 <= from < o.arity(id) {
        let c = o.child(id, from);
        if id < c < o.nodes@.len() {
            match o.nodes@[c].kind {
                Kind::Headline { level } => folded(o, c) + folded_from(o, id, from + 1),
                Kind::Title { raw, tags } => if has_tag(tags@, "card"@) {
                    Seq::empty()
                } else {
                    raw@ + ", "@ + folded_from(o, id, from + 1)
                },
                _ => folded_from(o, id, from + 1),
            }
        } else {
            folded_from(o, id, from + 1)
        }
    } else {
        Seq::empty()
    }
}

/// The fragments that the headline `id` adds to the card it is folded
/// into, see [`folded_from`].
pub open spec fn folded(o: Outline, id: int) -> Seq<char>
    decreases o.nodes@.len() - id, 1int, 0int,
{
    if 0 <= id < o.nodes@.len() {
        folded_from(o, id, 0)
    } else {
        Seq::empty()
    }
}

/// Whether `r` is `d` with `text` added to the answer of its `i`-th card,
/// perhaps with more cards after those of `d`, and with every other card of
/// `d` as it was.
pub open spec fn folds_into(d: DocView, r: DocView, i: int, text: Seq<char>) -> bool {
    &&& r.cards.len() >= d.cards.len()
    &&& r.cards[i] == (CardView { answer: d.cards[i].answer + text, ..d.cards[i] })
    &&& forall|k: int| 0 <= k < d.cards.len() && k != i ==> #[trigger] r.cards[k] == d.cards[k]
}

/// Whether the cards of `d` below position `n` are cards of `r` as they
/// were.
pub open spec fn keeps_cards(d: DocView, r: DocView, n: int) -> bool {
    &&& r.cards.len() >= d.cards.len()
    &&& forall|k: int| 0 <= k < n && k < d.cards.len() ==> #[trigger] r.cards[k] == d.cards[k]
}

proof fn lemma_folds_twice(a: DocView, b: DocView, c: DocView, i: int, x: Seq<char>, y: Seq<char>)
    requires
        0 <= i < a.cards.len(),
        folds_into(a, b, i, x),
        folds_into(b, c, i, y),
    ensures
        folds_into(a, c, i, x + y),
{
    assert(a.cards[i].answer + x + y =~= a.cards[i].answer + (x + y));
    assert forall|k: int| 0 <= k < a.cards.len() && k != i implies #[trigger] c.cards[k]
        == a.cards[k] by {
        assert(b.cards[k] == a.cards[k]);
    }
}

/// The folding law, from any child on. A headline that is folded into
/// the card at position `i` adds [`folded_from`] to the answer of that
/// card: one fragment for each title below it that is not a card, in
/// document order. It changes no other card that was there before.
pub proof fn lemma_folding_from(
    o: Outline,
    id: int,
    from: int,
    level: usize,
    i: int,
    d: DocView,
)
    requires
        o.wf(),
        o.titled(),
        0 <= id < o.nodes@.len(),
        0 <= i < d.cards.len(),
    ensures
        folds_into(d, with_headline_from(o, id, from, level, Some(i), d), i, folded_from(o, id, from)),
    decreases o.nodes@.len() - id, 2int, o.arity(id) - from,
{
    let r = with_headline_from(o, id, from, level, Some(i), d);
    let whole = folded_from(o, id, from);
    if 0 <= from < o.arity(id) {
        let c = o.child(id, from);
        assert(o.links_forward(id));
        let rest = folded_from(o, id, from + 1);
        match o.nodes@[c].kind {
            Kind::Section => {
                let next = append_content(d, crate::org::section_text(o, c));
                lemma_folding_from(o, id, from + 1, level, i, next);
            },
            Kind::Headline { level: inner } => {
                let next = with_headline(o, c, inner, Some(i), d);
                lemma_folding_from(o, c, 0, inner, i, d);
                lemma_folding_from(o, id, from + 1, level, i, next);
                lemma_folds_twice(d, next, r, i, folded(o, c), rest);
            },
            Kind::Title { raw, tags } => {
                if has_tag(tags@, "card"@) {
                    assert(o.titles_lead(id));
                    lemma_card_keeps_cards(o, id, d);
                    assert(d.cards[i].answer + whole =~= d.cards[i].answer);
                } else {
                    let next = fold_answer(d, i, raw@);
                    lemma_folding_from(o, id, from + 1, level, i, next);
                    assert(folds_into(d, next, i, raw@ + ", "@)) by {
                        assert(d.cards[i].answer + raw@ + ", "@ =~= d.cards[i].answer + (raw@
                            + ", "@));
                    }
                    lemma_folds_twice(d, next, r, i, raw@ + ", "@, rest);
                }
            },
            _ => {
                lemma_folding_from(o, id, from + 1, level, i, d);
            },
        }
    } else {
        assert(d.cards[i].answer + whole =~= d.cards[i].answer);
    }
}

/// Making cards of a headline from any child on leaves every card alone
/// but the last that was there before, and those that it makes.
pub proof fn lemma_cards_keep_cards_from(o: Outline, id: int, from: int, d: DocView)
    requires
        o.wf(),
        o.titled(),
        0 <= id < o.nodes@.len(),
    ensures
        keeps_cards(d, with_cards_from(o, id, from, d), d.cards.len() - 1),
    decreases o.nodes@.len() - id, 0int, o.arity(id) - from,
{
    let r = with_cards_from(o, id, from, d);
    if 0 <= from < o.arity(id) {
        let c = o.child(id, from);
        assert(o.links_forward(id));
        match o.nodes@[c].kind {
            Kind::Title { raw, tags } => {
                let next = push_card(d, raw@);
                lemma_cards_keep_cards_from(o, id, from + 1, next);
                assert forall|k: int| 0 <= k < d.cards.len() - 1 implies #[trigger] r.cards[k]
                    == d.cards[k] by {
                    assert(next.cards[k] == d.cards[k]);
                }
            },
            Kind::Headline { level } => {
                let last = d.cards.len() - 1;
                let next = with_headline(o, c, level, Some(last), d);
                lemma_headline_extends(o, c, level, Some(last), d);
                lemma_cards_keep_cards_from(o, id, from + 1, next);
                if last >= 0 {
                    lemma_folding_from(o, c, 0, level, last, d);
                    assert forall|k: int| 0 <= k < d.cards.len() - 1 implies #[trigger] r.cards[k]
                        == d.cards[k] by {
                        assert(next.cards[k] == d.cards[k]);
                    }
                }
            },
            _ => {
                lemma_cards_keep_cards_from(o, id, from + 1, d);
            },
        }
    }
}

/// The law of new cards. A headline tagged `card` starts a card of its
/// own, with its title as the question, after the cards that were there
/// before; and it changes none of those.
pub proof fn lemma_card_keeps_cards(o: Outline, id: int, d: DocView)
    requires
        o.wf(),
        o.titled(),
        0 <= id < o.nodes@.len(),
        o.nodes@[id].kind is Headline,
    ensures
        keeps_cards(d, with_cards(o, id, d), d.cards.len() as int),
        with_cards(o, id, d).cards.len() > d.cards.len(),
        with_cards(o, id, d).cards[d.cards.len() as int].question == title_of(o, id),
    decreases o.nodes@.len() - id, 1int, 0int,
{
    let r = with_cards(o, id, d);
    assert(o.headline_titled(id));
    assert(o.links_forward(id));
    let c = o.child(id, 0);
    match o.nodes@[c].kind {
        Kind::Title { raw, tags } => {
            let next = push_card(d, raw@);
            assert(r == with_cards_from(o, id, 1, next));
            lemma_cards_keep_cards_from(o, id, 1, next);
            lemma_cards_extend_from(o, id, 1, next);
            assert forall|k: int| 0 <= k < d.cards.len() implies #[trigger] r.cards[k]
                == d.cards[k] by {
                assert(next.cards[k] == d.cards[k]);
            }
            let n = d.cards.len() as int;
            assert(r.cards[n] == (CardView { answer: r.cards[n].answer, ..next.cards[n] }));
        },
        _ => {},
    }
}

/// The folding law. A headline that is folded into the card at position
/// `i` adds [`folded`] to the answer of that card: one fragment, ended by a
/// comma, for each title below it that is not tagged `card`, in document
/// order. A title tagged `card` adds nothing to that answer. No other card
/// that was there before is changed.
pub proof fn lemma_folding(o: Outline, id: int, level: usize, i: int, d: DocView)
    requires
        o.wf(),
        o.titled(),
        0 <= id < o.nodes@.len(),
        0 <= i < d.cards.len(),
    ensures
        folds_into(d, with_headline(o, id, level, Some(i), d), i, folded(o, id)),
{
    lemma_folding_from(o, id, 0, level, i, d);
}

/// Looking at a node below a context extends the document.
pub proof fn lemma_child_extends_from(o: Outline, id: int, from: int, d: DocView)
    ensures
        extends(d, with_child_from(o, id, from, d)),
    decreases o.arity(id) - from,
{
    if 0 <= id < o.nodes@.len() && 0 <= from < o.arity(id) {
        let c = o.child(id, from);
        let next = if id < c < o.nodes@.len() {
            match o.nodes@[c].kind {
                Kind::Title { raw, tags } => if has_tag(tags@, "card"@) {
                    with_cards(o, id, d)
                } else {
                    with_headline(o, id, 2, None, d)
                },
                _ => d,
            }
        } else {
            d
        };
        lemma_cards_extend(o, id, d);
        lemma_headline_extends(o, id, 2, None, d);
        lemma_child_extends_from(o, id, from + 1, next);
        lemma_extends_twice(d, next, with_child_from(o, id, from, d));
    }
}

/// Looking at the children of a context extends the document.
pub proof fn lemma_children_extend_from(o: Outline, id: int, from: int, d: DocView)
    ensures
        extends(d, with_children_from(o, id, from, d)),
    decreases o.arity(id) - from,
{
    if 0 <= id < o.nodes@.len() && 0 <= from < o.arity(id) {
        let c = o.child(id, from);
        let next = if id < c < o.nodes@.len() {
            with_child_from(o, c, 0, d)
        } else {
            d
        };
        lemma_child_extends_from(o, c, 0, d);
        lemma_children_extend_from(o, id, from + 1, next);
        lemma_extends_twice(d, next, with_children_from(o, id, from, d));
    }
}

/// The law of the first line. Compiling a context adds its title to the
/// title of the document, and the content that it adds begins with the
/// context line: the heading of the context with its tag. The cards that
/// were there stay, with the same questions. So the content of a document
/// that was empty begins with its context line.
pub proof fn lemma_context_begins(o: Outline, id: int, d: DocView)
    requires
        is_context(o, id),
    ensures
        with_context(o, id, d).id == d.id,
        with_context(o, id, d).title == d.title + title_of(o, id),
        (d.content + context_line(title_of(o, id))).is_prefix_of(with_context(o, id, d).content),
        with_context(o, id, d).cards.len() >= d.cards.len(),
        d.content.len() == 0 ==> context_line(title_of(o, id)).is_prefix_of(
            with_context(o, id, d).content,
        ),
{
    let raw = title_of(o, id);
    let head = d.content + context_line(raw);
    let opened = DocView {
        title: d.title + raw,
        content: head + own_section_text(o, id),
        ..d
    };
    let r = with_context(o, id, d);
    lemma_children_extend_from(o, id, 0, opened);
    assert(head =~= r.content.subrange(0, head.len() as int)) by {
        assert(opened.content =~= r.content.subrange(0, opened.content.len() as int));
        assert(head =~= opened.content.subrange(0, head.len() as int));
    }
    if d.content.len() == 0 {
        assert(head =~= context_line(raw));
    }
}

/// A node that is no context compiles to nothing.
pub proof fn lemma_no_context_no_change(o: Outline, id: int, d: DocView)
    requires
        !is_context(o, id),
    ensures
        with_context(o, id, d) == d,
{
}

/// Every document that is compiled from an outline begins with its context
/// line: the heading of the context, with its title and its tag.
pub proof fn lemma_compiled_begin(o: Outline, k: int)
    requires
        0 <= k < compiled(o).len(),
    ensures
        context_line(compiled(o)[k].title).is_prefix_of(compiled(o)[k].content),
        compiled(o)[k].id == 0,
{
    lemma_compiled_begin_from(o, 0, k);
}

proof fn lemma_compiled_begin_from(o: Outline, from: int, k: int)
    requires
        0 <= from,
        0 <= k < compiled_from(o, from).len(),
    ensures
        context_line(compiled_from(o, from)[k].title).is_prefix_of(compiled_from(o, from)[k].content),
        compiled_from(o, from)[k].id == 0,
    decreases o.arity(0) - from,
{
    if 0 < o.nodes@.len() && from < o.arity(0) {
        let c = o.child(0, from);
        if is_context(o, c) {
            if k == 0 {
                lemma_context_begins(o, c, empty_doc());
                assert(empty_doc().title + title_of(o, c) =~= title_of(o, c));
            } else {
                lemma_compiled_begin_from(o, from + 1, k - 1);
            }
        } else {
            assert(compiled_from(o, from) =~= compiled_from(o, from + 1));
            lemma_compiled_begin_from(o, from + 1, k);
        }
    }
}

/// Whether none of the titles below the headline `id` is tagged `card`,
/// looking at its children from the `from`-th on.
pub open spec fn cardless_from(o: Outline, id: int, from: int) -> bool
    decreases o.nodes@.len() - id, 0int, o.arity(id) - from,
{
    if 0 <= id < o.nodes@.len() && 0 <= from < o.arity(id) {
        let c = o.child(id, from);
        let here = if id < c < o.nodes@.len() {
            match o.nodes@[c].kind {
                Kind::Headline { level } => cardless(o, c),
                Kind::Title { raw, tags } => !has_tag(tags@, "card"@),
                _ => true,
            }
        } else {
            true
        };
        here && cardless_from(o, id, from + 1)
    } else {
        true
    }
}

/// Whether neither the headline `id` nor any headline below it is tagged
/// `card`.
pub open spec fn cardless(o: Outline, id: int) -> bool
    decreases o.nodes@.len() - id, 1int, 0int,
{
    if 0 <= id < o.nodes@.len() {
        cardless_from(o, id, 0)
    } else {
        true
    }
}

/// `d` with `text` added to the answer of its `i`-th card, and nothing
/// else changed in its cards.
pub open spec fn cards_with_answer(d: DocView, i: int, text: Seq<char>) -> Seq<CardView> {
    d.cards.update(i, CardView { answer: d.cards[i].answer + text, ..d.cards[i] })
}

/// A headline without cards below it, folded into a card, makes no card:
/// the cards are those that were there, with the titles below the headline
/// folded into the one answer.
pub proof fn lemma_cardless_folding_from(
    o: Outline,
    id: int,
    from: int,
    level: usize,
    i: int,
    d: DocView,
)
    requires
        o.wf(),
        o.titled(),
        0 <= id < o.nodes@.len(),
        0 <= i < d.cards.len(),
        cardless_from(o, id, from),
    ensures
        with_headline_from(o, id, from, level, Some(i), d).cards == cards_with_answer(
            d,
            i,
            folded_from(o, id, from),
        ),
    decreases o.nodes@.len() - id, 0int, o.arity(id) - from,
{
    let r = with_headline_from(o, id, from, level, Some(i), d);
    lemma_folding_from(o, id, from, level, i, d);
    lemma_cardless_count_from(o, id, from, level, i, d);
    assert(r.cards =~= cards_with_answer(d, i, folded_from(o, id, from)));
}

proof fn lemma_cardless_count_from(o: Outline, id: int, from: int, level: usize, i: int, d: DocView)
    requires
        o.wf(),
        0 <= id < o.nodes@.len(),
        cardless_from(o, id, from),
    ensures
        with_headline_from(o, id, from, level, Some(i), d).cards.len() == d.cards.len(),
    decreases o.nodes@.len() - id, 0int, o.arity(id) - from,
{
    if 0 <= from < o.arity(id) {
        let c = o.child(id, from);
        assert(o.links_forward(id));
        match o.nodes@[c].kind {
            Kind::Section => {
                let next = append_content(d, crate::org::section_text(o, c));
                lemma_cardless_count_from(o, id, from + 1, level, i, next);
            },
            Kind::Headline { level: inner } => {
                let next = with_headline(o, c, inner, Some(i), d);
                assert(cardless(o, c));
                assert(cardless_from(o, c, 0));
                lemma_cardless_count_from(o, c, 0, inner, i, d);
                lemma_cardless_count_from(o, id, from + 1, level, i, next);
            },
            Kind::Title { raw, tags } => {
                let next = fold_answer(d, i, raw@);
                lemma_cardless_count_from(o, id, from + 1, level, i, next);
            },
            _ => {
                lemma_cardless_count_from(o, id, from + 1, level, i, d);
            },
        }
    }
}

proof fn lemma_plain_card_from(o: Outline, id: int, from: int, d: DocView)
    requires
        o.wf(),
        o.titled(),
        0 <= id < o.nodes@.len(),
        1 <= from,
        d.cards.len() > 0,
        cardless_from(o, id, from),
    ensures
        with_cards_from(o, id, from, d).cards == cards_with_answer(
            d,
            d.cards.len() - 1,
            folded_from(o, id, from),
        ),
    decreases o.arity(id) - from,
{
    let last = d.cards.len() - 1;
    let r = with_cards_from(o, id, from, d);
    if from < o.arity(id) {
        let c = o.child(id, from);
        assert(o.links_forward(id));
        assert(o.titles_lead(id));
        let rest = folded_from(o, id, from + 1);
        match o.nodes@[c].kind {
            Kind::Headline { level } => {
                let next = with_headline(o, c, level, Some(last), d);
                assert(cardless(o, c));
                assert(cardless_from(o, c, 0));
                lemma_cardless_folding_from(o, c, 0, level, last, d);
                lemma_plain_card_from(o, id, from + 1, next);
                assert(d.cards[last].answer + folded(o, c) + rest =~= d.cards[last].answer + (
                folded(o, c) + rest));
                assert(r.cards =~= cards_with_answer(d, last, folded_from(o, id, from)));
            },
            _ => {
                lemma_plain_card_from(o, id, from + 1, d);
            },
        }
    } else {
        assert(d.cards[last].answer + folded_from(o, id, from) =~= d.cards[last].answer);
        assert(r.cards =~= cards_with_answer(d, last, folded_from(o, id, from)));
    }
}

/// The law of the plain card. A headline tagged `card` with no further
/// card below it makes exactly one card: the question is its title, and the
/// answer holds one fragment for each title below it, in document order.
/// With no headline below it the answer is empty.
pub proof fn lemma_plain_card(o: Outline, id: int, d: DocView)
    requires
        o.wf(),
        o.titled(),
        0 <= id < o.nodes@.len(),
        o.nodes@[id].kind is Headline,
        cardless_from(o, id, 1),
    ensures
        with_cards(o, id, d).cards == d.cards.push(
            CardView { answer: folded_from(o, id, 1), ..fresh_card(title_of(o, id)) },
        ),
        o.arity(id) == 1 ==> folded_from(o, id, 1) == Seq::<char>::empty(),
{
    assert(o.headline_titled(id));
    assert(o.links_forward(id));
    let c = o.child(id, 0);
    match o.nodes@[c].kind {
        Kind::Title { raw, tags } => {
            let next = push_card(d, raw@);
            lemma_plain_card_from(o, id, 1, next);
            assert(Seq::<char>::empty() + folded_from(o, id, 1) =~= folded_from(o, id, 1));
            assert(with_cards(o, id, d).cards =~= d.cards.push(
                CardView { answer: folded_from(o, id, 1), ..fresh_card(title_of(o, id)) },
            ));
        },
        _ => {},
    }
}

/// The questions of `cards`, in order.
pub open spec fn questions(cards: Seq<CardView>) -> Seq<Seq<char>> {
    Seq::new(cards.len(), |i: int| cards[i].question)
}

/// The titles tagged `card` below the node `id`, in document order,
/// looking at the children of `id` from the `from`-th on.
pub open spec fn card_titles_below(o: Outline, id: int, from: int) -> Seq<Seq<char>>
    decreases o.nodes@.len() - id, 0int, o.arity(id) - from,
{
    if 0 <= id < o.nodes@.len() && 0 <= from < o.arity(id) {
        let c = o.child(id, from);
        let here = if id < c < o.nodes@.len() && o.nodes@[c].kind is Headline {
            card_titles(o, c)
        } else {
            Seq::empty()
        };
        here + card_titles_below(o, id, from + 1)
    } else {
        Seq::empty()
    }
}

/// The titles tagged `card` of the headline `id` and of the headlines
/// below it, in document order: its own title first, if that is tagged,
/// then those of each nested headline in turn.
pub open spec fn card_titles(o: Outline, id: int) -> Seq<Seq<char>>
    decreases o.nodes@.len() - id, 1int, 0int,
{
    if 0 <= id < o.nodes@.len() {
        let own = if o.arity(id) > 0 && id < o.child(id, 0) < o.nodes@.len() && o.nodes@[o.child(
            id,
            0,
        )].kind.tagged("card"@) {
            seq![title_of(o, id)]
        } else {
            Seq::empty()
        };
        own + card_titles_below(o, id, 0)
    } else {
        Seq::empty()
    }
}

proof fn lemma_questions_push(d: DocView, raw: Seq<char>)
    ensures
        questions(push_card(d, raw).cards) == questions(d.cards).push(raw),
{
    assert(questions(push_card(d, raw).cards) =~= questions(d.cards).push(raw));
}

proof fn lemma_questions_fold(d: DocView, i: int, raw: Seq<char>)
    ensures
        questions(fold_answer(d, i, raw).cards) == questions(d.cards),
{
    assert(questions(fold_answer(d, i, raw).cards) =~= questions(d.cards));
}

/// The titles that a walk meets from the `from`-th child on: all titles
/// tagged `card` of the headline at the start, and below it after that.
pub open spec fn card_titles_from(o: Outline, id: int, from: int) -> Seq<Seq<char>> {
    if from == 0 {
        card_titles(o, id)
    } else {
        card_titles_below(o, id, from)
    }
}

/// Walking a headline from any child on makes one card for each title
/// tagged `card` that it meets, in document order, with that title as the
/// question. The questions that were there stay.
pub proof fn lemma_headline_makes_cards_from(
    o: Outline,
    id: int,
    from: int,
    level: usize,
    fold: Option<int>,
    d: DocView,
)
    requires
        o.wf(),
        o.titled(),
        0 <= id < o.nodes@.len(),
        0 <= from,
    ensures
        questions(with_headline_from(o, id, from, level, fold, d).cards) == questions(d.cards)
            + card_titles_from(o, id, from),
    decreases o.nodes@.len() - id, 2int, o.arity(id) - from,
{
    let r = with_headline_from(o, id, from, level, fold, d);
    let q = questions(d.cards);
    assert(o.links_forward(id));
    assert(o.titles_lead(id));
    if from < o.arity(id) {
        let c = o.child(id, from);
        let rest = card_titles_below(o, id, from + 1);
        match o.nodes@[c].kind {
            Kind::Section => {
                let next = append_content(d, crate::org::section_text(o, c));
                lemma_headline_makes_cards_from(o, id, from + 1, level, fold, next);
                assert(card_titles_below(o, id, from) =~= rest);
                assert(card_titles_from(o, id, from) =~= rest);
            },
            Kind::Headline { level: inner } => {
                let next = with_headline(o, c, inner, fold, d);
                lemma_headline_makes_cards_from(o, c, 0, inner, fold, d);
                lemma_headline_makes_cards_from(o, id, from + 1, level, fold, next);
                assert(card_titles_from(o, id, from) =~= card_titles(o, c) + rest);
                assert(q + card_titles(o, c) + rest =~= q + (card_titles(o, c) + rest));
            },
            Kind::Title { raw, tags } => {
                assert(from == 0);
                assert(card_titles_below(o, id, 0) =~= rest);
                if has_tag(tags@, "card"@) {
                    lemma_card_makes_cards(o, id, d);
                    assert(seq![raw@] + card_titles_below(o, id, 1) =~= card_titles(o, id));
                } else {
                    let next = with_title(d, level, fold, raw@);
                    match fold {
                        Some(i) => lemma_questions_fold(d, i, raw@),
                        None => {},
                    }
                    lemma_headline_makes_cards_from(o, id, from + 1, level, fold, next);
                    assert(card_titles(o, id) =~= rest);
                }
            },
            _ => {
                lemma_headline_makes_cards_from(o, id, from + 1, level, fold, d);
                assert(card_titles_below(o, id, from) =~= rest);
                assert(card_titles_from(o, id, from) =~= rest);
            },
        }
    } else {
        assert(card_titles_from(o, id, from) =~= Seq::<Seq<char>>::empty());
        assert(q + card_titles_from(o, id, from) =~= q);
    }
}

proof fn lemma_card_makes_cards_from(o: Outline, id: int, from: int, d: DocView)
    requires
        o.wf(),
        o.titled(),
        0 <= id < o.nodes@.len(),
        1 <= from,
    ensures
        questions(with_cards_from(o, id, from, d).cards) == questions(d.cards) + card_titles_below(
            o,
            id,
            from,
        ),
    decreases o.nodes@.len() - id, 0int, o.arity(id) - from,
{
    let q = questions(d.cards);
    assert(o.links_forward(id));
    assert(o.titles_lead(id));
    if from < o.arity(id) {
        let c = o.child(id, from);
        let rest = card_titles_below(o, id, from + 1);
        match o.nodes@[c].kind {
            Kind::Headline { level } => {
                let fold = Some(d.cards.len() - 1);
                let next = with_headline(o, c, level, fold, d);
                lemma_headline_makes_cards_from(o, c, 0, level, fold, d);
                lemma_card_makes_cards_from(o, id, from + 1, next);
                assert(q + card_titles(o, c) + rest =~= q + (card_titles(o, c) + rest));
            },
            _ => {
                lemma_card_makes_cards_from(o, id, from + 1, d);
                assert(card_titles_below(o, id, from) =~= rest);
            },
        }
    } else {
        assert(q + card_titles_below(o, id, from) =~= q);
    }
}

/// The law of one card per title. A headline that is made into cards
/// makes one card for its own title and one for each title tagged `card`
/// below it, in document order, each with its title as the question; the
/// cards that were there come first, with their questions as they were.
pub proof fn lemma_card_makes_cards(o: Outline, id: int, d: DocView)
    requires
        o.wf(),
        o.titled(),
        0 <= id < o.nodes@.len(),
        o.nodes@[id].kind is Headline,
    ensures
        questions(with_cards(o, id, d).cards) == questions(d.cards) + seq![title_of(o, id)]
            + card_titles_below(o, id, 1),
        o.nodes@[o.child(id, 0)].kind.tagged("card"@) ==> questions(with_cards(o, id, d).cards)
            == questions(d.cards) + card_titles(o, id),
    decreases o.nodes@.len() - id, 1int, 0int,
{
    assert(o.headline_titled(id));
    assert(o.links_forward(id));
    let c = o.child(id, 0);
    let q = questions(d.cards);
    match o.nodes@[c].kind {
        Kind::Title { raw, tags } => {
            let next = push_card(d, raw@);
            lemma_questions_push(d, raw@);
            lemma_card_makes_cards_from(o, id, 1, next);
            assert(q.push(raw@) =~= q + seq![raw@]);
            assert(card_titles_below(o, id, 0) =~= card_titles_below(o, id, 1));
            if has_tag(tags@, "card"@) {
                assert(q + seq![raw@] + card_titles_below(o, id, 1) =~= q + card_titles(o, id));
            }
        },
        _ => {},
    }
}

/// Walking a headline makes one card for each title tagged `card` of the
/// headline and below it, in document order, whatever the walk folds into.
pub proof fn lemma_headline_makes_cards(
    o: Outline,
    id: int,
    level: usize,
    fold: Option<int>,
    d: DocView,
)
    requires
        o.wf(),
        o.titled(),
        0 <= id < o.nodes@.len(),
    ensures
        questions(with_headline(o, id, level, fold, d).cards) == questions(d.cards) + card_titles(
            o,
            id,
        ),
{
    lemma_headline_makes_cards_from(o, id, 0, level, fold, d);
}

/// The length of all answers of `cards` together.
pub open spec fn answers_len(cards: Seq<CardView>) -> int
    decreases cards.len(),
{
    if cards.len() == 0 {
        0
    } else {
        answers_len(cards.drop_last()) + cards.last().answer.len()
    }
}

/// The length of the fragments of the titles below the node `id` that are
/// not tagged `card`, looking at the children of `id` from the `from`-th
/// on: for each such title its length and that of the comma.
pub open spec fn fragments_len_below(o: Outline, id: int, from: int) -> int
    decreases o.nodes@.len() - id, 0int, o.arity(id) - from,
{
    if 0 <= id < o.nodes@.len() && 0 <= from < o.arity(id) {
        let c = o.child(id, from);
        let here = if id < c < o.nodes@.len() && o.nodes@[c].kind is Headline {
            fragments_len(o, c)
        } else {
            0
        };
        here + fragments_len_below(o, id, from + 1)
    } else {
        0
    }
}

/// The length of the fragments of the titles of the headline `id` and
/// below it that are not tagged `card`.
pub open spec fn fragments_len(o: Outline, id: int) -> int
    decreases o.nodes@.len() - id, 1int, 0int,
{
    if 0 <= id < o.nodes@.len() {
        let own = if o.arity(id) > 0 && id < o.child(id, 0) < o.nodes@.len() && o.nodes@[o.child(
            id,
            0,
        )].kind is Title && !o.nodes@[o.child(id, 0)].kind.tagged("card"@) {
            title_of(o, id).len() + ", "@.len()
        } else {
            0
        };
        own + fragments_len_below(o, id, 0)
    } else {
        0
    }
}

/// The fragments that a walk meets from the `from`-th child on.
pub open spec fn fragments_len_from(o: Outline, id: int, from: int) -> int {
    if from == 0 {
        fragments_len(o, id)
    } else {
        fragments_len_below(o, id, from)
    }
}

proof fn lemma_answers_len_update(cards: Seq<CardView>, i: int, card: CardView)
    requires
        0 <= i < cards.len(),
    ensures
        answers_len(cards.update(i, card)) == answers_len(cards) - cards[i].answer.len()
            + card.answer.len(),
    decreases cards.len(),
{
    let after = cards.update(i, card);
    if i == cards.len() - 1 {
        assert(after.drop_last() =~= cards.drop_last());
    } else {
        assert(after.drop_last() =~= cards.drop_last().update(i, card));
        lemma_answers_len_update(cards.drop_last(), i, card);
    }
}

proof fn lemma_answers_len_push(d: DocView, raw: Seq<char>)
    ensures
        answers_len(push_card(d, raw).cards) == answers_len(d.cards),
{
    assert(push_card(d, raw).cards.drop_last() =~= d.cards);
}

proof fn lemma_answers_len_fold(d: DocView, i: int, raw: Seq<char>)
    requires
        0 <= i < d.cards.len(),
    ensures
        answers_len(fold_answer(d, i, raw).cards) == answers_len(d.cards) + raw.len() + ", "@.len(),
{
    lemma_answers_len_update(d.cards, i, with_fragment(d.cards[i], raw));
}

/// The law of one fragment per title, from any child on. A headline that
/// is folded into a card adds to the answers exactly the fragments of the
/// titles that it meets and that are not tagged `card`: as answers only
/// ever grow at their ends, each such title gives one fragment to one card.
pub proof fn lemma_fragments_from(
    o: Outline,
    id: int,
    from: int,
    level: usize,
    i: int,
    d: DocView,
)
    requires
        o.wf(),
        o.titled(),
        0 <= id < o.nodes@.len(),
        0 <= from,
        0 <= i < d.cards.len(),
    ensures
        answers_len(with_headline_from(o, id, from, level, Some(i), d).cards) == answers_len(
            d.cards,
        ) + fragments_len_from(o, id, from),
    decreases o.nodes@.len() - id, 2int, o.arity(id) - from,
{
    assert(o.links_forward(id));
    assert(o.titles_lead(id));
    if from < o.arity(id) {
        let c = o.child(id, from);
        match o.nodes@[c].kind {
            Kind::Section => {
                let next = append_content(d, crate::org::section_text(o, c));
                lemma_fragments_from(o, id, from + 1, level, i, next);
            },
            Kind::Headline { level: inner } => {
                let next = with_headline(o, c, inner, Some(i), d);
                lemma_fragments_from(o, c, 0, inner, i, d);
                lemma_headline_extends(o, c, inner, Some(i), d);
                lemma_fragments_from(o, id, from + 1, level, i, next);
            },
            Kind::Title { raw, tags } => {
                assert(from == 0);
                if has_tag(tags@, "card"@) {
                    lemma_card_fragments(o, id, d);
                } else {
                    let next = fold_answer(d, i, raw@);
                    lemma_answers_len_fold(d, i, raw@);
                    lemma_fragments_from(o, id, from + 1, level, i, next);
                }
            },
            _ => {
                lemma_fragments_from(o, id, from + 1, level, i, d);
            },
        }
    }
}

proof fn lemma_card_fragments_from(o: Outline, id: int, from: int, d: DocView)
    requires
        o.wf(),
        o.titled(),
        0 <= id < o.nodes@.len(),
        1 <= from,
        d.cards.len() > 0,
    ensures
        answers_len(with_cards_from(o, id, from, d).cards) == answers_len(d.cards)
            + fragments_len_below(o, id, from),
    decreases o.nodes@.len() - id, 0int, o.arity(id) - from,
{
    assert(o.links_forward(id));
    assert(o.titles_lead(id));
    if from < o.arity(id) {
        let c = o.child(id, from);
        match o.nodes@[c].kind {
            Kind::Headline { level } => {
                let last = d.cards.len() - 1;
                let next = with_headline(o, c, level, Some(last), d);
                lemma_fragments_from(o, c, 0, level, last, d);
                lemma_headline_extends(o, c, level, Some(last), d);
                lemma_card_fragments_from(o, id, from + 1, next);
            },
            _ => {
                lemma_card_fragments_from(o, id, from + 1, d);
            },
        }
    }
}

/// The law of one fragment per title. A headline that is made into cards
/// adds to the answers exactly the fragments of the titles below it that
/// are not tagged `card`; its own title is a question and adds none.
pub proof fn lemma_card_fragments(o: Outline, id: int, d: DocView)
    requires
        o.wf(),
        o.titled(),
        0 <= id < o.nodes@.len(),
        o.nodes@[id].kind is Headline,
    ensures
        answers_len(with_cards(o, id, d).cards) == answers_len(d.cards) + fragments_len_below(
            o,
            id,
            1,
        ),
        o.nodes@[o.child(id, 0)].kind.tagged("card"@) ==> answers_len(with_cards(o, id, d).cards)
            == answers_len(d.cards) + fragments_len(o, id),
    decreases o.nodes@.len() - id, 1int, 0int,
{
    assert(o.headline_titled(id));
    assert(o.links_forward(id));
    let c = o.child(id, 0);
    match o.nodes@[c].kind {
        Kind::Title { raw, tags } => {
            let next = push_card(d, raw@);
            lemma_answers_len_push(d, raw@);
            lemma_card_fragments_from(o, id, 1, next);
        },
        _ => {},
    }
}

/// A headline that is folded into a card adds to the answers exactly the
/// fragments of its titles that are not tagged `card`, see
/// [`lemma_fragments_from`].
pub proof fn lemma_fragments(o: Outline, id: int, level: usize, i: int, d: DocView)
    requires
        o.wf(),
        o.titled(),
        0 <= id < o.nodes@.len(),
        0 <= i < d.cards.len(),
    ensures
        answers_len(with_headline(o, id, level, Some(i), d).cards) == answers_len(d.cards)
            + fragments_len(o, id),
{
    lemma_fragments_from(o, id, 0, level, i, d);
}

/// Whether the node `id` has no section below it, looking at its children
/// from the `from`-th on.
pub open spec fn sectionless_from(o: Outline, id: int, from: int) -> bool
    decreases o.nodes@.len() - id, 0int, o.arity(id) - from,
{
    if 0 <= id < o.nodes@.len() && 0 <= from < o.arity(id) {
        let c = o.child(id, from);
        let here = if id < c < o.nodes@.len() {
            match o.nodes@[c].kind {
                Kind::Section => false,
                Kind::Headline { level } => sectionless(o, c),
                _ => true,
            }
        } else {
            true
        };
        here && sectionless_from(o, id, from + 1)
    } else {
        true
    }
}

/// Whether the node `id` has no section below it.
pub open spec fn sectionless(o: Outline, id: int) -> bool
    decreases o.nodes@.len() - id, 1int, 0int,
{
    if 0 <= id < o.nodes@.len() {
        sectionless_from(o, id, 0)
    } else {
        true
    }
}

/// A headline without sections below it, folded into a card, leaves the
/// content as it is.
pub proof fn lemma_folding_keeps_content_from(
    o: Outline,
    id: int,
    from: int,
    level: usize,
    i: int,
    d: DocView,
)
    requires
        o.wf(),
        o.titled(),
        0 <= id < o.nodes@.len(),
        sectionless_from(o, id, from),
    ensures
        with_headline_from(o, id, from, level, Some(i), d).content == d.content,
    decreases o.nodes@.len() - id, 2int, o.arity(id) - from,
{
    assert(o.links_forward(id));
    if 0 <= from < o.arity(id) {
        let c = o.child(id, from);
        match o.nodes@[c].kind {
            Kind::Headline { level: inner } => {
                let next = with_headline(o, c, inner, Some(i), d);
                assert(sectionless(o, c));
                assert(sectionless_from(o, c, 0));
                lemma_folding_keeps_content_from(o, c, 0, inner, i, d);
                assert(next == with_headline_from(o, c, 0, inner, Some(i), d));
                lemma_folding_keeps_content_from(o, id, from + 1, level, i, next);
            },
            Kind::Title { raw, tags } => {
                if has_tag(tags@, "card"@) {
                    assert(o.titles_lead(id));
                    assert(from == 0);
                    lemma_cards_keep_content_from(o, id, 0, d);
                    assert(with_cards(o, id, d) == with_cards_from(o, id, 0, d));
                } else {
                    let next = fold_answer(d, i, raw@);
                    assert(next == with_title(d, level, Some(i), raw@));
                    lemma_folding_keeps_content_from(o, id, from + 1, level, i, next);
                }
            },
            Kind::Section => {},
            _ => {
                lemma_folding_keeps_content_from(o, id, from + 1, level, i, d);
            },
        }
    }
}

/// A headline without sections below it, made into cards, leaves the
/// content as it is.
pub proof fn lemma_cards_keep_content_from(o: Outline, id: int, from: int, d: DocView)
    requires
        o.wf(),
        o.titled(),
        0 <= id < o.nodes@.len(),
        sectionless_from(o, id, from),
    ensures
        with_cards_from(o, id, from, d).content == d.content,
    decreases o.nodes@.len() - id, 0int, o.arity(id) - from,
{
    assert(o.links_forward(id));
    if 0 <= from < o.arity(id) {
        let c = o.child(id, from);
        match o.nodes@[c].kind {
            Kind::Headline { level } => {
                let next = with_headline(o, c, level, Some(d.cards.len() - 1), d);
                assert(sectionless(o, c));
                assert(sectionless_from(o, c, 0));
                lemma_folding_keeps_content_from(o, c, 0, level, d.cards.len() - 1, d);
                lemma_cards_keep_content_from(o, id, from + 1, next);
            },
            Kind::Title { raw, tags } => {
                lemma_cards_keep_content_from(o, id, from + 1, push_card(d, raw@));
            },
            Kind::Section => {},
            _ => {
                lemma_cards_keep_content_from(o, id, from + 1, d);
            },
        }
    }
}

} // verus!
