use flashcard::org::{compile, Document, FlashCard};
use flashcard::outline::{Kind, Outline, OutlineError};
use flashcard::sr::Stats;

fn title(raw: &str, tags: &[&str]) -> Kind {
    Kind::Title { raw: raw.to_string(), tags: tags.iter().map(|t| t.to_string()).collect() }
}

fn text(value: &str) -> Kind {
    Kind::Text { value: value.to_string() }
}

fn headline(o: &mut Outline, parent: usize, level: usize, raw: &str, tags: &[&str]) -> usize {
    let h = o.add(Some(parent), Kind::Headline { level }).unwrap();
    o.add(Some(h), title(raw, tags)).unwrap();
    h
}

fn paragraph(o: &mut Outline, parent: usize, value: &str, post_blank: usize) -> usize {
    let p = o.add(Some(parent), Kind::Paragraph { post_blank }).unwrap();
    o.add(Some(p), text(value)).unwrap();
    p
}

/// A context "Cell Biology" with one paragraph and one card.
fn cell_biology() -> Outline {
    let mut o = Outline::new();
    let root = o.add(None, Kind::Document).unwrap();
    let context = headline(&mut o, root, 1, "Cell Biology", &["context"]);
    let section = o.add(Some(context), Kind::Section).unwrap();
    paragraph(&mut o, section, "Intro text.", 1);
    let card = headline(&mut o, context, 2, "What is a cell?", &["card"]);
    headline(&mut o, card, 3, "Basic unit of life", &[]);
    o
}

#[test]
fn context_with_one_card() {
    let o = cell_biology();
    let docs = compile(&o).unwrap();
    assert_eq!(docs.len(), 1);
    let doc = &docs[0];
    assert_eq!(doc.get_title(), "Cell Biology");
    assert_eq!(doc.get_contents(), "* Cell Biology :context:\nIntro text.\n\n");
    assert_eq!(doc.get_cards().len(), 1);
    assert_eq!(doc.get_cards()[0].get_questions(), "What is a cell?");
    assert_eq!(doc.get_cards()[0].get_answers(), "Basic unit of life, ");
    assert_eq!(*doc.get_cards()[0].get_stats(), Stats::new());
    assert_eq!(doc.get_id(), 0);
}

#[test]
fn content_begins_with_the_context_line() {
    let o = cell_biology();
    let docs = compile(&o).unwrap();
    assert!(docs[0].get_contents().starts_with("* Cell Biology :context:\n"));
}

#[test]
fn headlines_without_context_are_ignored() {
    let mut o = Outline::new();
    let root = o.add(None, Kind::Document).unwrap();
    let plain = headline(&mut o, root, 1, "Notes", &["draft"]);
    headline(&mut o, plain, 2, "Hidden", &["context"]);
    let docs = compile(&o).unwrap();
    assert_eq!(docs.len(), 0);
    let mut doc = Document::new();
    doc.handle_context(&o, plain);
    assert_eq!(doc.get_contents(), "");
    assert_eq!(doc.get_title(), "");
    assert_eq!(doc.get_cards().len(), 0);
}

#[test]
fn each_context_is_a_document_of_its_own() {
    let mut o = Outline::new();
    let root = o.add(None, Kind::Document).unwrap();
    headline(&mut o, root, 1, "One", &["context"]);
    headline(&mut o, root, 1, "Skipped", &[]);
    headline(&mut o, root, 1, "Two", &["other", "context"]);
    let docs = compile(&o).unwrap();
    assert_eq!(docs.len(), 2);
    assert_eq!(docs[0].get_title(), "One");
    assert_eq!(docs[0].get_contents(), "* One :context:\n");
    assert_eq!(docs[1].get_title(), "Two");
    assert_eq!(docs[1].get_contents(), "* Two :context:\n");
}

#[test]
fn empty_outline_has_no_documents() {
    let o = Outline::new();
    assert_eq!(compile(&o).unwrap().len(), 0);
    assert_eq!(o.len(), 0);
}

#[test]
fn nested_headlines_are_rendered_at_their_level() {
    let mut o = Outline::new();
    let root = o.add(None, Kind::Document).unwrap();
    let context = headline(&mut o, root, 1, "Top", &["context"]);
    // the children of a context are rendered at level 2, whatever they say
    let a = headline(&mut o, context, 5, "A", &[]);
    let section = o.add(Some(a), Kind::Section).unwrap();
    paragraph(&mut o, section, "Under A.\n", 0);
    let b = headline(&mut o, a, 3, "B", &[]);
    headline(&mut o, b, 4, "C", &["note"]);
    let docs = compile(&o).unwrap();
    assert_eq!(
        docs[0].get_contents(),
        "* Top :context:\n** A\nUnder A.\n\n*** B\n**** C\n"
    );
    assert_eq!(docs[0].get_cards().len(), 0);
}

#[test]
fn paragraph_with_bold_text() {
    let mut o = Outline::new();
    let p = o.add(None, Kind::Paragraph { post_blank: 2 }).unwrap();
    o.add(Some(p), text("plain ")).unwrap();
    let bold = o.add(Some(p), Kind::Bold).unwrap();
    o.add(Some(bold), text("strong")).unwrap();
    o.add(Some(p), Kind::Other).unwrap();
    o.add(Some(p), text(" end")).unwrap();
    let mut doc = Document::new();
    doc.handle_paragraph(&o, p, Some(2));
    assert_eq!(doc.get_contents(), "plain *strong* end\n\n\n");
    let mut doc = Document::new();
    doc.handle_paragraph(&o, p, None);
    assert_eq!(doc.get_contents(), "plain *strong* end");
    let mut doc = Document::new();
    doc.handle_section(&o, p);
    assert_eq!(doc.get_contents(), "plain *strong* end\n\n\n");
}

#[test]
fn list_with_items() {
    let mut o = Outline::new();
    let section = o.add(None, Kind::Section).unwrap();
    let list = o.add(Some(section), Kind::List { post_blank: 1 }).unwrap();
    let first = o.add(Some(list), Kind::ListItem { indent: 0, bullet: "- ".to_string() }).unwrap();
    paragraph(&mut o, first, "one\n", 0);
    let second = o.add(Some(list), Kind::ListItem { indent: 2, bullet: "+ ".to_string() }).unwrap();
    paragraph(&mut o, second, "two\n", 0);
    let inner = o.add(Some(second), Kind::List { post_blank: 0 }).unwrap();
    let third = o.add(Some(inner), Kind::ListItem { indent: 4, bullet: "1. ".to_string() }).unwrap();
    paragraph(&mut o, third, "three\n", 0);
    let mut doc = Document::new();
    doc.handle_section(&o, section);
    // every item is followed by the blank lines of its list, and so is the list
    assert_eq!(
        doc.get_contents(),
        "- one\n\n\n  + two\n\n    1. three\n\n\n\n"
    );
    let mut doc = Document::new();
    doc.handle_list(&o, inner, 0);
    assert_eq!(doc.get_contents(), "    1. three\n\n");
}

#[test]
fn other_nodes_add_nothing() {
    let mut o = Outline::new();
    let other = o.add(None, Kind::Other).unwrap();
    o.add(Some(other), text("unseen")).unwrap();
    let mut doc = Document::new();
    doc.handle_section(&o, other);
    assert_eq!(doc.get_contents(), "");
}

#[test]
fn nested_titles_fold_in_document_order() {
    let mut o = Outline::new();
    let root = o.add(None, Kind::Document).unwrap();
    let context = headline(&mut o, root, 1, "Ctx", &["context"]);
    let card = headline(&mut o, context, 2, "Q", &["card"]);
    let a = headline(&mut o, card, 3, "a", &[]);
    headline(&mut o, a, 4, "a1", &[]);
    headline(&mut o, a, 4, "a2", &[]);
    headline(&mut o, card, 3, "b", &[]);
    let docs = compile(&o).unwrap();
    assert_eq!(docs[0].get_cards().len(), 1);
    assert_eq!(docs[0].get_cards()[0].get_questions(), "Q");
    assert_eq!(docs[0].get_cards()[0].get_answers(), "a, a1, a2, b, ");
    assert_eq!(docs[0].get_contents(), "* Ctx :context:\n");
}

#[test]
fn card_without_nested_headlines_has_an_empty_answer() {
    let mut o = Outline::new();
    let root = o.add(None, Kind::Document).unwrap();
    let context = headline(&mut o, root, 1, "Ctx", &["context"]);
    let card = headline(&mut o, context, 2, "Alone", &["card"]);
    let section = o.add(Some(card), Kind::Section).unwrap();
    paragraph(&mut o, section, "not rendered", 0);
    let docs = compile(&o).unwrap();
    assert_eq!(docs[0].get_cards().len(), 1);
    assert_eq!(docs[0].get_cards()[0].get_questions(), "Alone");
    assert_eq!(docs[0].get_cards()[0].get_answers(), "");
    assert_eq!(docs[0].get_contents(), "* Ctx :context:\n");
}

#[test]
fn nested_card_starts_a_new_card() {
    let mut o = Outline::new();
    let root = o.add(None, Kind::Document).unwrap();
    let context = headline(&mut o, root, 1, "Ctx", &["context"]);
    let card = headline(&mut o, context, 2, "Q1", &["card"]);
    headline(&mut o, card, 3, "a", &[]);
    let inner = headline(&mut o, card, 3, "Q2", &["card"]);
    headline(&mut o, inner, 4, "b", &[]);
    // what follows a nested card is folded into the card that was made last
    headline(&mut o, card, 3, "c", &[]);
    let docs = compile(&o).unwrap();
    let cards = docs[0].get_cards();
    assert_eq!(cards.len(), 2);
    assert_eq!(cards[0].get_questions(), "Q1");
    assert_eq!(cards[0].get_answers(), "a, ");
    assert_eq!(cards[1].get_questions(), "Q2");
    assert_eq!(cards[1].get_answers(), "b, c, ");
}

#[test]
fn card_below_a_rendered_headline() {
    let mut o = Outline::new();
    let root = o.add(None, Kind::Document).unwrap();
    let context = headline(&mut o, root, 1, "Ctx", &["context"]);
    let plain = headline(&mut o, context, 2, "Part", &[]);
    let card = headline(&mut o, plain, 3, "Q", &["card"]);
    let nested = headline(&mut o, card, 4, "A", &[]);
    let section = o.add(Some(nested), Kind::Section).unwrap();
    paragraph(&mut o, section, "detail\n", 0);
    let docs = compile(&o).unwrap();
    // the section of a folded headline still goes to the content
    assert_eq!(docs[0].get_contents(), "* Ctx :context:\n** Part\ndetail\n\n");
    assert_eq!(docs[0].get_cards().len(), 1);
    assert_eq!(docs[0].get_cards()[0].get_answers(), "A, ");
}

#[test]
fn folding_into_a_card_that_is_named() {
    let mut o = Outline::new();
    let h = o.add(None, Kind::Headline { level: 1 }).unwrap();
    o.add(Some(h), title("x", &[])).unwrap();
    headline(&mut o, h, 2, "y", &[]);
    let mut doc = Document::new();
    doc.handle_normal_headline(&o, h, 1, Some(0));
    assert_eq!(doc.get_cards().len(), 0);
    assert_eq!(doc.get_contents(), "");
    doc.handle_flashcards(&o, h);
    assert_eq!(doc.get_cards().len(), 1);
    assert_eq!(doc.get_cards()[0].get_questions(), "x");
    assert_eq!(doc.get_cards()[0].get_answers(), "y, ");
    doc.handle_normal_headline(&o, h, 1, Some(0));
    assert_eq!(doc.get_cards()[0].get_answers(), "y, x, y, ");
    doc.handle_normal_headline(&o, h, 3, None);
    assert_eq!(doc.get_contents(), "*** x\n** y\n");
    doc.handle_headline(&o, h);
    assert_eq!(doc.get_contents(), "*** x\n** y\n** x\n** y\n");
}

#[test]
fn update_id_reaches_every_card() {
    let o = cell_biology();
    let mut docs = compile(&o).unwrap();
    let mut doc = docs.remove(0);
    doc.update_id(42);
    assert_eq!(doc.get_id(), 42);
    assert_eq!(doc.get_cards()[0].get_doc_id(), 42);
    assert_eq!(doc.get_cards()[0].get_id(), 0);
    assert_eq!(doc.get_title(), "Cell Biology");
}

#[test]
fn broken_link_is_refused() {
    let mut o = Outline::new();
    o.add(None, Kind::Document).unwrap();
    o.add(Some(0), Kind::Section).unwrap();
    o.nodes[1].children.push(0);
    assert_eq!(o.check(), Err(OutlineError::BrokenLink));
    assert_eq!(compile(&o).err(), Some(OutlineError::BrokenLink));
    let mut o = Outline::new();
    o.add(None, Kind::Document).unwrap();
    o.nodes[0].children.push(7);
    assert_eq!(o.check(), Err(OutlineError::BrokenLink));
}

#[test]
fn headline_without_title_is_refused() {
    let mut o = Outline::new();
    let root = o.add(None, Kind::Document).unwrap();
    o.add(Some(root), Kind::Headline { level: 1 }).unwrap();
    assert_eq!(o.check(), Err(OutlineError::MissingTitle));
    assert_eq!(compile(&o).err(), Some(OutlineError::MissingTitle));
    let mut o = Outline::new();
    let root = o.add(None, Kind::Document).unwrap();
    let h = o.add(Some(root), Kind::Headline { level: 1 }).unwrap();
    o.add(Some(h), Kind::Section).unwrap();
    o.add(Some(h), title("late", &[])).unwrap();
    assert_eq!(o.check(), Err(OutlineError::MissingTitle));
}

#[test]
fn stray_title_is_refused() {
    let mut o = Outline::new();
    let root = o.add(None, Kind::Document).unwrap();
    o.add(Some(root), title("loose", &["card"])).unwrap();
    assert_eq!(o.check(), Err(OutlineError::StrayTitle));
    assert_eq!(compile(&o).err(), Some(OutlineError::StrayTitle));
    let mut o = Outline::new();
    let root = o.add(None, Kind::Document).unwrap();
    let h = headline(&mut o, root, 1, "first", &[]);
    o.add(Some(h), title("second", &[])).unwrap();
    assert_eq!(o.check(), Err(OutlineError::StrayTitle));
}

#[test]
fn sound_outline_passes_the_check() {
    assert_eq!(cell_biology().check(), Ok(()));
    assert_eq!(Outline::new().check(), Ok(()));
}

#[test]
fn add_refuses_a_parent_that_is_missing() {
    let mut o = Outline::new();
    assert_eq!(o.add(Some(0), Kind::Section), None);
    assert_eq!(o.len(), 0);
    assert_eq!(o.add(None, Kind::Document), Some(0));
    assert_eq!(o.add(Some(1), Kind::Section), None);
    assert_eq!(o.add(Some(0), Kind::Section), Some(1));
    assert_eq!(o.nodes[0].children, vec![1]);
    assert_eq!(o.len(), 2);
}

#[test]
fn cards_from_the_store() {
    let stats = Stats { interval: 4, repetitions: 2, difficulty: 150 };
    let card = FlashCard::from_db("q", "a, ", 7, 3, stats, 738_000, 738_004);
    assert_eq!(card.get_id(), 7);
    assert_eq!(card.get_doc_id(), 3);
    assert_eq!(card.get_questions(), "q");
    assert_eq!(card.get_answers(), "a, ");
    assert_eq!(*card.get_stats(), stats);
    assert_eq!(card.get_created(), 738_000);
    assert_eq!(card.get_scheduled(), 738_004);
    let doc = Document::from_db(3, "T", "* T :context:\n");
    assert_eq!(doc.get_id(), 3);
    assert_eq!(doc.get_title(), "T");
    assert_eq!(doc.get_contents(), "* T :context:\n");
    assert_eq!(doc.get_cards().len(), 0);
}

#[test]
fn card_is_built_piece_by_piece() {
    let mut card = FlashCard::new();
    assert_eq!(card.get_questions(), "");
    assert_eq!(card.get_answers(), "");
    card.add_question("What");
    card.add_question("?");
    card.add_answer("this");
    card.add_answer("that");
    assert_eq!(card.get_questions(), "What?");
    assert_eq!(card.get_answers(), "this, that, ");
    card.get_stats_mut().repeat(4);
    assert_eq!(*card.get_stats(), Stats { interval: 1, repetitions: 1, difficulty: 140 });
    card.reschedule(100);
    assert_eq!(card.get_scheduled(), 101);
    assert_eq!(card.get_created(), 0);
}

#[test]
fn question_is_the_whole_title() {
    let mut o = Outline::new();
    let root = o.add(None, Kind::Document).unwrap();
    let context = headline(&mut o, root, 1, "Cell Biology", &["context"]);
    let card = headline(&mut o, context, 2, "Q: What is a cell?", &["card"]);
    headline(&mut o, card, 3, "Basic unit of life", &[]);
    let docs = compile(&o).unwrap();
    assert_eq!(docs[0].get_cards()[0].get_questions(), "Q: What is a cell?");
    assert_eq!(docs[0].get_cards()[0].get_answers(), "Basic unit of life, ");
}

#[test]
fn one_card_for_each_card_title_in_document_order() {
    let mut o = Outline::new();
    let root = o.add(None, Kind::Document).unwrap();
    let context = headline(&mut o, root, 1, "Ctx", &["context"]);
    let first = headline(&mut o, context, 2, "Q1", &["card"]);
    let plain = headline(&mut o, first, 3, "x1", &[]);
    let inner = headline(&mut o, plain, 4, "Q2", &["card"]);
    headline(&mut o, inner, 5, "y1", &[]);
    headline(&mut o, plain, 4, "x2", &[]);
    let part = headline(&mut o, context, 2, "Part", &[]);
    headline(&mut o, part, 3, "Q3", &["card"]);
    let docs = compile(&o).unwrap();
    let cards = docs[0].get_cards();
    let questions: Vec<&str> = cards.iter().map(|c| c.get_questions()).collect();
    assert_eq!(questions, vec!["Q1", "Q2", "Q3"]);
    // each title that is no card gives one fragment to one card
    assert_eq!(cards[0].get_answers(), "x1, x2, ");
    assert_eq!(cards[1].get_answers(), "y1, ");
    assert_eq!(cards[2].get_answers(), "");
    assert_eq!(docs[0].get_contents(), "* Ctx :context:\n** Part\n");
}
