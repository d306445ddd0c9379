use flashcard::content_ui::{bullet_glyph, layout_outline, load_item, Face, Layout, Style};
use flashcard::outline::{Kind, Outline, OutlineError};
use flashcard::tokenizer::Token;
use orgize::{Element, Event, Org};

/// The walk of the parser through `text`.
fn walk_of(text: &str) -> Vec<Token> {
    Org::parse(text)
        .iter()
        .map(|event| match event {
            Event::Start(Element::Headline { level }) => Token::Open(Kind::Headline { level: *level }),
            Event::Start(Element::Title(title)) => Token::Open(Kind::Title {
                raw: title.raw.to_string(),
                tags: title.tags.iter().map(|tag| tag.to_string()).collect(),
            }),
            Event::Start(Element::Section) => Token::Open(Kind::Section),
            Event::Start(Element::Paragraph { post_blank }) => {
                Token::Open(Kind::Paragraph { post_blank: *post_blank })
            }
            Event::Start(Element::Text { value }) => Token::Open(Kind::Text { value: value.to_string() }),
            Event::Start(Element::Bold) => Token::Open(Kind::Bold),
            Event::Start(Element::List(list)) => Token::Open(Kind::List { post_blank: list.post_blank }),
            Event::Start(Element::ListItem(item)) => Token::Open(Kind::ListItem {
                indent: item.indent,
                bullet: item.bullet.to_string(),
            }),
            Event::Start(Element::Document { .. }) => Token::Open(Kind::Document),
            Event::Start(_) => Token::Open(Kind::Other),
            Event::End(_) => Token::Close,
        })
        .collect()
}

fn shown(layout: &Layout) -> Vec<(String, usize, Face)> {
    layout.runs.iter().map(|r| (r.text.clone(), r.indent, r.face)).collect()
}

fn piece(text: &str, indent: usize, face: Face) -> (String, usize, Face) {
    (text.to_string(), indent, face)
}

#[test]
fn bullets_have_their_signs() {
    assert_eq!(bullet_glyph("* "), "▫ ");
    assert_eq!(bullet_glyph("- "), "◊ ");
    assert_eq!(bullet_glyph("+ "), "◾ ");
    assert_eq!(bullet_glyph("1. "), "1. ");
    assert_eq!(bullet_glyph("12. "), "12. ");
    assert_eq!(bullet_glyph("007. "), "7. ");
    assert_eq!(bullet_glyph("-3. "), "-3. ");
    assert_eq!(bullet_glyph("1) "), "• ");
    assert_eq!(bullet_glyph("a. "), "• ");
    assert_eq!(bullet_glyph(""), "• ");
    assert_eq!(bullet_glyph("99999999999. "), "• ");
}

#[test]
fn content_is_laid_out_in_runs() {
    let layout = load_item(walk_of("* Plants :context:\nSome *bold* words.\n\n- one\n2. two\n\n** Leaves\nGreen.\n"));
    assert_eq!(
        shown(&layout),
        vec![
            piece("Plants\n", 0, Face::Heading),
            piece("Some ", 0, Face::Body),
            piece("bold", 0, Face::Strong),
            piece("", 0, Face::Plain),
            piece(" words.", 0, Face::Body),
            piece("\n\n", 0, Face::Plain),
            piece("◊ ", 0, Face::Body),
            piece("one", 0, Face::Body),
            piece("\n", 0, Face::Plain),
            piece("", 0, Face::Plain),
            piece("2. ", 0, Face::Body),
            piece("two", 0, Face::Body),
            piece("\n\n", 0, Face::Plain),
            piece("", 0, Face::Plain),
            piece("", 0, Face::Plain),
            piece("\nLeaves\n", 0, Face::Heading),
            piece("Green.", 0, Face::Body),
            piece("\n", 0, Face::Plain),
        ]
    );
}

#[test]
fn text_without_context_is_not_laid_out() {
    assert_eq!(load_item(walk_of("* Plain\ntext\n")).runs.len(), 0);
    assert_eq!(load_item(walk_of("")).runs.len(), 0);
}

#[test]
fn bullet_comes_before_the_first_piece_only() {
    let mut o = Outline::new();
    let p = o.add(None, Kind::Paragraph { post_blank: 0 }).unwrap();
    o.add(Some(p), Kind::Text { value: "a".to_string() }).unwrap();
    o.add(Some(p), Kind::Text { value: "b".to_string() }).unwrap();
    let style = Style::List { indent: 3, bullet: "+ ".to_string() };
    let mut layout = Layout::new();
    layout.handle_paragraph(&o, p, Some(1), &style);
    assert_eq!(
        shown(&layout),
        vec![
            piece("◾ ", 3, Face::Body),
            piece("a", 0, Face::Body),
            piece("b", 0, Face::Body),
            piece("\n\n", 0, Face::Plain),
        ]
    );
    let mut layout = Layout::new();
    layout.handle_paragraph(&o, p, None, &Style::Italics);
    assert_eq!(
        shown(&layout),
        vec![piece("a", 0, Face::Body), piece("b", 0, Face::Body), piece("", 0, Face::Plain)]
    );
}

#[test]
fn nested_list_is_laid_out() {
    let mut o = Outline::new();
    let list = o.add(None, Kind::List { post_blank: 1 }).unwrap();
    let item = o.add(Some(list), Kind::ListItem { indent: 2, bullet: "- ".to_string() }).unwrap();
    let p = o.add(Some(item), Kind::Paragraph { post_blank: 0 }).unwrap();
    o.add(Some(p), Kind::Text { value: "x".to_string() }).unwrap();
    let mut layout = Layout::new();
    layout.handle_section(&o, list);
    assert_eq!(
        shown(&layout),
        vec![
            piece("◊ ", 2, Face::Body),
            piece("x", 0, Face::Body),
            piece("\n", 0, Face::Plain),
            piece("\n", 0, Face::Plain),
            piece("\n", 0, Face::Plain),
        ]
    );
}

#[test]
fn card_headlines_are_laid_out_like_any_other() {
    let mut o = Outline::new();
    let root = o.add(None, Kind::Document).unwrap();
    let h = o.add(Some(root), Kind::Headline { level: 1 }).unwrap();
    o.add(Some(h), Kind::Title { raw: "Ctx".to_string(), tags: vec!["context".to_string()] }).unwrap();
    let c = o.add(Some(h), Kind::Headline { level: 2 }).unwrap();
    o.add(Some(c), Kind::Title { raw: "Q".to_string(), tags: vec!["card".to_string()] }).unwrap();
    let layout = layout_outline(&o).unwrap();
    assert_eq!(
        shown(&layout),
        vec![piece("Ctx\n", 0, Face::Heading), piece("\nQ\n", 0, Face::Heading)]
    );
}

#[test]
fn layout_refuses_broken_links() {
    let mut o = Outline::new();
    o.add(None, Kind::Document).unwrap();
    o.nodes[0].children.push(0);
    assert_eq!(layout_outline(&o).err(), Some(OutlineError::BrokenLink));
}
