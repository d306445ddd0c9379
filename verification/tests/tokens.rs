use flashcard::org::compile;
use flashcard::outline::{Kind, Outline};
use flashcard::tokenizer::{from_tokens, is_tree_walk, parse, Token};
use orgize::{Element, Event, Org};

/// The kind of a node of the parser.
fn kind_of(element: &Element) -> Kind {
    match element {
        Element::Document { .. } => Kind::Document,
        Element::Headline { level } => Kind::Headline { level: *level },
        Element::Title(title) => Kind::Title {
            raw: title.raw.to_string(),
            tags: title.tags.iter().map(|tag| tag.to_string()).collect(),
        },
        Element::Section => Kind::Section,
        Element::Paragraph { post_blank } => Kind::Paragraph { post_blank: *post_blank },
        Element::Text { value } => Kind::Text { value: value.to_string() },
        Element::Bold => Kind::Bold,
        Element::List(list) => Kind::List { post_blank: list.post_blank },
        Element::ListItem(item) => Kind::ListItem {
            indent: item.indent,
            bullet: item.bullet.to_string(),
        },
        _ => Kind::Other,
    }
}

/// The walk of the parser through `text`.
fn tokens_of(text: &str) -> Vec<Token> {
    Org::parse(text)
        .iter()
        .map(|event| match event {
            Event::Start(element) => Token::Open(kind_of(element)),
            Event::End(_) => Token::Close,
        })
        .collect()
}

/// The outline of `text`.
fn outline_of(text: &str) -> Outline {
    parse(tokens_of(text)).unwrap()
}

fn open_title(raw: &str, tags: &[&str]) -> Token {
    Token::Open(Kind::Title {
        raw: raw.to_string(),
        tags: tags.iter().map(|t| t.to_string()).collect(),
    })
}

#[test]
fn tokens_build_the_tree_in_order() {
    let o = from_tokens(vec![
        Token::Open(Kind::Document),
        Token::Open(Kind::Headline { level: 1 }),
        open_title("A", &["context"]),
        Token::Close,
        Token::Open(Kind::Section),
        Token::Open(Kind::Paragraph { post_blank: 0 }),
        Token::Open(Kind::Text { value: "t".to_string() }),
        Token::Close,
        Token::Close,
        Token::Close,
        Token::Open(Kind::Headline { level: 2 }),
        open_title("B", &[]),
        Token::Close,
        Token::Close,
        Token::Close,
        Token::Close,
    ]);
    assert_eq!(o.len(), 8);
    assert_eq!(o.nodes[0].children, vec![1]);
    assert_eq!(o.nodes[1].children, vec![2, 3, 6]);
    assert_eq!(o.nodes[2].children, Vec::<usize>::new());
    assert_eq!(o.nodes[3].children, vec![4]);
    assert_eq!(o.nodes[4].children, vec![5]);
    assert_eq!(o.nodes[6].children, vec![7]);
    assert!(matches!(o.nodes[6].kind, Kind::Headline { level: 2 }));
    assert_eq!(o.check(), Ok(()));
    let docs = compile(&o).unwrap();
    assert_eq!(docs.len(), 1);
    assert_eq!(docs[0].get_contents(), "* A :context:\nt\n** B\n");
}

#[test]
fn close_without_open_is_skipped() {
    let o = from_tokens(vec![
        Token::Close,
        Token::Open(Kind::Section),
        Token::Close,
        Token::Close,
        Token::Open(Kind::Bold),
        Token::Open(Kind::Other),
    ]);
    assert_eq!(o.len(), 3);
    assert_eq!(o.nodes[0].children, Vec::<usize>::new());
    assert_eq!(o.nodes[1].children, vec![2]);
    assert_eq!(from_tokens(Vec::new()).len(), 0);
}

#[test]
fn parsed_text_compiles() {
    let text = "* Cell Biology :context:\nIntro text.\n\n** What is a cell? :card:\n*** Basic unit of life\n";
    let o = outline_of(text);
    assert_eq!(o.check(), Ok(()));
    let docs = compile(&o).unwrap();
    assert_eq!(docs.len(), 1);
    assert_eq!(docs[0].get_title(), "Cell Biology");
    assert_eq!(docs[0].get_contents(), "* Cell Biology :context:\nIntro text.\n\n");
    assert_eq!(docs[0].get_cards().len(), 1);
    assert_eq!(docs[0].get_cards()[0].get_questions(), "What is a cell?");
    assert_eq!(docs[0].get_cards()[0].get_answers(), "Basic unit of life, ");
}

#[test]
fn parsed_text_keeps_lists_and_bold() {
    let text = "* Plants :context:\nSome *bold* words.\n\n- one\n- two\n\n** Leaves\nGreen.\n";
    let docs = compile(&outline_of(text)).unwrap();
    assert_eq!(docs.len(), 1);
    assert_eq!(docs[0].get_title(), "Plants");
    let content = docs[0].get_contents();
    assert!(content.starts_with("* Plants :context:\nSome *bold* words."));
    assert!(content.contains("- one"));
    assert!(content.contains("- two"));
    assert!(content.contains("** Leaves\nGreen."));
    assert_eq!(docs[0].get_cards().len(), 0);
}

#[test]
fn content_compiles_again_to_the_same_document() {
    let text = "* Plants :context:\nSome *bold* words.\n\n** Leaves\nGreen.\n\n*** Veins\n";
    let first = compile(&outline_of(text)).unwrap();
    assert_eq!(first.len(), 1);
    let again = compile(&outline_of(first[0].get_contents())).unwrap();
    assert_eq!(again.len(), 1);
    assert_eq!(again[0].get_title(), first[0].get_title());
    assert_eq!(again[0].get_cards().len(), first[0].get_cards().len());
    assert_eq!(again[0].get_contents(), first[0].get_contents());
}

#[test]
fn text_without_headlines_has_no_documents() {
    assert_eq!(compile(&outline_of("just a line\n")).unwrap().len(), 0);
    assert_eq!(compile(&outline_of("")).unwrap().len(), 0);
    assert_eq!(compile(&outline_of("* plain\n** nested :context:\n")).unwrap().len(), 0);
}

#[test]
fn parsed_text_is_one_tree() {
    for text in [
        "",
        "just a line\n",
        "* Cell Biology :context:\nIntro text.\n\n** What is a cell? :card:\n*** Basic unit of life\n",
        "* a\n** b\n- one\n  - two\n* c\nSome *bold* words.\n",
    ] {
        let o = outline_of(text);
        assert!(o.len() >= 1);
        for j in 1..o.len() {
            let parents = (0..j).filter(|p| o.nodes[*p].children.contains(&j)).count();
            assert_eq!(parents, 1);
        }
        assert!(!(0..o.len()).any(|p| o.nodes[p].children.contains(&0)));
    }
}

#[test]
fn only_the_walk_of_one_tree_is_parsed() {
    let open = || Token::Open(Kind::Section);
    assert!(parse(vec![]).is_none());
    assert!(parse(vec![open()]).is_none());
    assert!(parse(vec![Token::Close, open()]).is_none());
    assert!(parse(vec![open(), Token::Close, Token::Close]).is_none());
    assert!(parse(vec![open(), open(), Token::Close]).is_none());
    // two trees side by side
    assert!(parse(vec![open(), Token::Close, open(), Token::Close]).is_none());
    assert!(!is_tree_walk(&vec![open(), Token::Close, open(), Token::Close]));
    assert!(is_tree_walk(&vec![open(), Token::Close]));
    let o = parse(vec![open(), open(), Token::Close, open(), open(), Token::Close, Token::Close, Token::Close])
        .unwrap();
    assert_eq!(o.len(), 4);
    assert_eq!(o.nodes[0].children, vec![1, 2]);
    assert_eq!(o.nodes[2].children, vec![3]);
    // the same run builds the same arena, tree or not
    let twice = vec![open(), Token::Close, open(), Token::Close];
    assert_eq!(from_tokens(twice).len(), 2);
}

#[test]
fn root_of_a_parsed_text_is_the_document() {
    let o = outline_of("* a :context:\n");
    assert_eq!(o.nodes[0].kind, Kind::Document);
    assert!(is_tree_walk(&tokens_of("* a :context:\n")));
}
