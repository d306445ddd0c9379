use flashcard::database::{Documents, Files, FlashCards};
use flashcard::files::{file_stem, is_hidden_name, is_org_name, File, FileUI, ImportStep};

#[test]
fn new_file_is_blank() {
    let f = File::new();
    assert_eq!(f.get_id(), 0);
    assert_eq!(f.get_path(), "");
    assert_eq!(f.get_name(), "");
}

#[test]
fn name_ends_at_the_first_dot() {
    assert_eq!(file_stem("notes.org"), "notes");
    assert_eq!(file_stem("a.b.c"), "a");
    assert_eq!(file_stem("plain"), "plain");
    assert_eq!(file_stem(".hidden"), "");
    assert_eq!(file_stem(""), "");
    assert_eq!(file_stem("zellbiologie über.org"), "zellbiologie über");
    let mut f = File::new();
    f.load_path("/home/user/notes/cells.org", "cells.org");
    assert_eq!(f.get_path(), "/home/user/notes/cells.org");
    assert_eq!(f.get_name(), "cells");
    assert_eq!(f.get_id(), 0);
}

#[test]
fn file_from_the_store() {
    let f = File::from_db(9, "/tmp/x.org", "x");
    assert_eq!(f.get_id(), 9);
    assert_eq!(f.get_path(), "/tmp/x.org");
    assert_eq!(f.get_name(), "x");
}

#[test]
fn hidden_and_org_names() {
    assert!(is_hidden_name(".git"));
    assert!(is_hidden_name("."));
    assert!(!is_hidden_name("notes.org"));
    assert!(!is_hidden_name(""));
    assert!(is_org_name("notes.org"));
    assert!(is_org_name(".org"));
    assert!(!is_org_name("org"));
    assert!(!is_org_name("notes.org.bak"));
    assert!(!is_org_name("notes.txt"));
    assert!(!is_org_name("notes.Org"));
    assert!(is_org_name("é.org"));
    let ui = FileUI::new(Vec::new());
    assert!(ui.is_hidden(".cache"));
    assert!(!ui.is_hidden("cache"));
}

#[test]
fn click_starts_an_import() {
    let mut ui = FileUI::new(vec![File::from_db(1, "/a/b.org", "b")]);
    assert!(!ui.should_import);
    assert_eq!(ui.get_files().len(), 1);
    assert!(matches!(ui.update_files(false, None), ImportStep::Idle));
    assert!(!ui.should_import);
    // a click without a choice, and nothing chosen before: only list anew
    assert!(matches!(ui.update_files(true, None), ImportStep::Reload));
    assert!(ui.should_import);
    assert!(matches!(ui.update_files(false, None), ImportStep::Reload));
    ui.import_and_fill(None);
    assert_eq!(ui.get_files().len(), 1);
    assert!(matches!(ui.update_files(false, None), ImportStep::Idle));
    match ui.update_files(true, Some("/notes".to_string())) {
        ImportStep::Read(folder) => assert_eq!(folder, "/notes"),
        _ => panic!("the folder that was chosen is to be read"),
    }
    // until the import is over the folder is handed out on every turn
    assert!(matches!(ui.update_files(false, None), ImportStep::Read(_)));
    ui.import_and_fill(Some(vec![
        File::from_db(1, "/a/b.org", "b"),
        File::from_db(2, "/notes/c.org", "c"),
    ]));
    assert_eq!(ui.get_files().len(), 2);
    assert_eq!(ui.get_files()[1].get_name(), "c");
    assert!(matches!(ui.update_files(false, None), ImportStep::Idle));
    // the folder that was chosen last is kept
    match ui.update_files(true, None) {
        ImportStep::Read(folder) => assert_eq!(folder, "/notes"),
        _ => panic!("the folder that was chosen last is to be read"),
    }
    assert!(ui.should_import);
}

#[test]
fn names_in_the_store() {
    assert_eq!(Documents::Table.unquoted(), "documents");
    assert_eq!(Documents::Id.unquoted(), "id");
    assert_eq!(Documents::Title.unquoted(), "title");
    assert_eq!(Documents::Content.unquoted(), "content");
    assert_eq!(FlashCards::Table.unquoted(), "flashcards");
    assert_eq!(FlashCards::Id.unquoted(), "id");
    assert_eq!(FlashCards::DocId.unquoted(), "document");
    assert_eq!(FlashCards::Questions.unquoted(), "questions");
    assert_eq!(FlashCards::Answers.unquoted(), "answers");
    assert_eq!(FlashCards::Difficulty.unquoted(), "difficulty");
    assert_eq!(FlashCards::Reps.unquoted(), "repetitions");
    assert_eq!(FlashCards::Interval.unquoted(), "intervals");
    assert_eq!(FlashCards::Created.unquoted(), "created_at");
    assert_eq!(FlashCards::Scheduled.unquoted(), "scheduled_at");
    assert_eq!(Files::Table.unquoted(), "files");
    assert_eq!(Files::Id.unquoted(), "id");
    assert_eq!(Files::Name.unquoted(), "name");
    assert_eq!(Files::Path.unquoted(), "path");
}
