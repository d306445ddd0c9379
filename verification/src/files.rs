//! The files that documents were read from, and which files to read.

use vstd::prelude::*;

verus! {

/// A file that was read: its number in the store, its full path, and its
/// name without what follows the first dot.
#[derive(Debug)]
pub struct File {
    id: i64,
    file_path: String,
    file_name: String,
}

/// What a [`File`] holds.
pub struct FileView {
    pub id: int,
    pub path: Seq<char>,
    pub name: Seq<char>,
}

impl View for File {
    type V = FileView;

    closed spec fn view(&self) -> FileView {
        FileView { id: self.id as int, path: self.file_path@, name: self.file_name@ }
    }
}

/// The position of the first dot of `name` at or after `from`, or the
/// length of `name` where there is none.
pub open spec fn dot_from(name: Seq<char>, from: int) -> int
    decreases name.len() - from,
{
    if from < 0 || from >= name.len() {
        name.len() as int
    } else if name[from] == '.' {
        from
    } else {
        dot_from(name, from + 1)
    }
}

/// `name` up to its first dot.
pub open spec fn stem(name: Seq<char>) -> Seq<char> {
    name.take(dot_from(name, 0))
}

/// Whether `name` is that of a hidden file: it begins with a dot.
pub open spec fn hidden(name: Seq<char>) -> bool {
    name.len() > 0 && name[0] == '.'
}

/// Whether `name` ends in `.org`.
pub open spec fn org_named(name: Seq<char>) -> bool {
    name.len() >= 4 && name.subrange(name.len() - 4, name.len() as int) == seq!['.', 'o', 'r', 'g']
}

/// The first dot of a name lies in it or at its end, no dot comes before
/// it, and it is a dot where it lies in the name.
pub proof fn lemma_dot_from(name: Seq<char>, from: int)
    requires
        0 <= from <= name.len(),
    ensures
        from <= dot_from(name, from) <= name.len(),
        forall|k: int| from <= k < dot_from(name, from) ==> name[k] != '.',
        dot_from(name, from) < name.len() ==> name[dot_from(name, from)] == '.',
    decreases name.len() - from,
{
    if from < name.len() && name[from] != '.' {
        lemma_dot_from(name, from + 1);
    }
}

/// The stem of a name begins the name, holds no dot, and is followed by a
/// dot or by nothing.
pub proof fn lemma_stem(name: Seq<char>)
    ensures
        stem(name).is_prefix_of(name),
        forall|k: int| 0 <= k < stem(name).len() ==> stem(name)[k] != '.',
        stem(name).len() == name.len() || name[stem(name).len() as int] == '.',
{
    lemma_dot_from(name, 0);
}

/// `name` up to its first dot.
pub fn file_stem(name: &str) -> (short: String)
    ensures
        short@ == stem(name@),
{
    let n = name.unicode_len();
    let mut i: usize = 0;
    while i < n
        invariant
            i <= n,
            n == name@.len(),
            dot_from(name@, 0) == dot_from(name@, i as int),
        ensures
            i <= n,
            dot_from(name@, 0) == i,
        decreases n - i,
    {
        if name.get_char(i) == '.' {
            break ;
        }
        i += 1;
    }
    String::from_str(name.substring_char(0, i))
}

/// Whether `name` is that of a hidden file, see [`hidden`].
pub fn is_hidden_name(name: &str) -> (b: bool)
    ensures
        b == hidden(name@),
{
    name.unicode_len() > 0 && name.get_char(0) == '.'
}

/// Whether `name` ends in `.org`, see [`org_named`].
pub fn is_org_name(name: &str) -> (b: bool)
    ensures
        b == org_named(name@),
{
    let n = name.unicode_len();
    if n < 4 {
        return false;
    }
    let b = name.get_char(n - 4) == '.' && name.get_char(n - 3) == 'o' && name.get_char(n - 2)
        == 'r' && name.get_char(n - 1) == 'g';
    proof {
        let tail = name@.subrange(n - 4, n as int);
        if b {
            assert(tail =~= seq!['.', 'o', 'r', 'g']);
        } else {
            assert(tail[0] == name@[n - 4] && tail[1] == name@[n - 3] && tail[2] == name@[n - 2]
                && tail[3] == name@[n - 1]);
        }
    }
    b
}

impl File {
    /// A file of which nothing is known yet.
    pub fn new() -> (file: Self)
        ensures
            file@ == (FileView { id: 0, path: Seq::empty(), name: Seq::empty() }),
    {
        File { file_path: String::new(), file_name: String::new(), id: 0 }
    }

    /// A file as it was stored.
    pub fn from_db(id: i64, path: &str, name: &str) -> (file: Self)
        ensures
            file@ == (FileView { id: id as int, path: path@, name: name@ }),
    {
        File { id, file_path: String::from_str(path), file_name: String::from_str(name) }
    }

    /// Takes over the full path `path` of a file and its name: of `name`
    /// what comes before the first dot.
    pub fn load_path(&mut self, path: &str, name: &str)
        ensures
            final(self)@ == (FileView { path: path@, name: stem(name@), ..old(self)@ }),
    {
        self.file_path = String::from_str(path);
        self.file_name = file_stem(name);
    }

    /// The full path.
    pub fn get_path(&self) -> (path: &str)
        ensures
            path@ == self@.path,
    {
        self.file_path.as_str()
    }

    /// The name, without what follows its first dot.
    pub fn get_name(&self) -> (name: &str)
        ensures
            name@ == self@.name,
    {
        self.file_name.as_str()
    }

    /// The number in the store; 0 until the file is stored.
    pub fn get_id(&self) -> (id: i64)
        ensures
            id == self@.id,
    {
        self.id
    }
}

/// What the list of files shows, and whether a folder is to be read.
#[derive(Debug)]
pub struct FileUI {
    picked_path: Option<String>,
    loaded_files: Vec<File>,
    imported: bool,
    pub should_import: bool,
}

/// What a [`FileUI`] holds.
pub struct FileUIView {
    /// The folder that was picked last.
    pub picked: Option<Seq<char>>,
    /// The files that are listed.
    pub files: Seq<FileView>,
    /// A folder is to be read now.
    pub imported: bool,
    /// A new pass is to be loaded once the folder was read.
    pub should_import: bool,
}

/// What is to be done in a turn of the list.
#[derive(Debug)]
pub enum ImportStep {
    /// Nothing.
    Idle,
    /// No folder was ever picked: only list the files anew.
    Reload,
    /// Read this folder, then list the files anew.
    Read(String),
}

/// What is to be done in the state `s`.
pub open spec fn step_of(s: FileUIView, step: ImportStep) -> bool {
    match step {
        ImportStep::Idle => !s.imported,
        ImportStep::Reload => s.imported && s.picked is None,
        ImportStep::Read(folder) => s.imported && s.picked == Some(folder@),
    }
}

/// The views of `files`, in order.
pub open spec fn file_views(files: Seq<File>) -> Seq<FileView> {
    Seq::new(files.len(), |i: int| files[i]@)
}

/// The state after a turn of the list in which the button was `clicked`,
/// and `chosen` is the folder that the user picked then, if any.
pub open spec fn after_click(s: FileUIView, clicked: bool, chosen: Option<Seq<char>>) -> FileUIView {
    if clicked {
        FileUIView {
            picked: if chosen is Some {
                chosen
            } else {
                s.picked
            },
            imported: true,
            should_import: true,
            ..s
        }
    } else {
        s
    }
}

impl View for FileUI {
    type V = FileUIView;

    closed spec fn view(&self) -> FileUIView {
        FileUIView {
            picked: match self.picked_path {
                Some(p) => Some(p@),
                None => None,
            },
            files: file_views(self.loaded_files@),
            imported: self.imported,
            should_import: self.should_import,
        }
    }
}

impl FileUI {
    /// A list that shows `files`.
    pub fn new(files: Vec<File>) -> (ui: Self)
        ensures
            ui@ == (FileUIView {
                picked: None,
                files: file_views(files@),
                imported: false,
                should_import: false,
            }),
    {
        FileUI { picked_path: None, imported: false, loaded_files: files, should_import: false }
    }

    /// One turn of the list. If the button was `clicked`, the folder that
    /// was `chosen` is remembered, and an import is due. Returns what is to
    /// be done now. An import stays due until [`FileUI::import_and_fill`]
    /// ends it.
    pub fn update_files(&mut self, clicked: bool, chosen: Option<String>) -> (step: ImportStep)
        ensures
            final(self)@ == after_click(
                old(self)@,
                clicked,
                match chosen {
                    Some(c) => Some(c@),
                    None => None,
                },
            ),
            step_of(final(self)@, step),
    {
        if clicked {
            match chosen {
                Some(path) => {
                    self.picked_path = Some(path);
                },
                None => {},
            }
            self.imported = true;
            self.should_import = true;
        }
        if self.imported {
            match &self.picked_path {
                Some(path) => ImportStep::Read(path.clone()),
                None => ImportStep::Reload,
            }
        } else {
            ImportStep::Idle
        }
    }

    /// Ends the turn in which a folder was to be read: `files` are listed
    /// from now on, if any were loaded.
    pub fn import_and_fill(&mut self, files: Option<Vec<File>>)
        ensures
            final(self)@ == (FileUIView {
                files: match files {
                    Some(f) => file_views(f@),
                    None => old(self)@.files,
                },
                imported: false,
                ..old(self)@
            }),
    {
        match files {
            Some(loaded) => {
                self.loaded_files = loaded;
            },
            None => {},
        }
        self.imported = false;
    }

    /// Whether a file of this name is left out, see [`hidden`].
    pub fn is_hidden(&self, name: &str) -> (b: bool)
        ensures
            b == hidden(name@),
    {
        is_hidden_name(name)
    }

    /// The files that are listed.
    pub fn get_files(&self) -> (files: &Vec<File>)
        ensures
            file_views(files@) == self@.files,
    {
        &self.loaded_files
    }
}

} // verus!
