//! How the content of a document is laid out for reading.
//!
//! The content is parsed again, by the program that shows it, and walked
//! once more. What comes out is a run of pieces of text, each with the face it is set in and the columns
//! it is moved in by. Cards are not told from other headlines here: what
//! is shown is the content, and the content holds no cards.

use crate::files::{file_stem, stem};
use crate::org::{is_context, is_context_headline, line_breaks, push_repeated, repeated_char, title_of};
use crate::outline::{Kind, Outline, OutlineError};
use crate::tokenizer::{built, from_tokens, holds, Token};
use vstd::prelude::*;

verus! {

/// The face that a piece of text is set in.
#[derive(Debug, Clone, Copy, PartialEq, Eq, Structural)]
pub enum Face {
    /// The face of headings.
    Heading,
    /// The face of running text.
    Body,
    /// The face of bold text.
    Strong,
    /// No face of its own: the blank lines between paragraphs.
    Plain,
}

/// What the text of a paragraph is set as.
#[derive(Debug)]
pub enum Style {
    /// The first paragraph of a list item: it begins with the bullet.
    List { indent: usize, bullet: String },
    Bold,
    Italics,
    Default,
}

/// A piece of text, with its face, moved in by `indent` columns.
#[derive(Debug, Clone, PartialEq, Eq)]
pub struct Run {
    pub text: String,
    pub indent: usize,
    pub face: Face,
}

/// What a [`Run`] holds.
pub struct RunView {
    pub text: Seq<char>,
    pub indent: int,
    pub face: Face,
}

impl View for Run {
    type V = RunView;

    open spec fn view(&self) -> RunView {
        RunView { text: self.text@, indent: self.indent as int, face: self.face }
    }
}

/// The views of `runs`, in order.
pub open spec fn run_views(runs: Seq<Run>) -> Seq<RunView> {
    Seq::new(runs.len(), |i: int| runs[i]@)
}

/// The pieces of text of a content, in order.
#[derive(Debug)]
pub struct Layout {
    pub runs: Vec<Run>,
}

impl View for Layout {
    type V = Seq<RunView>;

    open spec fn view(&self) -> Seq<RunView> {
        run_views(self.runs@)
    }
}

/// The number that `str::parse::<i32>` reads from `text`, if it reads one.
pub uninterp spec fn parsed_number(text: Seq<char>) -> Option<i32>;

/// The text that `ToString::to_string` writes for `n`.
pub uninterp spec fn number_text(n: int) -> Seq<char>;

/// Reads a number with `str::parse::<i32>`. The contract gives the result
/// its name, [`parsed_number`], and claims nothing else of it.
#[verifier::external_body]
fn parse_number(text: &str) -> (n: Option<i32>)
    ensures
        n == parsed_number(text@),
{
    text.parse::<i32>().ok()
}

/// Writes a number with `ToString::to_string`. The contract gives the
/// result its name, [`number_text`], and claims nothing else of it.
#[verifier::external_body]
fn write_number(n: i32) -> (text: String)
    ensures
        text@ == number_text(n as int),
{
    n.to_string()
}

/// The sign that is shown for the bullet of a list item: one for each of
/// `* `, `- ` and `+ `; for a number followed by a dot that number, a dot
/// and a space; and a round dot for anything else.
pub open spec fn glyph(bullet: Seq<char>) -> Seq<char> {
    if bullet == "* "@ {
        "▫ "@
    } else if bullet == "- "@ {
        "◊ "@
    } else if bullet == "+ "@ {
        "◾ "@
    } else {
        match parsed_number(stem(bullet)) {
            Some(n) => number_text(n as int) + ". "@,
            None => "• "@,
        }
    }
}

/// A run as a value.
pub open spec fn run(text: Seq<char>, indent: int, face: Face) -> RunView {
    RunView { text, indent, face }
}

/// The run that a piece of plain text of a paragraph set as `style` makes;
/// before it, where it is the first piece of a list item, the bullet.
pub open spec fn text_runs(style: Style, first: bool, value: Seq<char>) -> Seq<RunView> {
    match style {
        Style::List { indent, bullet } => if first {
            seq![run(glyph(bullet@), indent as int, Face::Body), run(value, 0, Face::Body)]
        } else {
            seq![run(value, 0, Face::Body)]
        },
        Style::Bold => seq![run(value, 0, Face::Strong)],
        _ => seq![run(value, 0, Face::Body)],
    }
}

/// The runs of the children of the paragraph `id` from the `from`-th on.
pub open spec fn inline_runs(o: Outline, id: int, from: int, style: Style) -> Seq<RunView>
    decreases o.nodes@.len() - id, 0int, o.arity(id) - from,
{
    if 0 <= id < o.nodes@.len() && 0 <= from < o.arity(id) {
        let c = o.child(id, from);
        let piece = if id < c < o.nodes@.len() {
            match o.nodes@[c].kind {
                Kind::Text { value } => text_runs(style, from == 0, value@),
                Kind::Bold => paragraph_runs(o, c, None, Style::Bold),
                _ => Seq::empty(),
            }
        } else {
            Seq::empty()
        };
        piece + inline_runs(o, id, from + 1, style)
    } else {
        Seq::empty()
    }
}

/// The runs of the paragraph `id`, ended by a run of line breaks.
pub open spec fn paragraph_runs(o: Outline, id: int, blank: Option<usize>, style: Style) -> Seq<
    RunView,
>
    decreases o.nodes@.len() - id, 1int, 0int,
{
    if 0 <= id < o.nodes@.len() {
        inline_runs(o, id, 0, style) + seq![
            run(repeated_char('\n', line_breaks(blank)), 0, Face::Plain),
        ]
    } else {
        Seq::empty()
    }
}

/// The runs of the children of the list or list item `id` from the
/// `from`-th on.
pub open spec fn list_item_runs(o: Outline, id: int, from: int, post_blank: usize, style: Style) -> Seq<
    RunView,
>
    decreases o.nodes@.len() - id, 2int, o.arity(id) - from,
{
    if 0 <= id < o.nodes@.len() && 0 <= from < o.arity(id) {
        let c = o.child(id, from);
        let piece = if id < c < o.nodes@.len() {
            match o.nodes@[c].kind {
                Kind::List { post_blank: inner } => list_runs(o, c, inner, Style::Default),
                Kind::ListItem { indent, bullet } => list_runs(
                    o,
                    c,
                    post_blank,
                    Style::List { indent, bullet },
                ),
                Kind::Paragraph { post_blank: inner } => paragraph_runs(o, c, Some(inner), style),
                _ => Seq::empty(),
            }
        } else {
            Seq::empty()
        };
        piece + list_item_runs(o, id, from + 1, post_blank, style)
    } else {
        Seq::empty()
    }
}

/// The runs of the list or list item `id`, ended by a run of `post_blank`
/// line breaks.
pub open spec fn list_runs(o: Outline, id: int, post_blank: usize, style: Style) -> Seq<RunView>
    decreases o.nodes@.len() - id, 3int, 0int,
{
    if 0 <= id < o.nodes@.len() {
        list_item_runs(o, id, 0, post_blank, style) + seq![
            run(repeated_char('\n', post_blank as nat), 0, Face::Plain),
        ]
    } else {
        Seq::empty()
    }
}

/// The runs of the children of the section `id` from the `from`-th on.
pub open spec fn section_part_runs(o: Outline, id: int, from: int) -> Seq<RunView>
    decreases o.nodes@.len() - id, 4int, o.arity(id) - from,
{
    if 0 <= id < o.nodes@.len() && 0 <= from < o.arity(id) {
        let c = o.child(id, from);
        let piece = if id < c < o.nodes@.len() {
            section_runs(o, c)
        } else {
            Seq::empty()
        };
        piece + section_part_runs(o, id, from + 1)
    } else {
        Seq::empty()
    }
}

/// The runs of the node `id` where it is a section, a paragraph or a list;
/// none for any other node.
pub open spec fn section_runs(o: Outline, id: int) -> Seq<RunView>
    decreases o.nodes@.len() - id, 5int, 0int,
{
    if 0 <= id < o.nodes@.len() {
        match o.nodes@[id].kind {
            Kind::Section => section_part_runs(o, id, 0),
            Kind::Paragraph { post_blank } => paragraph_runs(o, id, Some(post_blank), Style::Default),
            Kind::List { post_blank } => list_runs(o, id, post_blank, Style::Default),
            _ => Seq::empty(),
        }
    } else {
        Seq::empty()
    }
}

/// The run of a heading below the context: its text on a line of its own.
pub open spec fn heading_run(raw: Seq<char>) -> RunView {
    run("\n"@ + raw + "\n"@, 0, Face::Heading)
}

/// The runs of the children of the headline `id` from the `from`-th on.
pub open spec fn headline_part_runs(o: Outline, id: int, from: int) -> Seq<RunView>
    decreases o.nodes@.len() - id, 0int, o.arity(id) - from,
{
    if 0 <= id < o.nodes@.len() && 0 <= from < o.arity(id) {
        let c = o.child(id, from);
        let piece = if id < c < o.nodes@.len() {
            match o.nodes@[c].kind {
                Kind::Section => section_runs(o, c),
                Kind::Headline { level } => headline_runs(o, c),
                Kind::Title { raw, tags } => seq![heading_run(raw@)],
                _ => Seq::empty(),
            }
        } else {
            Seq::empty()
        };
        piece + headline_part_runs(o, id, from + 1)
    } else {
        Seq::empty()
    }
}

/// The runs of the headline `id`: its heading, its section, and the
/// headlines below it.
pub open spec fn headline_runs(o: Outline, id: int) -> Seq<RunView>
    decreases o.nodes@.len() - id, 1int, 0int,
{
    if 0 <= id < o.nodes@.len() {
        headline_part_runs(o, id, 0)
    } else {
        Seq::empty()
    }
}

/// The runs of the node `id` below a context, looking at its children from
/// the `from`-th on: those of a headline, for each title that it has.
pub open spec fn child_runs_from(o: Outline, id: int, from: int) -> Seq<RunView>
    decreases o.arity(id) - from,
{
    if 0 <= id < o.nodes@.len() && 0 <= from < o.arity(id) {
        let c = o.child(id, from);
        let piece = if id < c < o.nodes@.len() && o.nodes@[c].kind is Title {
            headline_runs(o, id)
        } else {
            Seq::empty()
        };
        piece + child_runs_from(o, id, from + 1)
    } else {
        Seq::empty()
    }
}

/// The runs of the children of the context `id` from the `from`-th on.
pub open spec fn children_runs_from(o: Outline, id: int, from: int) -> Seq<RunView>
    decreases o.arity(id) - from,
{
    if 0 <= id < o.nodes@.len() && 0 <= from < o.arity(id) {
        let c = o.child(id, from);
        let piece = if id < c < o.nodes@.len() {
            child_runs_from(o, c, 0)
        } else {
            Seq::empty()
        };
        piece + children_runs_from(o, id, from + 1)
    } else {
        Seq::empty()
    }
}

/// The runs of the section of the headline `id`: of its second child, if
/// that is a section.
pub open spec fn own_section_runs(o: Outline, id: int) -> Seq<RunView> {
    if o.arity(id) > 1 && id < o.child(id, 1) < o.nodes@.len() && o.nodes@[o.child(
        id,
        1,
    )].kind is Section {
        section_runs(o, o.child(id, 1))
    } else {
        Seq::empty()
    }
}

/// The runs of the headline `id` where it is a context: its title as a
/// heading, its own section, and its children. None for any other node.
pub open spec fn context_runs(o: Outline, id: int) -> Seq<RunView> {
    if is_context(o, id) {
        seq![run(title_of(o, id) + "\n"@, 0, Face::Heading)] + own_section_runs(o, id)
            + children_runs_from(o, id, 0)
    } else {
        Seq::empty()
    }
}

/// The runs of the children of the root from the `from`-th on.
pub open spec fn laid_out_from(o: Outline, from: int) -> Seq<RunView>
    decreases o.arity(0) - from,
{
    if 0 < o.nodes@.len() && 0 <= from < o.arity(0) {
        context_runs(o, o.child(0, from)) + laid_out_from(o, from + 1)
    } else {
        Seq::empty()
    }
}

/// The runs of an outline: those of each context among the children of its
/// root, in order.
pub open spec fn laid_out(o: Outline) -> Seq<RunView> {
    laid_out_from(o, 0)
}

/// Whether two texts are the same.
fn same_text(a: &str, b: &str) -> (same: bool)
    ensures
        same == (a@ == b@),
{
    String::from_str(a) == String::from_str(b)
}

/// The sign that is shown for `bullet`, see [`glyph`].
pub fn bullet_glyph(bullet: &str) -> (sign: String)
    ensures
        sign@ == glyph(bullet@),
{
    if same_text(bullet, "* ") {
        String::from_str("▫ ")
    } else if same_text(bullet, "- ") {
        String::from_str("◊ ")
    } else if same_text(bullet, "+ ") {
        String::from_str("◾ ")
    } else {
        let digits = file_stem(bullet);
        match parse_number(digits.as_str()) {
            Some(n) => {
                let mut sign = write_number(n);
                sign.append(". ");
                sign
            },
            None => String::from_str("• "),
        }
    }
}

impl Layout {
    /// A layout without runs.
    pub fn new() -> (layout: Self)
        ensures
            layout@ == Seq::<RunView>::empty(),
    {
        let layout = Layout { runs: Vec::new() };
        assert(layout@ =~= Seq::empty());
        layout
    }

    /// Adds a run at the end.
    pub fn append(&mut self, text: String, indent: usize, face: Face)
        ensures
            final(self)@ == old(self)@.push(run(text@, indent as int, face)),
    {
        self.runs.push(Run { text, indent, face });
        assert(self@ =~= old(self)@.push(run(text@, indent as int, face)));
    }

    /// Adds a run of `n` line breaks.
    fn append_breaks(&mut self, n: usize, extra: bool)
        ensures
            final(self)@ == old(self)@.push(
                run(
                    repeated_char(
                        '\n',
                        if extra {
                            (n + 1) as nat
                        } else {
                            n as nat
                        },
                    ),
                    0,
                    Face::Plain,
                ),
            ),
    {
        let mut breaks = String::new();
        proof {
            reveal_strlit("\n");
            assert("\n"@ =~= seq!['\n']);
        }
        push_repeated(&mut breaks, "\n", '\n', n);
        assert(breaks@ =~= repeated_char('\n', n as nat));
        if extra {
            breaks.append("\n");
            assert(breaks@ =~= repeated_char('\n', (n + 1) as nat));
        }
        self.append(breaks, 0, Face::Plain);
    }

    /// Adds the sign of the bullet of a list item, moved in by `indent`
    /// columns.
    pub fn fill_list(&mut self, indent: usize, bullet: &str)
        ensures
            final(self)@ == old(self)@.push(run(glyph(bullet@), indent as int, Face::Body)),
    {
        self.append(bullet_glyph(bullet), indent, Face::Body);
    }

    /// Adds the runs of the paragraph `id`, see [`paragraph_runs`].
    pub fn handle_paragraph(&mut self, outline: &Outline, id: usize, blank: Option<usize>, style: &Style)
        requires
            outline.wf(),
            id < outline.nodes@.len(),
        ensures
            final(self)@ == old(self)@ + paragraph_runs(*outline, id as int, blank, *style),
        decreases outline.nodes@.len() - id, 1int,
    {
        let ghost start = self@;
        let ghost whole = inline_runs(*outline, id as int, 0, *style);
        let n = outline.nodes[id].children.len();
        let mut j: usize = 0;
        assert(start + whole =~= self@ + whole);
        while j < n
            invariant
                j <= n,
                outline.wf(),
                id < outline.nodes@.len(),
                n == outline.arity(id as int),
                whole == inline_runs(*outline, id as int, 0, *style),
                start + whole == self@ + inline_runs(*outline, id as int, j as int, *style),
            decreases n - j,
        {
            let c = outline.nodes[id].children[j];
            assert(outline.links_forward(id as int));
            assert(c == outline.child(id as int, j as int));
            let ghost before = self@;
            let ghost rest = inline_runs(*outline, id as int, j + 1, *style);
            match &outline.nodes[c].kind {
                Kind::Text { value } => {
                    match style {
                        Style::List { indent, bullet } => {
                            if j < 1 {
                                self.fill_list(*indent, bullet.as_str());
                            }
                            self.append(value.clone(), 0, Face::Body);
                        },
                        Style::Bold => {
                            self.append(value.clone(), 0, Face::Strong);
                        },
                        _ => {
                            self.append(value.clone(), 0, Face::Body);
                        },
                    }
                    assert(self@ + rest =~= before + (text_runs(*style, j == 0, value@) + rest));
                },
                Kind::Bold => {
                    self.handle_paragraph(outline, c, None, &Style::Bold);
                    assert(self@ + rest =~= before + (paragraph_runs(
                        *outline,
                        c as int,
                        None,
                        Style::Bold,
                    ) + rest));
                },
                _ => {
                    assert(self@ + rest =~= before + (Seq::<RunView>::empty() + rest));
                },
            }
            j += 1;
        }
        assert(self@ =~= start + whole);
        match blank {
            Some(b) => {
                self.append_breaks(b, true);
            },
            None => {
                self.append_breaks(0, false);
            },
        }
        assert(self@ =~= start + (whole + seq![
            run(repeated_char('\n', line_breaks(blank)), 0, Face::Plain),
        ]));
    }

    /// Adds the runs of the list or list item `id`, see [`list_runs`].
    pub fn handle_list(&mut self, outline: &Outline, id: usize, post_blank: usize, style: &Style)
        requires
            outline.wf(),
            id < outline.nodes@.len(),
        ensures
            final(self)@ == old(self)@ + list_runs(*outline, id as int, post_blank, *style),
        decreases outline.nodes@.len() - id, 3int,
    {
        let ghost start = self@;
        let ghost whole = list_item_runs(*outline, id as int, 0, post_blank, *style);
        let n = outline.nodes[id].children.len();
        let mut j: usize = 0;
        assert(start + whole =~= self@ + whole);
        while j < n
            invariant
                j <= n,
                outline.wf(),
                id < outline.nodes@.len(),
                n == outline.arity(id as int),
                whole == list_item_runs(*outline, id as int, 0, post_blank, *style),
                start + whole == self@ + list_item_runs(
                    *outline,
                    id as int,
                    j as int,
                    post_blank,
                    *style,
                ),
            decreases n - j,
        {
            let c = outline.nodes[id].children[j];
            assert(outline.links_forward(id as int));
            assert(c == outline.child(id as int, j as int));
            let ghost before = self@;
            let ghost rest = list_item_runs(*outline, id as int, j + 1, post_blank, *style);
            match &outline.nodes[c].kind {
                Kind::List { post_blank: inner } => {
                    self.handle_list(outline, c, *inner, &Style::Default);
                    assert(self@ + rest =~= before + (list_runs(
                        *outline,
                        c as int,
                        *inner,
                        Style::Default,
                    ) + rest));
                },
                Kind::ListItem { indent, bullet } => {
                    let item = Style::List { indent: *indent, bullet: bullet.clone() };
                    self.handle_list(outline, c, post_blank, &item);
                    assert(self@ + rest =~= before + (list_runs(*outline, c as int, post_blank, item)
                        + rest));
                },
                Kind::Paragraph { post_blank: inner } => {
                    self.handle_paragraph(outline, c, Some(*inner), style);
                    assert(self@ + rest =~= before + (paragraph_runs(
                        *outline,
                        c as int,
                        Some(*inner),
                        *style,
                    ) + rest));
                },
                _ => {
                    assert(self@ + rest =~= before + (Seq::<RunView>::empty() + rest));
                },
            }
            j += 1;
        }
        assert(self@ =~= start + whole);
        self.append_breaks(post_blank, false);
        assert(self@ =~= start + (whole + seq![
            run(repeated_char('\n', post_blank as nat), 0, Face::Plain),
        ]));
    }

    /// Adds the runs of the node `id` where it is a section, a paragraph or
    /// a list, see [`section_runs`].
    pub fn handle_section(&mut self, outline: &Outline, id: usize)
        requires
            outline.wf(),
            id < outline.nodes@.len(),
        ensures
            final(self)@ == old(self)@ + section_runs(*outline, id as int),
        decreases outline.nodes@.len() - id, 5int,
    {
        let ghost start = self@;
        match &outline.nodes[id].kind {
            Kind::Section => {
                let ghost whole = section_part_runs(*outline, id as int, 0);
                let n = outline.nodes[id].children.len();
                let mut j: usize = 0;
                assert(start + whole =~= self@ + whole);
                while j < n
                    invariant
                        j <= n,
                        outline.wf(),
                        id < outline.nodes@.len(),
                        n == outline.arity(id as int),
                        whole == section_part_runs(*outline, id as int, 0),
                        start + whole == self@ + section_part_runs(*outline, id as int, j as int),
                    decreases n - j,
                {
                    let c = outline.nodes[id].children[j];
                    assert(outline.links_forward(id as int));
                    assert(c == outline.child(id as int, j as int));
                    let ghost before = self@;
                    let ghost rest = section_part_runs(*outline, id as int, j + 1);
                    self.handle_section(outline, c);
                    assert(self@ + rest =~= before + (section_runs(*outline, c as int) + rest));
                    j += 1;
                }
                assert(self@ =~= start + whole);
            },
            Kind::Paragraph { post_blank } => {
                self.handle_paragraph(outline, id, Some(*post_blank), &Style::Default);
            },
            Kind::List { post_blank } => {
                self.handle_list(outline, id, *post_blank, &Style::Default);
            },
            _ => {
                assert(self@ =~= start + Seq::<RunView>::empty());
            },
        }
    }

    /// Adds the runs of the headline `id`, see [`headline_runs`].
    pub fn handle_normal_headline(&mut self, outline: &Outline, id: usize)
        requires
            outline.wf(),
            id < outline.nodes@.len(),
        ensures
            final(self)@ == old(self)@ + headline_runs(*outline, id as int),
        decreases outline.nodes@.len() - id, 1int,
    {
        let ghost start = self@;
        let ghost whole = headline_part_runs(*outline, id as int, 0);
        let n = outline.nodes[id].children.len();
        let mut j: usize = 0;
        assert(start + whole =~= self@ + whole);
        while j < n
            invariant
                j <= n,
                outline.wf(),
                id < outline.nodes@.len(),
                n == outline.arity(id as int),
                whole == headline_part_runs(*outline, id as int, 0),
                start + whole == self@ + headline_part_runs(*outline, id as int, j as int),
            decreases n - j,
        {
            let c = outline.nodes[id].children[j];
            assert(outline.links_forward(id as int));
            assert(c == outline.child(id as int, j as int));
            let ghost before = self@;
            let ghost rest = headline_part_runs(*outline, id as int, j + 1);
            match &outline.nodes[c].kind {
                Kind::Section => {
                    self.handle_section(outline, c);
                    assert(self@ + rest =~= before + (section_runs(*outline, c as int) + rest));
                },
                Kind::Headline { level } => {
                    self.handle_normal_headline(outline, c);
                    assert(self@ + rest =~= before + (headline_runs(*outline, c as int) + rest));
                },
                Kind::Title { raw, tags } => {
                    let mut line = String::from_str("\n");
                    line.append(raw.as_str());
                    line.append("\n");
                    self.append(line, 0, Face::Heading);
                    assert(self@ + rest =~= before + (seq![heading_run(raw@)] + rest));
                },
                _ => {
                    assert(self@ + rest =~= before + (Seq::<RunView>::empty() + rest));
                },
            }
            j += 1;
        }
        assert(self@ =~= start + whole);
    }

    /// Adds the runs of the node `id` below a context, see
    /// [`child_runs_from`].
    pub fn handle_headline(&mut self, outline: &Outline, id: usize)
        requires
            outline.wf(),
            id < outline.nodes@.len(),
        ensures
            final(self)@ == old(self)@ + child_runs_from(*outline, id as int, 0),
    {
        let ghost start = self@;
        let ghost whole = child_runs_from(*outline, id as int, 0);
        let n = outline.nodes[id].children.len();
        let mut j: usize = 0;
        assert(start + whole =~= self@ + whole);
        while j < n
            invariant
                j <= n,
                outline.wf(),
                id < outline.nodes@.len(),
                n == outline.arity(id as int),
                whole == child_runs_from(*outline, id as int, 0),
                start + whole == self@ + child_runs_from(*outline, id as int, j as int),
            decreases n - j,
        {
            let c = outline.nodes[id].children[j];
            assert(outline.links_forward(id as int));
            assert(c == outline.child(id as int, j as int));
            let ghost before = self@;
            let ghost rest = child_runs_from(*outline, id as int, j + 1);
            if outline.nodes[c].kind.is_title() {
                self.handle_normal_headline(outline, id);
                assert(self@ + rest =~= before + (headline_runs(*outline, id as int) + rest));
            } else {
                assert(self@ + rest =~= before + (Seq::<RunView>::empty() + rest));
            }
            j += 1;
        }
        assert(self@ =~= start + whole);
    }

    /// Adds the runs of the headline `headline` where it is a context, see
    /// [`context_runs`].
    pub fn handle_context(&mut self, outline: &Outline, headline: usize)
        requires
            outline.wf(),
            headline < outline.nodes@.len(),
        ensures
            final(self)@ == old(self)@ + context_runs(*outline, headline as int),
    {
        let ghost start = self@;
        if !is_context_headline(outline, headline) {
            assert(self@ =~= start + Seq::<RunView>::empty());
            return ;
        }
        assert(outline.links_forward(headline as int));
        let n = outline.nodes[headline].children.len();
        let title = outline.nodes[headline].children[0];
        assert(title == outline.child(headline as int, 0));
        match &outline.nodes[title].kind {
            Kind::Title { raw, tags } => {
                let mut line = raw.clone();
                line.append("\n");
                self.append(line, 0, Face::Heading);
            },
            _ => {},
        }
        let ghost head = seq![run(title_of(*outline, headline as int) + "\n"@, 0, Face::Heading)];
        assert(self@ =~= start + head);
        if n > 1 {
            let section = outline.nodes[headline].children[1];
            assert(section == outline.child(headline as int, 1));
            match &outline.nodes[section].kind {
                Kind::Section => {
                    self.handle_section(outline, section);
                },
                _ => {},
            }
        }
        let ghost own = own_section_runs(*outline, headline as int);
        assert(self@ =~= start + head + own);
        let ghost opened = self@;
        let ghost whole = children_runs_from(*outline, headline as int, 0);
        let mut j: usize = 0;
        assert(opened + whole =~= self@ + whole);
        while j < n
            invariant
                j <= n,
                outline.wf(),
                headline < outline.nodes@.len(),
                n == outline.arity(headline as int),
                whole == children_runs_from(*outline, headline as int, 0),
                opened + whole == self@ + children_runs_from(*outline, headline as int, j as int),
            decreases n - j,
        {
            let c = outline.nodes[headline].children[j];
            assert(outline.links_forward(headline as int));
            assert(c == outline.child(headline as int, j as int));
            let ghost before = self@;
            let ghost rest = children_runs_from(*outline, headline as int, j + 1);
            self.handle_headline(outline, c);
            assert(self@ + rest =~= before + (child_runs_from(*outline, c as int, 0) + rest));
            j += 1;
        }
        assert(self@ =~= start + (head + own + whole));
    }
}

/// Lays out an outline: each context among the children of its root, in
/// order. An outline with broken links is refused.
pub fn layout_outline(outline: &Outline) -> (r: Result<Layout, OutlineError>)
    ensures
        match r {
            Ok(layout) => outline.wf() && layout@ == laid_out(*outline),
            Err(e) => !outline.wf() && e == OutlineError::BrokenLink,
        },
{
    match outline.check() {
        Err(OutlineError::BrokenLink) => {
            return Err(OutlineError::BrokenLink);
        },
        _ => {},
    }
    let mut layout = Layout::new();
    if outline.nodes.len() == 0 {
        return Ok(layout);
    }
    let ghost whole = laid_out(*outline);
    let n = outline.nodes[0].children.len();
    let mut j: usize = 0;
    assert(whole =~= layout@ + laid_out_from(*outline, 0));
    while j < n
        invariant
            j <= n,
            outline.wf(),
            0 < outline.nodes@.len(),
            n == outline.arity(0),
            whole == laid_out(*outline),
            whole == layout@ + laid_out_from(*outline, j as int),
        decreases n - j,
    {
        let c = outline.nodes[0].children[j];
        assert(outline.links_forward(0));
        assert(c == outline.child(0, j as int));
        let ghost before = layout@;
        let ghost rest = laid_out_from(*outline, j + 1);
        layout.handle_context(outline, c);
        assert(layout@ + rest =~= before + (context_runs(*outline, c as int) + rest));
        j += 1;
    }
    assert(layout@ =~= whole);
    Ok(layout)
}

/// Lays out the content of a document, given as the run of tokens that a
/// parser made of it: the outline of the tokens is built, and each context
/// in it is laid out.
pub fn load_item(tokens: Vec<Token>) -> (layout: Layout)
    ensures
        exists|o: Outline|
            holds(o, built(tokens@)) && o.wf() && layout@ == #[trigger] laid_out(o),
{
    let outline = from_tokens(tokens);
    match layout_outline(&outline) {
        Ok(layout) => layout,
        Err(_) => Layout::new(),
    }
}

} // verus!
