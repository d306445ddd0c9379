//! The outline tree that documents and cards are compiled from.
//!
//! An [`Outline`] is an arena: its nodes lie in one vector, and each node
//! lists its children by their positions in it. A child always comes after
//! its parent, so a walk from any node ends.

use vstd::prelude::*;

verus! {

/// What a node of the outline is.
#[derive(Debug, Clone, PartialEq, Eq)]
pub enum Kind {
    /// The root of a parsed text.
    Document,
    /// A headline; its first child is its [`Kind::Title`].
    Headline { level: usize },
    /// The heading line of a headline: its text and its tags.
    Title { raw: String, tags: Vec<String> },
    /// What stands under a headline before its first nested headline.
    Section,
    /// A paragraph, followed by `post_blank` blank lines.
    Paragraph { post_blank: usize },
    /// A run of plain text.
    Text { value: String },
    /// Bold text; its children are the text.
    Bold,
    /// A list, followed by `post_blank` blank lines.
    List { post_blank: usize },
    /// One item of a list, `indent` columns in, after `bullet`.
    ListItem { indent: usize, bullet: String },
    /// Any other kind of node. It is skipped.
    Other,
}

/// A node of the arena.
#[derive(Debug, Clone, PartialEq, Eq)]
pub struct Node {
    pub kind: Kind,
    /// The positions of the children in the arena, in document order.
    pub children: Vec<usize>,
}

/// An outline tree.
#[derive(Debug, Clone, PartialEq, Eq)]
pub struct Outline {
    pub nodes: Vec<Node>,
}

/// Why an outline cannot be compiled.
#[derive(Debug, Clone, Copy, PartialEq, Eq, Structural)]
pub enum OutlineError {
    /// Some node lists a child that does not come after it in the arena.
    BrokenLink,
    /// Some headline has no title as its first child.
    MissingTitle,
    /// Some title stands elsewhere than first under a headline.
    StrayTitle,
}

/// Whether `name` is one of `tags`.
pub open spec fn has_tag(tags: Seq<String>, name: Seq<char>) -> bool {
    exists|i: int| 0 <= i < tags.len() && (#[trigger] tags[i])@ == name
}

/// Whether `name` is one of `tags`.
pub fn is_tagged(tags: &Vec<String>, name: &str) -> (found: bool)
    ensures
        found == has_tag(tags@, name@),
{
    let wanted = String::from_str(name);
    let mut i: usize = 0;
    while i < tags.len()
        invariant
            i <= tags.len(),
            wanted@ == name@,
            forall|k: int| 0 <= k < i ==> (#[trigger] tags@[k])@ != name@,
        decreases tags.len() - i,
    {
        if tags[i] == wanted {
            return true;
        }
        i += 1;
    }
    false
}

impl Kind {
    /// Whether this is a title.
    pub fn is_title(&self) -> (b: bool)
        ensures
            b == (self is Title),
    {
        match self {
            Kind::Title { .. } => true,
            _ => false,
        }
    }

    /// Whether this is a headline.
    pub fn is_headline(&self) -> (b: bool)
        ensures
            b == (self is Headline),
    {
        match self {
            Kind::Headline { .. } => true,
            _ => false,
        }
    }

    /// Whether this is a title that carries the tag `name`.
    pub open spec fn tagged(self, name: Seq<char>) -> bool {
        match self {
            Kind::Title { raw, tags } => has_tag(tags@, name),
            _ => false,
        }
    }
}

impl Outline {
    /// The position of the `j`-th child of node `i`.
    pub open spec fn child(self, i: int, j: int) -> int {
        self.nodes@[i].children@[j] as int
    }

    /// How many children node `i` has.
    pub open spec fn arity(self, i: int) -> int {
        self.nodes@[i].children@.len() as int
    }

    /// Every child of node `i` comes after `i` and lies in the arena.
    pub open spec fn links_forward(self, i: int) -> bool {
        forall|j: int| 0 <= j < self.arity(i) ==> i < #[trigger] self.child(i, j) < self.nodes@.len()
    }

    /// The arena is well formed: every child comes after its parent.
    pub open spec fn wf(self) -> bool {
        forall|i: int| 0 <= i < self.nodes@.len() ==> #[trigger] self.links_forward(i)
    }

    /// Node `j` is a child of a node before it.
    pub open spec fn has_parent(self, j: int) -> bool {
        exists|p: int| 0 <= p < j && (#[trigger] self.nodes@[p]).children@.contains(j as usize)
    }

    /// The arena holds one tree, and the node at position 0 is its root:
    /// there is a node, and every other node is a child of a node before it.
    pub open spec fn rooted(self) -> bool {
        &&& self.nodes@.len() >= 1
        &&& forall|j: int| 0 < j < self.nodes@.len() ==> #[trigger] self.has_parent(j)
    }

    /// If node `i` is a headline, its first child is a title.
    pub open spec fn headline_titled(self, i: int) -> bool {
        self.nodes@[i].kind is Headline ==> self.arity(i) > 0 && self.nodes@[self.child(
            i,
            0,
        )].kind is Title
    }

    /// Any title among the children of node `i` is the first child, and `i`
    /// is a headline.
    pub open spec fn titles_lead(self, i: int) -> bool {
        forall|j: int|
            0 <= j < self.arity(i) && self.nodes@[#[trigger] self.child(i, j)].kind is Title ==> j
                == 0 && self.nodes@[i].kind is Headline
    }

    /// Every headline starts with its title.
    pub open spec fn all_headlines_titled(self) -> bool {
        forall|i: int| 0 <= i < self.nodes@.len() ==> #[trigger] self.headline_titled(i)
    }

    /// Titles stand nowhere but first under a headline.
    pub open spec fn all_titles_lead(self) -> bool {
        forall|i: int| 0 <= i < self.nodes@.len() ==> #[trigger] self.titles_lead(i)
    }

    /// Every headline starts with its title, and titles stand nowhere else.
    pub open spec fn titled(self) -> bool {
        self.all_headlines_titled() && self.all_titles_lead()
    }

    /// What is wrong with the outline, if anything: the first of broken
    /// links, a headline without title, a stray title.
    pub open spec fn fault(self) -> Option<OutlineError> {
        if !self.wf() {
            Some(OutlineError::BrokenLink)
        } else if !self.all_headlines_titled() {
            Some(OutlineError::MissingTitle)
        } else if !self.all_titles_lead() {
            Some(OutlineError::StrayTitle)
        } else {
            None
        }
    }

    /// An outline without nodes.
    pub fn new() -> (o: Self)
        ensures
            o.nodes@.len() == 0,
            o.wf(),
            o.titled(),
    {
        Outline { nodes: Vec::new() }
    }

    /// The number of nodes.
    pub fn len(&self) -> (n: usize)
        ensures
            n == self.nodes@.len(),
    {
        self.nodes.len()
    }

    /// Adds a node that holds `element`, as the last child of `parent` if
    /// one is given, and returns its position. With a `parent` that is not
    /// in the arena nothing is added.
    pub fn add(&mut self, parent: Option<usize>, element: Kind) -> (id: Option<usize>)
        requires
            old(self).wf(),
        ensures
            final(self).wf(),
            id is None <==> (parent matches Some(p) && p >= old(self).nodes@.len()),
            id is None ==> *final(self) == *old(self),
            id matches Some(n) ==> {
                &&& n == old(self).nodes@.len()
                &&& final(self).nodes@.len() == n + 1
                &&& final(self).nodes@[n as int].kind == element
                &&& final(self).nodes@[n as int].children@.len() == 0
                &&& forall|i: int|
                    0 <= i < n && parent != Some(i as usize) ==> final(self).nodes@[i] == old(
                        self,
                    ).nodes@[i]
                &&& parent matches Some(p) ==> {
                    &&& final(self).nodes@[p as int].kind == old(self).nodes@[p as int].kind
                    &&& final(self).nodes@[p as int].children@ == old(
                        self,
                    ).nodes@[p as int].children@.push(n)
                }
            },
    {
        let n = self.nodes.len();
        match parent {
            Some(p) => {
                if p >= n {
                    return None;
                }
                self.nodes[p].children.push(n);
            },
            None => {},
        }
        self.nodes.push(Node { kind: element, children: Vec::new() });
        proof {
            let before = *old(self);
            let after = *self;
            assert forall|i: int| 0 <= i < after.nodes@.len() implies #[trigger] after.links_forward(
                i,
            ) by {
                if i < n {
                    assert(before.links_forward(i));
                    assert forall|j: int| 0 <= j < after.arity(i) implies i < #[trigger] after.child(
                        i,
                        j,
                    ) < after.nodes@.len() by {
                        if j < before.arity(i) {
                            assert(after.child(i, j) == before.child(i, j));
                        }
                    }
                }
            }
        }
        Some(n)
    }

    /// Looks for what [`Outline::fault`] describes.
    pub fn check(&self) -> (r: Result<(), OutlineError>)
        ensures
            r == match self.fault() {
                Some(e) => Err::<(), OutlineError>(e),
                None => Ok::<(), OutlineError>(()),
            },
    {
        let n = self.nodes.len();
        let mut i: usize = 0;
        while i < n
            invariant
                i <= n,
                n == self.nodes@.len(),
                forall|k: int| 0 <= k < i ==> #[trigger] self.links_forward(k),
            decreases n - i,
        {
            let m = self.nodes[i].children.len();
            let mut j: usize = 0;
            while j < m
                invariant
                    j <= m,
                    i < n,
                    n == self.nodes@.len(),
                    m == self.arity(i as int),
                    forall|k: int| 0 <= k < j ==> i < #[trigger] self.child(i as int, k) < n,
                decreases m - j,
            {
                let c = self.nodes[i].children[j];
                if c <= i || c >= n {
                    assert(!self.links_forward(i as int)) by {
                        assert(self.child(i as int, j as int) == c);
                    }
                    return Err(OutlineError::BrokenLink);
                }
                j += 1;
            }
            i += 1;
        }
        assert(self.wf());
        i = 0;
        while i < n
            invariant
                i <= n,
                n == self.nodes@.len(),
                self.wf(),
                forall|k: int| 0 <= k < i ==> #[trigger] self.headline_titled(k),
            decreases n - i,
        {
            assert(self.links_forward(i as int));
            if self.nodes[i].kind.is_headline() {
                if self.nodes[i].children.len() == 0 {
                    assert(!self.headline_titled(i as int));
                    return Err(OutlineError::MissingTitle);
                }
                let c = self.nodes[i].children[0];
                assert(c == self.child(i as int, 0));
                if !self.nodes[c].kind.is_title() {
                    assert(!self.headline_titled(i as int));
                    return Err(OutlineError::MissingTitle);
                }
            }
            i += 1;
        }
        assert(self.all_headlines_titled());
        i = 0;
        while i < n
            invariant
                i <= n,
                n == self.nodes@.len(),
                self.wf(),
                self.all_headlines_titled(),
                forall|k: int| 0 <= k < i ==> #[trigger] self.titles_lead(k),
            decreases n - i,
        {
            assert(self.links_forward(i as int));
            let m = self.nodes[i].children.len();
            let leads = self.nodes[i].kind.is_headline();
            let mut j: usize = 0;
            while j < m
                invariant
                    j <= m,
                    i < n,
                    n == self.nodes@.len(),
                    m == self.arity(i as int),
                    self.wf(),
                    self.all_headlines_titled(),
                    self.links_forward(i as int),
                    leads == (self.nodes@[i as int].kind is Headline),
                    forall|k: int|
                        0 <= k < j && self.nodes@[#[trigger] self.child(i as int, k)].kind is Title
                            ==> k == 0 && leads,
                decreases m - j,
            {
                let c = self.nodes[i].children[j];
                assert(c == self.child(i as int, j as int));
                if self.nodes[c].kind.is_title() && !(j == 0 && leads) {
                    assert(!self.titles_lead(i as int));
                    return Err(OutlineError::StrayTitle);
                }
                j += 1;
            }
            i += 1;
        }
        assert(self.all_titles_lead());
        Ok(())
    }
}

} // verus!
