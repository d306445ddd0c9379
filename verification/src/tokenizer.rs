//! From a walk through a text to an outline.
//!
//! A parser hands over what it finds as a run of [`Token`]s, one where a
//! node opens and one where it closes. [`from_tokens`] builds the arena from
//! any such run, and [`parse`] takes the run that walks one tree.

use crate::outline::{Kind, Outline};
use vstd::prelude::*;

verus! {

/// One step of a walk through a tree: into a node, or out of the node that
/// was entered last.
#[derive(Debug, Clone, PartialEq, Eq)]
pub enum Token {
    Open(Kind),
    Close,
}

/// A tree while it is built from tokens.
pub struct Build {
    /// The element of each node, in the order in which the nodes opened.
    pub elements: Seq<Kind>,
    /// The children of each node.
    pub children: Seq<Seq<usize>>,
    /// The nodes that are open, the outermost first.
    pub open: Seq<usize>,
}

/// `b` after `token`. A node that opens is the next node of the arena, and
/// the last child of the innermost open node, if there is one. A node that
/// closes is the innermost open node; with no node open nothing closes.
pub open spec fn after_token(b: Build, token: Token) -> Build {
    match token {
        Token::Open(element) => {
            let n = b.elements.len() as usize;
            let children = if b.open.len() > 0 {
                b.children.update(b.open.last() as int, b.children[b.open.last() as int].push(n))
            } else {
                b.children
            };
            Build {
                elements: b.elements.push(element),
                children: children.push(Seq::empty()),
                open: b.open.push(n),
            }
        },
        Token::Close => {
            if b.open.len() > 0 {
                Build { open: b.open.drop_last(), ..b }
            } else {
                b
            }
        },
    }
}

/// The tree that `tokens` build.
pub open spec fn built(tokens: Seq<Token>) -> Build
    decreases tokens.len(),
{
    if tokens.len() == 0 {
        Build { elements: Seq::empty(), children: Seq::empty(), open: Seq::empty() }
    } else {
        after_token(built(tokens.drop_last()), tokens.last())
    }
}

/// Whether the arena `o` holds the tree `b`.
pub open spec fn holds(o: Outline, b: Build) -> bool {
    &&& o.nodes@.len() == b.elements.len()
    &&& b.children.len() == b.elements.len()
    &&& forall|k: int|
        0 <= k < o.nodes@.len() ==> (#[trigger] o.nodes@[k]).kind == b.elements[k]
            && o.nodes@[k].children@ == b.children[k]
}

/// How deep a walk is after its first `k` steps: the steps into a node,
/// less the steps out of one. `steps[i]` says whether the `i`-th step goes
/// into a node.
pub open spec fn depth(steps: Seq<bool>, k: int) -> int
    decreases k,
{
    if k <= 0 {
        0
    } else if steps[k - 1] {
        depth(steps, k - 1) + 1
    } else {
        depth(steps, k - 1) - 1
    }
}

/// Whether `steps` is the walk through one tree: it goes into the root
/// first, comes out of it last, and is inside it in between.
pub open spec fn walks_tree(steps: Seq<bool>) -> bool {
    &&& steps.len() >= 2
    &&& depth(steps, steps.len() as int) == 0
    &&& forall|k: int| 0 < k < steps.len() ==> #[trigger] depth(steps, k) > 0
}

/// For each token, whether it opens a node.
pub open spec fn opens(tokens: Seq<Token>) -> Seq<bool> {
    Seq::new(tokens.len(), |i: int| tokens[i] is Open)
}

/// Whether node `j` of `b` is a child of a node before it.
pub open spec fn build_has_parent(b: Build, j: int) -> bool {
    exists|p: int| 0 <= p < j && (#[trigger] b.children[p]).contains(j as usize)
}

/// Whether every node of `b` but the first is a child of a node before it.
pub open spec fn build_rooted(b: Build) -> bool {
    forall|j: int| 0 < j < b.elements.len() ==> #[trigger] build_has_parent(b, j)
}

/// The tokens of the walk through one tree build that tree: after each
/// step as many nodes are open as the walk is deep, and every node but the
/// first has its parent.
pub proof fn lemma_built_tree(tokens: Seq<Token>, k: int)
    requires
        walks_tree(opens(tokens)),
        0 <= k <= tokens.len(),
    ensures
        built(tokens.take(k)).children.len() == built(tokens.take(k)).elements.len(),
        built(tokens.take(k)).open.len() == depth(opens(tokens), k),
        forall|i: int|
            0 <= i < built(tokens.take(k)).open.len() ==> (#[trigger] built(
                tokens.take(k),
            ).open[i]) < built(tokens.take(k)).elements.len(),
        k >= 1 ==> built(tokens.take(k)).elements.len() >= 1,
        build_rooted(built(tokens.take(k))),
    decreases k,
{
    if k > 0 {
        lemma_built_tree(tokens, k - 1);
        let before = built(tokens.take(k - 1));
        let after = built(tokens.take(k));
        let token = tokens[k - 1];
        assert(tokens.take(k).drop_last() =~= tokens.take(k - 1));
        assert(tokens.take(k).last() == token);
        assert(after == after_token(before, token));
        assert(opens(tokens)[k - 1] == (token is Open));
        if k > 1 {
            assert(depth(opens(tokens), k - 1) > 0);
        } else {
            assert(depth(opens(tokens), 1) > 0);
        }
        match token {
            Token::Open(element) => {
                let n = before.elements.len() as int;
                assert forall|j: int| 0 < j < after.elements.len() implies #[trigger] build_has_parent(
                    after,
                    j,
                ) by {
                    if j < n {
                        assert(build_has_parent(before, j));
                        let p = choose|p: int|
                            0 <= p < j && (#[trigger] before.children[p]).contains(j as usize);
                        let at = choose|at: int|
                            0 <= at < before.children[p].len() && before.children[p][at]
                                == j as usize;
                        assert(after.children[p][at] == j as usize);
                        assert(after.children[p].contains(j as usize));
                    } else {
                        let top = before.open.last() as int;
                        assert(before.open[before.open.len() - 1] < before.elements.len());
                        let last = before.children[top].len() as int;
                        assert(after.children[top][last] == j as usize);
                        assert(after.children[top].contains(j as usize));
                    }
                }
            },
            Token::Close => {
                assert(after.children == before.children);
                assert forall|j: int| 0 < j < after.elements.len() implies #[trigger] build_has_parent(
                    after,
                    j,
                ) by {
                    assert(build_has_parent(before, j));
                }
            },
        }
    }
}

/// Builds the arena that holds the tree of `tokens`, see [`built`]. The
/// nodes lie in it in the order in which they open, so every child comes
/// after its parent.
pub fn from_tokens(tokens: Vec<Token>) -> (o: Outline)
    ensures
        holds(o, built(tokens@)),
        o.wf(),
{
    let ghost all = tokens@;
    let mut left = tokens;
    let mut turned: Vec<Token> = Vec::new();
    while left.len() > 0
        invariant
            left@.len() + turned@.len() == all.len(),
            forall|k: int| 0 <= k < left@.len() ==> left@[k] == all[k],
            forall|k: int| 0 <= k < turned@.len() ==> turned@[k] == all[all.len() - 1 - k],
        decreases left@.len(),
    {
        match left.pop() {
            Some(token) => turned.push(token),
            None => {},
        }
    }
    let mut o = Outline::new();
    let mut open: Vec<usize> = Vec::new();
    let ghost mut done: Seq<Token> = Seq::empty();
    while turned.len() > 0
        invariant
            done.len() + turned@.len() == all.len(),
            done == all.take(done.len() as int),
            forall|k: int| 0 <= k < turned@.len() ==> turned@[k] == all[all.len() - 1 - k],
            holds(o, built(done)),
            open@ == built(done).open,
            o.wf(),
            forall|k: int| 0 <= k < open@.len() ==> #[trigger] open@[k] < o.nodes@.len(),
        decreases turned@.len(),
    {
        let ghost before = built(done);
        let ghost old_o = o;
        match turned.pop() {
            Some(token) => {
                proof {
                    assert(token == all[done.len() as int]);
                    let next = all.take(done.len() as int + 1);
                    assert(next.drop_last() =~= done);
                    assert(next.last() == token);
                    assert(built(next) == after_token(before, token));
                    done = next;
                }
                match token {
                    Token::Open(element) => {
                        let parent = if open.len() > 0 {
                            Some(open[open.len() - 1])
                        } else {
                            None
                        };
                        let added = o.add(parent, element);
                        match added {
                            Some(n) => {
                                open.push(n);
                            },
                            None => {},
                        }
                        proof {
                            let after = built(done);
                            assert(after.children.len() == after.elements.len());
                            assert forall|k: int| 0 <= k < o.nodes@.len() implies (
                            #[trigger] o.nodes@[k]).kind == after.elements[k]
                                && o.nodes@[k].children@ == after.children[k] by {
                                if k < old_o.nodes@.len() {
                                    assert(old_o.nodes@[k].kind == before.elements[k]);
                                    if parent != Some(k as usize) {
                                        assert(o.nodes@[k] == old_o.nodes@[k]);
                                    }
                                }
                            }
                        }
                    },
                    Token::Close => {
                        if open.len() > 0 {
                            open.pop();
                        }
                    },
                }
            },
            None => {},
        }
    }
    proof {
        assert(done =~= all);
    }
    o
}

/// Whether `tokens` walk through one tree, see [`walks_tree`].
pub fn is_tree_walk(tokens: &Vec<Token>) -> (b: bool)
    ensures
        b == walks_tree(opens(tokens@)),
{
    let n = tokens.len();
    if n < 2 {
        return false;
    }
    let ghost steps = opens(tokens@);
    let mut deep: usize = 0;
    let mut k: usize = 0;
    while k < n
        invariant
            k <= n,
            n == tokens@.len(),
            n >= 2,
            steps == opens(tokens@),
            deep == depth(steps, k as int),
            deep <= k,
            forall|j: int| 0 < j <= k && j < n ==> #[trigger] depth(steps, j) > 0,
        decreases n - k,
    {
        assert(steps[k as int] == (tokens@[k as int] is Open));
        match &tokens[k] {
            Token::Open(_) => {
                deep += 1;
            },
            Token::Close => {
                if deep == 0 {
                    assert(depth(steps, k + 1) == -1);
                    return false;
                }
                deep -= 1;
            },
        }
        k += 1;
        if deep == 0 && k < n {
            assert(depth(steps, k as int) == 0);
            return false;
        }
    }
    deep == 0
}

/// Builds the outline of the run of tokens that a parser made of a text.
/// The run has to walk through one tree, see [`walks_tree`]; any other run
/// is refused. The root of the text is the node at position 0, and every
/// other node is a child of a node before it.
pub fn parse(tokens: Vec<Token>) -> (r: Option<Outline>)
    ensures
        match r {
            Some(o) => walks_tree(opens(tokens@)) && holds(o, built(tokens@)) && o.wf()
                && o.rooted(),
            None => !walks_tree(opens(tokens@)),
        },
{
    if !is_tree_walk(&tokens) {
        return None;
    }
    let ghost all = tokens@;
    let o = from_tokens(tokens);
    proof {
        lemma_built_tree(all, all.len() as int);
        assert(all.take(all.len() as int) =~= all);
        let b = built(all);
        assert forall|j: int| 0 < j < o.nodes@.len() implies #[trigger] o.has_parent(j) by {
            assert(build_has_parent(b, j));
            let p = choose|p: int| 0 <= p < j && (#[trigger] b.children[p]).contains(j as usize);
            assert(o.nodes@[p].children@ == b.children[p]);
        }
    }
    Some(o)
}

} // verus!
