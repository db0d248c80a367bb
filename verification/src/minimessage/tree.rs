//! The tree that the parser grows: a list of nodes, the children of each node by index,
//! and the stack of open tags. A node's children always come after it in the list, so
//! the finished component is built by a recursion that moves forward through the list.
use vstd::prelude::*;
use vstd::utf8::encode_utf8;

use crate::component::{
    empty_interactions, plain_model, ComponentModel, Content, ContentModel, Format, FormatModel,
    RawTextComponent,
};
use crate::format::empty_format;
use crate::minimessage::bytes::{ascii_same, lowercase, same_ignoring_ascii_case, same_text, to_lower};
use vstd::string::StringExecFns;
use crate::models;

verus! {

/// The model of the parser's tree.
pub struct TreeModel {
    pub nodes: Seq<ComponentModel>,
    pub kids: Seq<Seq<usize>>,
    pub stack: Seq<(usize, Seq<char>)>,
}

/// The shape every tree keeps: a root, one list of children per node, children after
/// their parent, and open tags that name existing nodes.
pub open spec fn tree_wf(t: TreeModel) -> bool {
    &&& t.nodes.len() >= 1
    &&& t.kids.len() == t.nodes.len()
    &&& forall|p: int, j: int|
        0 <= p < t.kids.len() && 0 <= j < t.kids[p].len() ==> p < #[trigger] t.kids[p][j] < t.nodes.len()
    &&& forall|k: int| 0 <= k < t.stack.len() ==> (#[trigger] t.stack[k]).0 < t.nodes.len()
}

/// The tree before any markup is read: an empty root, open under the empty name.
pub open spec fn initial_tree() -> TreeModel {
    TreeModel {
        nodes: seq![plain_model(Seq::empty())],
        kids: seq![Seq::empty()],
        stack: seq![(0usize, Seq::empty())],
    }
}

/// A component that shows text and has nothing set in its format and interactions.
pub open spec fn is_plain(c: ComponentModel) -> bool {
    &&& c.content is Text
    &&& c.format == empty_format()
    &&& c.interactions == empty_interactions()
}

/// The text that a component shows, if it shows text.
pub open spec fn text_of(c: ComponentModel) -> Seq<char> {
    match c.content {
        ContentModel::Text { text } => text,
        _ => Seq::empty(),
    }
}

/// Adds a child under `parent`: a plain child whose parent's last child is plain too is
/// appended to that child's text; anything else becomes a new node. Gives the tree and
/// the index of the node that now holds the child.
#[verifier::opaque]
pub open spec fn add_child(t: TreeModel, parent: usize, child: ComponentModel) -> (TreeModel, usize) {
    let siblings = t.kids[parent as int];
    if is_plain(child) && siblings.len() > 0 && is_plain(t.nodes[siblings.last() as int]) {
        let last = siblings.last();
        let merged = ComponentModel {
            content: ContentModel::Text { text: text_of(t.nodes[last as int]) + text_of(child) },
            ..t.nodes[last as int]
        };
        (TreeModel { nodes: t.nodes.update(last as int, merged), ..t }, last)
    } else {
        let idx = t.nodes.len() as usize;
        (
            TreeModel {
                nodes: t.nodes.push(child),
                kids: t.kids.update(parent as int, siblings.push(idx)).push(Seq::empty()),
                stack: t.stack,
            },
            idx,
        )
    }
}

/// Adds a child and, unless the tag closes itself, opens it under `name`.
#[verifier::opaque]
pub open spec fn push_tag(
    t: TreeModel,
    parent: usize,
    comp: ComponentModel,
    name: Seq<char>,
    self_closing: bool,
) -> TreeModel {
    let (t2, idx) = add_child(t, parent, comp);
    if self_closing {
        t2
    } else {
        TreeModel { stack: t2.stack.push((idx, name)), ..t2 }
    }
}

/// An empty text with the given format.
pub open spec fn format_node(f: FormatModel) -> ComponentModel {
    ComponentModel { format: f, ..plain_model(Seq::empty()) }
}

/// Adds an empty text with the given format as a tag.
#[verifier::opaque]
pub open spec fn push_format(
    t: TreeModel,
    parent: usize,
    f: FormatModel,
    self_closing: bool,
    name: Seq<char>,
) -> TreeModel {
    push_tag(t, parent, format_node(f), name, self_closing)
}

/// The node that new content goes under: the innermost open tag, or the root.
pub open spec fn current_parent(t: TreeModel) -> usize {
    if t.stack.len() > 0 {
        t.stack.last().0
    } else {
        0
    }
}

/// The last of the first `n` open tags whose name equals `lower` up to ASCII case.
pub open spec fn last_named(stack: Seq<(usize, Seq<char>)>, lower: Seq<u8>, n: int) -> Option<int>
    decreases n,
{
    if n <= 0 {
        None
    } else if ascii_same(encode_utf8(stack[n - 1].1), lower) {
        Some(n - 1)
    } else {
        last_named(stack, lower, n - 1)
    }
}

/// Closes a tag: the open tag of that name, in lower case, and all opened after it
/// are closed; nothing happens for `reset` or a name that is not open.
pub open spec fn close_tag(t: TreeModel, name: Seq<char>) -> TreeModel {
    let lower = lowercase(name);
    if lower == "reset"@ {
        t
    } else {
        match last_named(t.stack, encode_utf8(lower), t.stack.len() as int) {
            Some(p) => TreeModel { stack: t.stack.subrange(0, p), ..t },
            None => t,
        }
    }
}

/// The tree after `reset`: only the outermost open tag stays open.
pub open spec fn reset_stack(t: TreeModel) -> TreeModel {
    TreeModel { stack: if t.stack.len() > 1 { t.stack.subrange(0, 1) } else { t.stack }, ..t }
}

/// The component that node `idx` becomes, with its children built in order.
pub open spec fn build(t: TreeModel, idx: int) -> ComponentModel
    decreases t.nodes.len() - idx,
{
    if 0 <= idx < t.nodes.len() && t.kids.len() == t.nodes.len() {
        let ks = t.kids[idx];
        ComponentModel {
            children: Seq::new(
                ks.len(),
                |j: int|
                    if idx < ks[j] < t.nodes.len() {
                        build(t, ks[j] as int)
                    } else {
                        arbitrary()
                    },
            ),
            ..t.nodes[idx]
        }
    } else {
        arbitrary()
    }
}

/// The arena in which the parser grows the tree.
pub struct Parser {
    nodes: Vec<RawTextComponent>,
    children: Vec<Vec<usize>>,
    stack: Vec<(usize, String)>,
}

impl View for Parser {
    type V = TreeModel;

    closed spec fn view(&self) -> TreeModel {
        TreeModel {
            nodes: models(self.nodes@),
            kids: Seq::new(self.children@.len(), |i: int| self.children@[i]@),
            stack: Seq::new(self.stack@.len(), |i: int| (self.stack@[i].0, self.stack@[i].1@)),
        }
    }
}

/// Whether a component shows text and has nothing set in its format and interactions.
fn is_plain_component(c: &RawTextComponent) -> (r: bool)
    ensures
        r == is_plain(c@),
{
    let f = &c.format;
    let i = &c.interactions;
    let text = match &c.content {
        Content::Text { .. } => true,
        _ => false,
    };
    let bare = f.color.is_none() && f.font.is_none() && f.bold.is_none() && f.italic.is_none()
        && f.underlined.is_none() && f.strikethrough.is_none() && f.obfuscated.is_none()
        && f.shadow_color.is_none();
    let quiet = i.insertion.is_none() && i.click.is_none() && i.hover.is_none();
    proof {
        assert(c@.content == c.content.model());
        assert(c@.interactions == c.interactions.model());
        if bare {
            assert(c@.format == empty_format());
        }
        if quiet {
            assert(c@.interactions == c.interactions.model());
            assert(c@.interactions == empty_interactions());
        }
    }
    text && bare && quiet
}

impl Parser {
    /// A parser holding the empty root, open under the empty name.
    pub fn new() -> (p: Parser)
        ensures
            p@ == initial_tree(),
            tree_wf(p@),
    {
        let mut nodes = Vec::new();
        nodes.push(RawTextComponent::new());
        let mut children = Vec::new();
        children.push(Vec::new());
        let mut stack = Vec::new();
        stack.push((0usize, String::new()));
        let p = Parser { nodes, children, stack };
        proof {
            assert(p@.nodes =~= initial_tree().nodes);
            assert(p@.kids =~= initial_tree().kids);
            assert(p@.stack =~= initial_tree().stack);
        }
        p
    }

    /// The node that new content goes under.
    pub fn parent(&self) -> (r: usize)
        ensures
            r == current_parent(self@),
    {
        let n = self.stack.len();
        if n > 0 {
            self.stack[n - 1].0
        } else {
            0
        }
    }

    /// Whether a tag is open.
    pub fn has_open_tag(&self) -> (r: bool)
        ensures
            r == (self@.stack.len() > 0),
    {
        self.stack.len() > 0
    }

    /// Adds a child under `parent`; see `add_child`.
    #[verifier::spinoff_prover]
    #[verifier::rlimit(30)]
    pub fn add_child_node(&mut self, parent: usize, child: RawTextComponent) -> (idx: usize)
        requires
            tree_wf(old(self)@),
            parent < old(self)@.nodes.len(),
        ensures
            tree_wf(final(self)@),
            (final(self)@, idx) == add_child(old(self)@, parent, child@),
            idx < final(self)@.nodes.len(),
    {
        reveal(add_child);
        let ghost t = self@;
        let ghost cm = child@;
        assert(self.children@[parent as int]@ == t.kids[parent as int]);
        let n = self.children[parent].len();
        if n > 0 && is_plain_component(&child) {
            let last = self.children[parent][n - 1];
            assert(t.kids[parent as int][n - 1] == last);
            assert(self.nodes@[last as int]@ == t.nodes[last as int]);
            if is_plain_component(&self.nodes[last]) {
                let mut node = RawTextComponent::new();
                self.nodes.set_and_swap(last, &mut node);
                let ghost before = node@;
                assert(before.content == node.content.model());
                assert(cm.content == child.content.model());
                let mut text = match &node.content {
                    Content::Text { text } => text.clone(),
                    _ => String::new(),
                };
                assert(text@ == text_of(before));
                match &child.content {
                    Content::Text { text: more } => {
                        assert(more@ == text_of(cm));
                        text.append(more.as_str());
                    },
                    _ => {},
                }
                let ghost joined = text@;
                assert(joined == text_of(before) + text_of(cm));
                node.content = Content::Text { text };
                let ghost merged = node@;
                assert(node.content.model() == ContentModel::Text { text: joined });
                assert(merged == ComponentModel {
                    content: ContentModel::Text { text: text_of(before) + text_of(cm) },
                    ..before
                }) by {
                    assert(merged.children =~= before.children);
                }
                self.nodes.set(last, node);
                proof {
                    assert(self@.nodes =~= t.nodes.update(last as int, merged));
                    assert(self@.kids =~= t.kids);
                    assert(self@.stack =~= t.stack);
                }
                return last;
            }
        }
        let idx = self.nodes.len();
        self.nodes.push(child);
        self.children.push(Vec::new());
        let mut siblings = Vec::new();
        self.children.set_and_swap(parent, &mut siblings);
        siblings.push(idx);
        self.children.set(parent, siblings);
        proof {
            let t2 = add_child(t, parent, cm).0;
            assert(self@.nodes =~= t2.nodes) by {
                assert(self@.nodes =~= t.nodes.push(cm));
            }
            assert(self@.kids =~= t2.kids);
            assert(self@.stack =~= t2.stack);
            assert forall|p: int, j: int|
                0 <= p < self@.kids.len() && 0 <= j < self@.kids[p].len() implies p
                < #[trigger] self@.kids[p][j] < self@.nodes.len() by {
                if p < t.kids.len() && p != parent {
                    assert(self@.kids[p] == t.kids[p]);
                } else if p == parent && j < t.kids[p].len() {
                    assert(self@.kids[p][j] == t.kids[p][j]);
                }
            }
        }
        idx
    }

    /// Adds a child and, unless the tag closes itself, opens it under `name`.
    pub fn push_tag_to_stack(
        &mut self,
        parent: usize,
        comp: RawTextComponent,
        name: String,
        self_closing: bool,
    )
        requires
            tree_wf(old(self)@),
            parent < old(self)@.nodes.len(),
        ensures
            tree_wf(final(self)@),
            final(self)@ == push_tag(old(self)@, parent, comp@, name@, self_closing),
    {
        reveal(push_tag);
        let ghost t = self@;
        let ghost cm = comp@;
        let idx = self.add_child_node(parent, comp);
        if !self_closing {
            let ghost before = self@;
            let ghost nm = name@;
            self.stack.push((idx, name));
            proof {
                assert(self@.stack =~= before.stack.push((idx, nm)));
                assert(self@.nodes =~= before.nodes);
                assert(self@.kids =~= before.kids);
            }
        }
    }

    /// Adds an empty text with the given format as a tag.
    pub fn push_format_tag(&mut self, parent: usize, format: Format, self_closing: bool, name: String)
        requires
            tree_wf(old(self)@),
            parent < old(self)@.nodes.len(),
        ensures
            tree_wf(final(self)@),
            final(self)@ == push_format(old(self)@, parent, format@, self_closing, name@),
    {
        reveal(push_format);
        let ghost f = format@;
        let mut comp = RawTextComponent::new();
        comp.format = format;
        proof {
            assert(comp@.children =~= format_node(f).children);
            assert(comp@ == format_node(f));
        }
        self.push_tag_to_stack(parent, comp, name, self_closing);
    }

    /// Closes the open tag of that name and all opened after it; see `close_tag`.
    #[verifier::spinoff_prover]
    #[verifier::rlimit(30)]
    pub fn close_tag(&mut self, name: &str)
        requires
            tree_wf(old(self)@),
        ensures
            tree_wf(final(self)@),
            final(self)@ == close_tag(old(self)@, name@),
    {
        let ghost t = self@;
        let lower = to_lower(name);
        if same_text(lower.as_str(), "reset") {
            return;
        }
        let ghost lb = encode_utf8(lower@);
        let mut n = self.stack.len();
        while n > 0
            invariant
                n <= self.stack@.len(),
                self@ == t,
                t == old(self)@,
                tree_wf(t),
                lower@ == lowercase(name@),
                lower@ != "reset"@,
                lb == encode_utf8(lower@),
                last_named(t.stack, lb, t.stack.len() as int) == last_named(t.stack, lb, n as int),
            decreases n,
        {
            assert(self.stack@[n - 1].1@ == t.stack[n - 1].1);
            if same_ignoring_ascii_case(self.stack[n - 1].1.as_str(), lower.as_str()) {
                self.stack.truncate(n - 1);
                proof {
                    assert(last_named(t.stack, lb, n as int) == Some(n - 1));
                    assert(self@.stack =~= t.stack.subrange(0, n - 1));
                    assert(self@.nodes =~= t.nodes);
                    assert(self@.kids =~= t.kids);
                    assert(self@ == close_tag(t, name@));
                }
                return;
            }
            n = n - 1;
        }
    }

    /// Closes every open tag but the outermost.
    pub fn reset(&mut self)
        requires
            tree_wf(old(self)@),
        ensures
            tree_wf(final(self)@),
            final(self)@ == reset_stack(old(self)@),
    {
        let ghost t = self@;
        self.stack.truncate(1);
        proof {
            assert(self@.stack =~= reset_stack(t).stack);
            assert(self@.nodes =~= t.nodes);
            assert(self@.kids =~= t.kids);
        }
    }

    /// Builds node `idx` into a component, with its children built in order.
    #[verifier::spinoff_prover]
    #[verifier::rlimit(30)]
    pub fn build_node(&self, idx: usize) -> (r: RawTextComponent)
        requires
            tree_wf(self@),
            idx < self@.nodes.len(),
        ensures
            r@ == build(self@, idx as int),
        decreases self@.nodes.len() - idx,
    {
        let ghost t = self@;
        let node = &self.nodes[idx];
        let ks = &self.children[idx];
        assert(ks@ == t.kids[idx as int]);
        let mut built: Vec<RawTextComponent> = Vec::new();
        let mut j: usize = 0;
        while j < ks.len()
            invariant
                t == self@,
                tree_wf(t),
                idx < t.nodes.len(),
                ks@ == t.kids[idx as int],
                j <= ks@.len(),
                built@.len() == j,
                forall|m: int| 0 <= m < j ==> (#[trigger] built@[m])@ == build(t, ks@[m] as int),
            decreases ks@.len() - j,
        {
            let k = ks[j];
            assert(idx < k < t.nodes.len());
            let c = self.build_node(k);
            built.push(c);
            j = j + 1;
        }
        let r = RawTextComponent {
            content: node.content.duplicate(),
            children: built,
            format: node.format.duplicate(),
            interactions: node.interactions.duplicate(),
        };
        proof {
            let expected = build(t, idx as int);
            assert(self.nodes@[idx as int]@ == t.nodes[idx as int]);
            assert(r@.children =~= expected.children) by {
                assert forall|m: int| 0 <= m < ks@.len() implies r@.children[m] == expected.children[m] by {
                    assert(idx < ks@[m] < t.nodes.len());
                }
            }
        }
        r
    }

    /// The component that the root becomes.
    pub fn finish(self) -> (r: RawTextComponent)
        requires
            tree_wf(self@),
        ensures
            r@ == build(self@, 0),
    {
        self.build_node(0)
    }
}

} // verus!
