//! The shared tree model: atomic leaves and delimited groups of children.
//!
//! A leaf carries literal text (for punctuation leaves, the identity of the
//! character, since markers are detected by exact punctuation match).  A
//! group carries a delimiter kind and an ordered child sequence.  No
//! evaluation semantics attach to the tree itself.  Any node or node
//! sequence can be re-serialized back to text with [`render_nodes_text`].

use vstd::prelude::*;

verus! {

/// The delimiter kind of a group node.
#[derive(Clone, Copy, PartialEq, Eq, Structural, Debug)]
pub enum Delim {
    /// A plain grouping without written delimiters.
    Plain,
    /// `(` ... `)`
    Paren,
    /// `[` ... `]`
    Bracket,
    /// `{` ... `}`
    Brace,
}

/// One node of the generic tree: an atomic leaf or a delimited group.
#[derive(Debug)]
pub enum Node {
    /// An atomic run of text: an identifier, a number or a quoted literal.
    Text(String),
    /// A single punctuation character.
    Punct(char),
    /// A delimited group with an ordered child sequence.
    Group(Delim, Vec<Node>),
}

/// The mathematical shape of a [`Node`]: text as a sequence of characters,
/// a group's children as a sequence of shapes.
pub enum NodeV {
    Text(Seq<char>),
    Punct(char),
    Group(Delim, Seq<NodeV>),
}

/// The shape of a node.
pub open spec fn node_view(n: Node) -> NodeV
    decreases n,
{
    match n {
        Node::Text(s) => NodeV::Text(s@),
        Node::Punct(c) => NodeV::Punct(c),
        Node::Group(d, ch) => {
            proof {
                assert(decreases_to!(n => ch));
                assert(decreases_to!(ch => ch@));
            }
            NodeV::Group(d, nodes_view(ch@))
        },
    }
}

/// The element-wise shape of a sequence of nodes.
pub open spec fn nodes_view(s: Seq<Node>) -> Seq<NodeV>
    decreases s,
{
    if s.len() == 0 {
        Seq::empty()
    } else {
        seq![node_view(s[0])] + nodes_view(s.drop_first())
    }
}

impl View for Node {
    type V = NodeV;

    open spec fn view(&self) -> NodeV {
        node_view(*self)
    }
}

impl DeepView for Node {
    type V = NodeV;

    open spec fn deep_view(&self) -> NodeV {
        node_view(*self)
    }
}

/// The element-wise shape of a sequence of values.
pub open spec fn deep_of<T: DeepView>(s: Seq<T>) -> Seq<T::V> {
    Seq::new(s.len(), |i: int| s[i].deep_view())
}

/// A vector's deep view is the element-wise shape of its view.
pub proof fn lemma_vec_deep_view<T: DeepView>(v: Vec<T>)
    ensures
        v.deep_view() == deep_of(v@),
{
    assert(v.deep_view() =~= deep_of(v@));
}

/// `nodes_view` agrees element-wise with the views of the nodes.
pub proof fn lemma_nodes_view(s: Seq<Node>)
    ensures
        nodes_view(s).len() == s.len(),
        forall|i: int| 0 <= i < s.len() ==> nodes_view(s)[i] == node_view(s[i]),
    decreases s.len(),
{
    if s.len() > 0 {
        lemma_nodes_view(s.drop_first());
    }
}

/// `nodes_view` is the element-wise shape of the sequence.
pub proof fn lemma_nodes_view_is_deep(s: Seq<Node>)
    ensures
        nodes_view(s) == deep_of(s),
{
    lemma_nodes_view(s);
    assert(nodes_view(s) =~= deep_of(s));
}

/// The shape of a group node is the group of its children's shapes.
pub proof fn lemma_group_view(d: Delim, ch: Vec<Node>)
    ensures
        node_view(Node::Group(d, ch)) == NodeV::Group(d, ch.deep_view()),
{
    lemma_nodes_view_is_deep(ch@);
    assert(deep_of(ch@) =~= ch.deep_view());
}

/// Pushing one element extends the element-wise shape by its shape.
pub proof fn lemma_deep_of_push<T: DeepView>(pre: Vec<T>, post: Vec<T>, x: T)
    requires
        post@ == pre@.push(x),
    ensures
        post.deep_view() == pre.deep_view().push(x.deep_view()),
{
    assert forall|j: int| 0 <= j < post@.len() implies post.deep_view()[j] == pre.deep_view().push(
        x.deep_view(),
    )[j] by {
        if j < pre@.len() {
            assert(post@[j] == pre@[j]);
        } else {
            assert(post@[j] == x);
        }
    }
    assert(post.deep_view() =~= pre.deep_view().push(x.deep_view()));
}

/// Inserting an element at the front prepends its shape.
pub proof fn lemma_deep_of_insert0<T: DeepView>(pre: Vec<T>, post: Vec<T>, x: T)
    requires
        post@ == pre@.insert(0, x),
    ensures
        post.deep_view() == seq![x.deep_view()] + pre.deep_view(),
{
    assert(pre@.insert(0, x) =~= seq![x] + pre@);
    assert forall|j: int| 0 <= j < post@.len() implies post.deep_view()[j] == (seq![x.deep_view()]
        + pre.deep_view())[j] by {
        if j == 0 {
            assert(post@[0] == x);
        } else {
            assert(post@[j] == pre@[j - 1]);
        }
    }
    assert(post.deep_view() =~= seq![x.deep_view()] + pre.deep_view());
}

/// Concatenating two vectors concatenates their element-wise shapes.
pub proof fn lemma_deep_of_append<T: DeepView>(a: Vec<T>, b: Vec<T>, post: Vec<T>)
    requires
        post@ == a@ + b@,
    ensures
        post.deep_view() == a.deep_view() + b.deep_view(),
{
    assert forall|j: int| 0 <= j < post@.len() implies post.deep_view()[j] == (a.deep_view()
        + b.deep_view())[j] by {
        if j < a@.len() {
            assert(post@[j] == a@[j]);
        } else {
            assert(post@[j] == b@[j - a@.len()]);
        }
    }
    assert(post.deep_view() =~= a.deep_view() + b.deep_view());
}

/// Removing the front element drops the front shape.
pub proof fn lemma_deep_of_remove0<T: DeepView>(pre: Vec<T>, post: Vec<T>)
    requires
        pre@.len() > 0,
        post@ == pre@.remove(0),
    ensures
        post.deep_view() == pre.deep_view().drop_first(),
{
    assert(pre@.remove(0) =~= pre@.drop_first());
    assert forall|j: int| 0 <= j < post@.len() implies post.deep_view()[j]
        == pre.deep_view().drop_first()[j] by {
        assert(post@[j] == pre@[j + 1]);
    }
    assert(post.deep_view() =~= pre.deep_view().drop_first());
}

/// The opening text of a delimiter kind.
pub open spec fn open_delim_text(d: Delim) -> Seq<char> {
    match d {
        Delim::Plain => Seq::empty(),
        Delim::Paren => seq!['('],
        Delim::Bracket => seq!['['],
        Delim::Brace => seq!['{'],
    }
}

/// The closing text of a delimiter kind.
pub open spec fn close_delim_text(d: Delim) -> Seq<char> {
    match d {
        Delim::Plain => Seq::empty(),
        Delim::Paren => seq![')'],
        Delim::Bracket => seq![']'],
        Delim::Brace => seq!['}'],
    }
}

/// The text a node serializes to: leaf text stands as it is, a group is its
/// children's text between its delimiters.
pub open spec fn render_node(n: NodeV) -> Seq<char>
    decreases n,
{
    match n {
        NodeV::Text(s) => s,
        NodeV::Punct(c) => seq![c],
        NodeV::Group(d, ch) => open_delim_text(d) + render_nodes(ch) + close_delim_text(d),
    }
}

/// The text a node sequence serializes to: the nodes' texts joined by a
/// single space.
pub open spec fn render_nodes(ns: Seq<NodeV>) -> Seq<char>
    decreases ns,
{
    if ns.len() == 0 {
        Seq::empty()
    } else if ns.len() == 1 {
        render_node(ns[0])
    } else {
        render_nodes(ns.drop_last()) + seq![' '] + render_node(ns.last())
    }
}

/// Relies on `String::push`: appends the character to the end of the string.
#[verifier::external_body]
pub(crate) fn push_char(s: &mut String, c: char)
    ensures
        final(s)@ == old(s)@.push(c),
{
    s.push(c);
}

fn open_delim_str(d: Delim) -> (r: &'static str)
    ensures
        r@ == open_delim_text(d),
{
    proof {
        reveal_strlit("");
        reveal_strlit("(");
        reveal_strlit("[");
        reveal_strlit("{");
    }
    let r = match d {
        Delim::Plain => "",
        Delim::Paren => "(",
        Delim::Bracket => "[",
        Delim::Brace => "{",
    };
    proof {
        assert(r@ =~= open_delim_text(d));
    }
    r
}

fn close_delim_str(d: Delim) -> (r: &'static str)
    ensures
        r@ == close_delim_text(d),
{
    proof {
        reveal_strlit("");
        reveal_strlit(")");
        reveal_strlit("]");
        reveal_strlit("}");
    }
    let r = match d {
        Delim::Plain => "",
        Delim::Paren => ")",
        Delim::Bracket => "]",
        Delim::Brace => "}",
    };
    proof {
        assert(r@ =~= close_delim_text(d));
    }
    r
}

proof fn lemma_render_nodes_take_step(ns: Seq<NodeV>, i: int)
    requires
        0 <= i < ns.len(),
    ensures
        render_nodes(ns.take(i + 1)) == if i == 0 {
            render_node(ns[0])
        } else {
            render_nodes(ns.take(i)) + seq![' '] + render_node(ns[i])
        },
{
    let t = ns.take(i + 1);
    assert(t.drop_last() =~= ns.take(i));
    assert(t.last() == ns[i]);
    assert(t[0] == ns[0]);
}

/// Serializes one node back to text.
pub fn render_node_text(n: &Node) -> (r: String)
    ensures
        r@ == render_node(n@),
    decreases n,
{
    match n {
        Node::Text(s) => s.clone(),
        Node::Punct(c) => {
            let mut r = String::new();
            push_char(&mut r, *c);
            proof {
                assert(r@ =~= seq![*c]);
            }
            r
        },
        Node::Group(d, ch) => {
            let mut r = String::new();
            r.append(open_delim_str(*d));
            let inner = render_nodes_text(ch);
            r.append(inner.as_str());
            r.append(close_delim_str(*d));
            proof {
                lemma_group_view(*d, *ch);
                assert(Seq::<char>::empty() + open_delim_text(*d) =~= open_delim_text(*d));
            }
            r
        },
    }
}

/// Serializes a node sequence back to text, the nodes joined by a single
/// space.
pub fn render_nodes_text(ns: &Vec<Node>) -> (r: String)
    ensures
        r@ == render_nodes(ns.deep_view()),
    decreases ns,
{
    let mut r = String::new();
    let mut i: usize = 0;
    while i < ns.len()
        invariant
            i <= ns.len(),
            r@ == render_nodes(ns.deep_view().take(i as int)),
        decreases ns.len() - i,
    {
        if i > 0 {
            push_char(&mut r, ' ');
        }
        let piece = render_node_text(&ns[i]);
        r.append(piece.as_str());
        proof {
            let dv = ns.deep_view();
            assert(dv[i as int] == ns@[i as int].deep_view());
            lemma_render_nodes_take_step(dv, i as int);
            if i > 0 {
                assert(r@ == render_nodes(dv.take(i as int)) + seq![' '] + render_node(dv[i as int]));
            } else {
                assert(render_nodes(dv.take(0)) =~= Seq::<char>::empty());
                assert(r@ =~= render_node(dv[0]));
            }
        }
        i += 1;
    }
    proof {
        assert(ns.deep_view().take(ns.len() as int) =~= ns.deep_view());
    }
    r
}

/// Copies one node; the copy has the same shape.
pub fn clone_node(n: &Node) -> (r: Node)
    ensures
        r@ == n@,
    decreases n,
{
    match n {
        Node::Text(s) => Node::Text(s.clone()),
        Node::Punct(c) => Node::Punct(*c),
        Node::Group(d, ch) => {
            let copied = clone_nodes(ch);
            let r = Node::Group(*d, copied);
            proof {
                lemma_group_view(*d, copied);
                lemma_group_view(*d, *ch);
            }
            r
        },
    }
}

/// Copies a node sequence; the copy has the same element-wise shape.
pub fn clone_nodes(ns: &Vec<Node>) -> (r: Vec<Node>)
    ensures
        r.deep_view() == ns.deep_view(),
    decreases ns,
{
    let mut r: Vec<Node> = Vec::new();
    let mut i: usize = 0;
    while i < ns.len()
        invariant
            i <= ns.len(),
            r.deep_view() == ns.deep_view().take(i as int),
        decreases ns.len() - i,
    {
        let copied = clone_node(&ns[i]);
        let ghost pre = r;
        r.push(copied);
        proof {
            let dv = ns.deep_view();
            assert(r@ == pre@.push(copied));
            assert(pre.deep_view().len() == pre@.len());
            assert(pre@.len() == i);
            assert forall|j: int| 0 <= j < r@.len() implies r.deep_view()[j] == dv.take(i + 1)[j] by {
                if j < i {
                    assert(r@[j] == pre@[j]);
                    assert(pre.deep_view()[j] == dv.take(i as int)[j]);
                } else {
                    assert(r@[j] == copied);
                    assert(dv[i as int] == ns@[i as int].deep_view());
                }
            }
            assert(r.deep_view() =~= dv.take(i + 1));
        }
        i += 1;
    }
    proof {
        assert(ns.deep_view().take(ns.len() as int) =~= ns.deep_view());
    }
    r
}

} // verus!
