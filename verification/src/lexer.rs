//! Re-parsing of serialized text into nodes.
//!
//! The engine captures source and dependency strings by serializing node
//! sequences ([`crate::node::render_nodes_text`]) and later splices them back
//! into a template by re-parsing them here.  The lexical grammar is small:
//! `(`/`[`/`{` open a group and the matching closer ends it; a double-quoted
//! run (no escapes) is one text leaf, quotes included; a maximal run of
//! letters, digits and `_` is one text leaf; whitespace separates tokens;
//! any other character is a punctuation leaf.  Unbalanced delimiters or an
//! unterminated quote make the whole text unparseable.

use vstd::prelude::*;

use crate::node::{node_view, Delim, Node, NodeV};

verus! {

/// Characters that continue an identifier-like text leaf.
pub open spec fn is_word_char(c: char) -> bool {
    ('a' <= c && c <= 'z') || ('A' <= c && c <= 'Z') || ('0' <= c && c <= '9') || c == '_'
}

/// Characters that only separate tokens.
pub open spec fn is_space_char(c: char) -> bool {
    c == ' ' || c == '\n' || c == '\t' || c == '\r'
}

/// The delimiter a character opens, if any.
pub open spec fn open_delim_of(c: char) -> Option<Delim> {
    if c == '(' {
        Some(Delim::Paren)
    } else if c == '[' {
        Some(Delim::Bracket)
    } else if c == '{' {
        Some(Delim::Brace)
    } else {
        None
    }
}

/// The delimiter a character closes, if any.
pub open spec fn close_delim_of(c: char) -> Option<Delim> {
    if c == ')' {
        Some(Delim::Paren)
    } else if c == ']' {
        Some(Delim::Bracket)
    } else if c == '}' {
        Some(Delim::Brace)
    } else {
        None
    }
}

/// What the scanner is in the middle of reading.
pub enum LexModeV {
    /// Between tokens.
    Normal,
    /// Inside an identifier-like run, with the characters read so far.
    Word(Seq<char>),
    /// Inside a quoted literal, with the characters read so far (the opening
    /// quote included).
    Str(Seq<char>),
}

/// The scanner state after some prefix of the text: the stack of unclosed
/// groups (each with the nodes collected before it was opened), the nodes
/// collected at the current nesting level, and the reading mode.
pub struct LexStV {
    pub stack: Seq<(Delim, Seq<NodeV>)>,
    pub cur: Seq<NodeV>,
    pub mode: LexModeV,
}

/// The scanner state before any character is read.
pub open spec fn lex_init() -> LexStV {
    LexStV { stack: Seq::empty(), cur: Seq::empty(), mode: LexModeV::Normal }
}

/// One scanner step on a character read between tokens.
pub open spec fn lex_normal(stack: Seq<(Delim, Seq<NodeV>)>, cur: Seq<NodeV>, c: char) -> Option<
    LexStV,
> {
    if c == '"' {
        Some(LexStV { stack, cur, mode: LexModeV::Str(seq!['"']) })
    } else if is_word_char(c) {
        Some(LexStV { stack, cur, mode: LexModeV::Word(seq![c]) })
    } else if is_space_char(c) {
        Some(LexStV { stack, cur, mode: LexModeV::Normal })
    } else if open_delim_of(c) is Some {
        Some(
            LexStV {
                stack: stack.push((open_delim_of(c)->Some_0, cur)),
                cur: Seq::empty(),
                mode: LexModeV::Normal,
            },
        )
    } else if close_delim_of(c) is Some {
        if stack.len() == 0 {
            None
        } else if stack.last().0 == close_delim_of(c)->Some_0 {
            Some(
                LexStV {
                    stack: stack.drop_last(),
                    cur: stack.last().1.push(NodeV::Group(stack.last().0, cur)),
                    mode: LexModeV::Normal,
                },
            )
        } else {
            None
        }
    } else {
        Some(LexStV { stack, cur: cur.push(NodeV::Punct(c)), mode: LexModeV::Normal })
    }
}

/// One scanner step.
pub open spec fn lex_step(st: LexStV, c: char) -> Option<LexStV> {
    match st.mode {
        LexModeV::Normal => lex_normal(st.stack, st.cur, c),
        LexModeV::Word(w) => if is_word_char(c) {
            Some(LexStV { stack: st.stack, cur: st.cur, mode: LexModeV::Word(w.push(c)) })
        } else {
            lex_normal(st.stack, st.cur.push(NodeV::Text(w)), c)
        },
        LexModeV::Str(t) => if c == '"' {
            Some(
                LexStV {
                    stack: st.stack,
                    cur: st.cur.push(NodeV::Text(t.push('"'))),
                    mode: LexModeV::Normal,
                },
            )
        } else {
            Some(LexStV { stack: st.stack, cur: st.cur, mode: LexModeV::Str(t.push(c)) })
        },
    }
}

/// The scanner state after the whole character sequence, `None` once any
/// step fails.
pub open spec fn lex_all(cs: Seq<char>) -> Option<LexStV>
    decreases cs.len(),
{
    if cs.len() == 0 {
        Some(lex_init())
    } else {
        match lex_all(cs.drop_last()) {
            None => None,
            Some(st) => lex_step(st, cs.last()),
        }
    }
}

/// Closes the scan: a pending word becomes a final text leaf; an unclosed
/// group or quote fails.
pub open spec fn lex_finish(st: LexStV) -> Option<Seq<NodeV>> {
    match st.mode {
        LexModeV::Str(t) => None,
        LexModeV::Word(w) => if st.stack.len() == 0 {
            Some(st.cur.push(NodeV::Text(w)))
        } else {
            None
        },
        LexModeV::Normal => if st.stack.len() == 0 {
            Some(st.cur)
        } else {
            None
        },
    }
}

/// The node sequence a text parses to, `None` for unbalanced delimiters or
/// an unterminated quoted literal.
pub open spec fn spec_parse_text(cs: Seq<char>) -> Option<Seq<NodeV>> {
    match lex_all(cs) {
        None => None,
        Some(st) => lex_finish(st),
    }
}

proof fn lemma_lex_all_step(cs: Seq<char>, i: int)
    requires
        0 <= i < cs.len(),
    ensures
        lex_all(cs.take(i + 1)) == match lex_all(cs.take(i)) {
            None => None::<LexStV>,
            Some(st) => lex_step(st, cs[i]),
        },
{
    let t = cs.take(i + 1);
    assert(t.len() == i + 1);
    assert(t.drop_last() =~= cs.take(i));
    assert(t.last() == cs[i]);
}

proof fn lemma_lex_none_extends(cs: Seq<char>, i: int)
    requires
        0 <= i <= cs.len(),
        lex_all(cs.take(i)) is None,
    ensures
        lex_all(cs) is None,
    decreases cs.len() - i,
{
    if i == cs.len() {
        assert(cs.take(i) =~= cs);
    } else {
        lemma_lex_all_step(cs, i);
        lemma_lex_none_extends(cs, i + 1);
    }
}

/// An unclosed group, with the nodes collected before it was opened.
struct Frame {
    delim: Delim,
    saved: Vec<Node>,
}

/// What the scanner is in the middle of reading (runtime form).
enum LexMode {
    Normal,
    Word(String),
    Str(String),
}

spec fn frames_view(fs: Seq<Frame>) -> Seq<(Delim, Seq<NodeV>)> {
    Seq::new(fs.len(), |i: int| (fs[i].delim, fs[i].saved.deep_view()))
}

spec fn mode_view(m: LexMode) -> LexModeV {
    match m {
        LexMode::Normal => LexModeV::Normal,
        LexMode::Word(w) => LexModeV::Word(w@),
        LexMode::Str(t) => LexModeV::Str(t@),
    }
}

spec fn st_view(stack: Seq<Frame>, cur: Vec<Node>, mode: LexMode) -> LexStV {
    LexStV { stack: frames_view(stack), cur: cur.deep_view(), mode: mode_view(mode) }
}

fn open_delim_char(c: char) -> (r: Option<Delim>)
    ensures
        r == open_delim_of(c),
{
    if c == '(' {
        Some(Delim::Paren)
    } else if c == '[' {
        Some(Delim::Bracket)
    } else if c == '{' {
        Some(Delim::Brace)
    } else {
        None
    }
}

fn close_delim_char(c: char) -> (r: Option<Delim>)
    ensures
        r == close_delim_of(c),
{
    if c == ')' {
        Some(Delim::Paren)
    } else if c == ']' {
        Some(Delim::Bracket)
    } else if c == '}' {
        Some(Delim::Brace)
    } else {
        None
    }
}

fn word_char(c: char) -> (r: bool)
    ensures
        r == is_word_char(c),
{
    ('a' <= c && c <= 'z') || ('A' <= c && c <= 'Z') || ('0' <= c && c <= '9') || c == '_'
}

fn space_char(c: char) -> (r: bool)
    ensures
        r == is_space_char(c),
{
    c == ' ' || c == '\n' || c == '\t' || c == '\r'
}

pub(crate) proof fn lemma_deep_push(pre: Vec<Node>, post: Vec<Node>, x: Node)
    requires
        post@ == pre@.push(x),
    ensures
        post.deep_view() == pre.deep_view().push(node_view(x)),
{
    assert forall|j: int| 0 <= j < post@.len() implies post.deep_view()[j] == pre.deep_view().push(
        node_view(x),
    )[j] by {
        if j < pre@.len() {
            assert(post@[j] == pre@[j]);
        } else {
            assert(post@[j] == x);
        }
    }
    assert(post.deep_view() =~= pre.deep_view().push(node_view(x)));
}

/// One runtime scanner step between tokens; returns the new reading mode, or
/// `None` where the scan fails.
fn lex_normal_exec(stack: &mut Vec<Frame>, cur: &mut Vec<Node>, c: char) -> (r: Option<LexMode>)
    ensures
        match lex_normal(frames_view(old(stack)@), old(cur).deep_view(), c) {
            Some(st) => r is Some && st == st_view(final(stack)@, *final(cur), r->Some_0),
            None => r is None,
        },
{
    let ghost pre_stack = frames_view(stack@);
    let ghost pre_cur = cur.deep_view();
    if c == '"' {
        let mut t = String::new();
        push_quote(&mut t);
        Some(LexMode::Str(t))
    } else if word_char(c) {
        let mut w = String::new();
        crate::node::push_char(&mut w, c);
        proof {
            assert(w@ =~= seq![c]);
        }
        Some(LexMode::Word(w))
    } else if space_char(c) {
        Some(LexMode::Normal)
    } else if let Some(d) = open_delim_char(c) {
        let mut saved: Vec<Node> = Vec::new();
        core::mem::swap(&mut saved, cur);
        stack.push(Frame { delim: d, saved });
        proof {
            assert(cur.deep_view() =~= Seq::<NodeV>::empty());
            assert(frames_view(stack@) =~= pre_stack.push((d, pre_cur)));
        }
        Some(LexMode::Normal)
    } else if let Some(d) = close_delim_char(c) {
        if stack.len() == 0 {
            None
        } else {
            let frame = stack.pop().unwrap();
            if delim_eq(frame.delim, d) {
                let mut children = frame.saved;
                core::mem::swap(&mut children, cur);
                let ghost pre_push = *cur;
                let g = Node::Group(d, children);
                let ghost gv = g;
                cur.push(g);
                proof {
                    assert(frames_view(stack@) =~= pre_stack.drop_last());
                    crate::node::lemma_group_view(d, gv->Group_1);
                    lemma_deep_push(pre_push, *cur, gv);
                }
                Some(LexMode::Normal)
            } else {
                None
            }
        }
    } else {
        let ghost pre_push = *cur;
        let g = Node::Punct(c);
        cur.push(g);
        proof {
            lemma_deep_push(pre_push, *cur, Node::Punct(c));
        }
        Some(LexMode::Normal)
    }
}

fn delim_eq(a: Delim, b: Delim) -> (r: bool)
    ensures
        r == (a == b),
{
    a == b
}

/// Appends the double-quote character.
fn push_quote(t: &mut String)
    ensures
        final(t)@ == old(t)@.push('"'),
{
    crate::node::push_char(t, '"');
}

/// Re-parses a text into a node sequence; `None` for unbalanced delimiters
/// or an unterminated quoted literal.
pub fn parse_text(s: &str) -> (r: Option<Vec<Node>>)
    ensures
        match r {
            Some(ns) => spec_parse_text(s@) == Some(ns.deep_view()),
            None => spec_parse_text(s@) is None,
        },
{
    let n = s.unicode_len();
    let mut stack: Vec<Frame> = Vec::new();
    let mut cur: Vec<Node> = Vec::new();
    let mut mode = LexMode::Normal;
    let mut i: usize = 0;
    proof {
        assert(frames_view(stack@) =~= Seq::<(Delim, Seq<NodeV>)>::empty());
        assert(cur.deep_view() =~= Seq::<NodeV>::empty());
    }
    while i < n
        invariant
            i <= n,
            n == s@.len(),
            lex_all(s@.take(i as int)) == Some(st_view(stack@, cur, mode)),
        decreases n - i,
    {
        let c = s.get_char(i);
        let ghost pre = st_view(stack@, cur, mode);
        proof {
            lemma_lex_all_step(s@, i as int);
        }
        let next_mode: Option<LexMode> = match mode {
            LexMode::Normal => lex_normal_exec(&mut stack, &mut cur, c),
            LexMode::Word(mut w) => {
                if word_char(c) {
                    crate::node::push_char(&mut w, c);
                    Some(LexMode::Word(w))
                } else {
                    let ghost pre_push = cur;
                    let leaf = Node::Text(w);
                    let ghost leafg = leaf;
                    cur.push(leaf);
                    proof {
                        lemma_deep_push(pre_push, cur, leafg);
                    }
                    lex_normal_exec(&mut stack, &mut cur, c)
                }
            },
            LexMode::Str(mut t) => {
                if c == '"' {
                    push_quote(&mut t);
                    let ghost pre_push = cur;
                    let leaf = Node::Text(t);
                    let ghost leafg = leaf;
                    cur.push(leaf);
                    proof {
                        lemma_deep_push(pre_push, cur, leafg);
                    }
                    Some(LexMode::Normal)
                } else {
                    crate::node::push_char(&mut t, c);
                    Some(LexMode::Str(t))
                }
            },
        };
        match next_mode {
            Some(m) => {
                mode = m;
            },
            None => {
                proof {
                    lemma_lex_none_extends(s@, i + 1);
                }
                return None;
            },
        }
        i += 1;
    }
    proof {
        assert(s@.take(n as int) =~= s@);
    }
    match mode {
        LexMode::Str(_) => None,
        LexMode::Word(w) => {
            if stack.len() == 0 {
                let ghost pre_push = cur;
                let leaf = Node::Text(w);
                let ghost leafg = leaf;
                cur.push(leaf);
                proof {
                    lemma_deep_push(pre_push, cur, leafg);
                }
                Some(cur)
            } else {
                None
            }
        },
        LexMode::Normal => {
            if stack.len() == 0 {
                Some(cur)
            } else {
                None
            }
        },
    }
}

} // verus!
