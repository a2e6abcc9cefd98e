//! The template expander.
//!
//! A template tree is walked recursively and structure-preservingly.  A bare
//! `$` leaf immediately followed by a group is a collection-repeat marker:
//! the group's children are the repeat body, and one copy of the body is
//! produced per (collection, target) pair of the script, outer loop over
//! collections, inner loop over that collection's targets, both in
//! declaration order.  Inside one body copy, `$code_macro`, `$tartype` and
//! `$source` substitute the pair's fields, and `$` followed by a parenthesis
//! group repeats that sub-body once per dependency of the current target.
//! Malformed marker shapes degrade to "no substitution" instead of failing:
//! that lenience is the one deliberate exception to the fail-fast policy of
//! the parser.

use vstd::prelude::*;

use crate::lexer::{parse_text, spec_parse_text};
use crate::node::{
    clone_node, clone_nodes, lemma_deep_of_append, lemma_deep_of_push, lemma_group_view,
    lemma_nodes_view_is_deep, lemma_vec_deep_view, node_view, Delim, Node, NodeV,
};
use crate::target::{type_text_of, CollV, Target, TargetV, TargetsCollection};

verus! {

/// The nodes a captured text splices back in: its re-parse, or nothing where
/// the text does not parse back.
pub open spec fn splice_of(s: Seq<char>) -> Seq<NodeV> {
    match spec_parse_text(s) {
        Some(ns) => ns,
        None => Seq::empty(),
    }
}

/// One copy of a dependency-repeat body for one dependency: each `$` leaf
/// and the node after it are replaced by the dependency's re-parsed text; a
/// trailing `$` is dropped; every other node passes through unchanged
/// (groups are not entered here).
pub open spec fn spec_dep_copy(body: Seq<NodeV>, dep: Seq<char>) -> Seq<NodeV>
    decreases body.len(),
{
    if body.len() == 0 {
        Seq::empty()
    } else if body[0] == NodeV::Punct('$') {
        if body.len() == 1 {
            Seq::empty()
        } else {
            splice_of(dep) + spec_dep_copy(body.skip(2), dep)
        }
    } else {
        seq![body[0]] + spec_dep_copy(body.skip(1), dep)
    }
}

/// A dependency-repeat body expanded: one copy per dependency, in order;
/// no dependencies contribute nothing.
pub open spec fn spec_expand_deps(body: Seq<NodeV>, deps: Seq<Seq<char>>) -> Seq<NodeV>
    decreases deps.len(),
{
    if deps.len() == 0 {
        Seq::empty()
    } else {
        spec_dep_copy(body, deps[0]) + spec_expand_deps(body, deps.drop_first())
    }
}

/// One copy of a collection-repeat body for one (collection, target) pair.
/// After a `$` leaf: a parenthesis group is a dependency-repeat body; the
/// identifiers `code_macro`, `tartype` and `source` splice the collection's
/// verbatim attribute tag, the re-parsed `TargetType::Variant` text and the
/// re-parsed source text; any other follower is consumed with no splice; a
/// trailing `$` is dropped.  Other groups are rebuilt over their expanded
/// children; other leaves pass through unchanged.
pub open spec fn spec_expand_body(body: Seq<NodeV>, coll: CollV, tar: TargetV) -> Seq<NodeV>
    decreases body,
{
    if body.len() == 0 {
        Seq::empty()
    } else if body[0] == NodeV::Punct('$') {
        if body.len() == 1 {
            Seq::empty()
        } else {
            let rest = spec_expand_body(body.skip(2), coll, tar);
            match body[1] {
                NodeV::Group(d, inner) => if d == Delim::Paren {
                    spec_expand_deps(inner, tar.dependencies) + rest
                } else {
                    rest
                },
                NodeV::Text(w) => if w == "code_macro"@ {
                    coll.code_macro + rest
                } else if w == "tartype"@ {
                    splice_of(type_text_of(coll.ttype)) + rest
                } else if w == "source"@ {
                    splice_of(tar.source) + rest
                } else {
                    rest
                },
                NodeV::Punct(_) => rest,
            }
        }
    } else {
        match body[0] {
            NodeV::Group(d, ch) => {
                proof {
                    assert(decreases_to!(body => body[0]));
                    assert(decreases_to!(body[0] => ch));
                }
                seq![NodeV::Group(d, spec_expand_body(ch, coll, tar))] + spec_expand_body(
                    body.skip(1),
                    coll,
                    tar,
                )
            },
            _ => seq![body[0]] + spec_expand_body(body.skip(1), coll, tar),
        }
    }
}

/// A collection-repeat body expanded for one collection: one body copy per
/// target, in declaration order.
pub open spec fn spec_expand_targets(body: Seq<NodeV>, coll: CollV, tars: Seq<TargetV>) -> Seq<
    NodeV,
>
    decreases tars.len(),
{
    if tars.len() == 0 {
        Seq::empty()
    } else {
        spec_expand_body(body, coll, tars[0]) + spec_expand_targets(body, coll, tars.drop_first())
    }
}

/// A collection-repeat body expanded against the whole script: one body copy
/// per (collection, target) pair, in declaration order.
pub open spec fn spec_expand_site(body: Seq<NodeV>, script: Seq<CollV>) -> Seq<NodeV>
    decreases script.len(),
{
    if script.len() == 0 {
        Seq::empty()
    } else {
        spec_expand_targets(body, script[0], script[0].targets) + spec_expand_site(
            body,
            script.drop_first(),
        )
    }
}

/// The whole template expanded: a `$` leaf immediately followed by a group
/// marks a collection-repeat site, replaced by the site's expansion; any
/// other group is rebuilt over its expanded children; every other node
/// (a `$` with no group after it included) passes through unchanged.
pub open spec fn spec_replace(t: Seq<NodeV>, script: Seq<CollV>) -> Seq<NodeV>
    decreases t,
{
    if t.len() == 0 {
        Seq::empty()
    } else if t.len() >= 2 && t[0] == NodeV::Punct('$') && (t[1] matches NodeV::Group(_, _)) {
        spec_expand_site(t[1]->Group_1, script) + spec_replace(t.skip(2), script)
    } else {
        match t[0] {
            NodeV::Group(d, ch) => {
                proof {
                    assert(decreases_to!(t => t[0]));
                    assert(decreases_to!(t[0] => ch));
                }
                seq![NodeV::Group(d, spec_replace(ch, script))] + spec_replace(t.skip(1), script)
            },
            _ => seq![t[0]] + spec_replace(t.skip(1), script),
        }
    }
}

/// Holds when no `$` leaf immediately followed by a group stands anywhere in
/// the template, at any nesting level: the template holds no
/// collection-repeat marker.
pub open spec fn no_repeat_marker(t: Seq<NodeV>) -> bool
    decreases t,
{
    if t.len() == 0 {
        true
    } else if t.len() >= 2 && t[0] == NodeV::Punct('$') && (t[1] matches NodeV::Group(_, _)) {
        false
    } else {
        (match t[0] {
            NodeV::Group(d, ch) => {
                proof {
                    assert(decreases_to!(t => t[0]));
                    assert(decreases_to!(t[0] => ch));
                }
                no_repeat_marker(ch)
            },
            _ => true,
        }) && no_repeat_marker(t.drop_first())
    }
}

/// Identity: a template holding no collection-repeat marker expands to
/// itself, node for node, and so to textually identical output.
pub proof fn lemma_replace_identity(t: Seq<NodeV>, script: Seq<CollV>)
    requires
        no_repeat_marker(t),
    ensures
        spec_replace(t, script) == t,
        crate::node::render_nodes(spec_replace(t, script)) == crate::node::render_nodes(t),
    decreases t,
{
    if t.len() == 0 {
        assert(spec_replace(t, script) =~= t);
    } else {
        assert(t.skip(1) =~= t.drop_first());
        match t[0] {
            NodeV::Group(d, ch) => {
                assert(decreases_to!(t => t[0]));
                assert(decreases_to!(t[0] => ch));
                lemma_replace_identity(ch, script);
                lemma_replace_identity(t.drop_first(), script);
                assert(seq![NodeV::Group(d, spec_replace(ch, script))] + spec_replace(
                    t.skip(1),
                    script,
                ) =~= t);
            },
            _ => {
                lemma_replace_identity(t.drop_first(), script);
                assert(seq![t[0]] + spec_replace(t.skip(1), script) =~= t);
            },
        }
    }
}

/// The number of (collection, target) pairs of a script.
pub open spec fn total_targets(script: Seq<CollV>) -> nat
    decreases script.len(),
{
    if script.len() == 0 {
        0
    } else {
        script[0].targets.len() + total_targets(script.drop_first())
    }
}

/// The body copies one collection contributes: one per target, in order.
pub open spec fn coll_copies(body: Seq<NodeV>, coll: CollV, tars: Seq<TargetV>) -> Seq<Seq<NodeV>>
    decreases tars.len(),
{
    if tars.len() == 0 {
        Seq::empty()
    } else {
        seq![spec_expand_body(body, coll, tars[0])] + coll_copies(body, coll, tars.drop_first())
    }
}

/// The body copies a collection-repeat site produces: one per (collection,
/// target) pair, collections outermost, in declaration order.
pub open spec fn site_copies(body: Seq<NodeV>, script: Seq<CollV>) -> Seq<Seq<NodeV>>
    decreases script.len(),
{
    if script.len() == 0 {
        Seq::empty()
    } else {
        coll_copies(body, script[0], script[0].targets) + site_copies(body, script.drop_first())
    }
}

/// Concatenation of a sequence of node sequences, in order.
pub open spec fn concat_all(pieces: Seq<Seq<NodeV>>) -> Seq<NodeV>
    decreases pieces.len(),
{
    if pieces.len() == 0 {
        Seq::empty()
    } else {
        pieces[0] + concat_all(pieces.drop_first())
    }
}

proof fn lemma_concat_all_append(a: Seq<Seq<NodeV>>, b: Seq<Seq<NodeV>>)
    ensures
        concat_all(a + b) == concat_all(a) + concat_all(b),
    decreases a.len(),
{
    if a.len() == 0 {
        assert(a + b =~= b);
        assert(concat_all(a) + concat_all(b) =~= concat_all(b));
    } else {
        assert((a + b).drop_first() =~= a.drop_first() + b);
        lemma_concat_all_append(a.drop_first(), b);
        assert((a + b)[0] == a[0]);
        assert(a[0] + (concat_all(a.drop_first()) + concat_all(b)) =~= (a[0] + concat_all(
            a.drop_first(),
        )) + concat_all(b));
    }
}

proof fn lemma_coll_cardinality(body: Seq<NodeV>, coll: CollV, tars: Seq<TargetV>)
    ensures
        coll_copies(body, coll, tars).len() == tars.len(),
        spec_expand_targets(body, coll, tars) == concat_all(coll_copies(body, coll, tars)),
    decreases tars.len(),
{
    if tars.len() > 0 {
        lemma_coll_cardinality(body, coll, tars.drop_first());
        let rest = coll_copies(body, coll, tars.drop_first());
        assert((seq![spec_expand_body(body, coll, tars[0])] + rest).drop_first() =~= rest);
    }
}

/// Cardinality: a collection-repeat site produces exactly one body copy per
/// (collection, target) pair — over collections with k₁…kₙ targets, Σ kᵢ
/// copies in all — concatenated in declaration order, collections outermost
/// and each collection's targets innermost.
pub proof fn lemma_site_cardinality(body: Seq<NodeV>, script: Seq<CollV>)
    ensures
        site_copies(body, script).len() == total_targets(script),
        spec_expand_site(body, script) == concat_all(site_copies(body, script)),
    decreases script.len(),
{
    if script.len() > 0 {
        lemma_coll_cardinality(body, script[0], script[0].targets);
        lemma_site_cardinality(body, script.drop_first());
        lemma_concat_all_append(
            coll_copies(body, script[0], script[0].targets),
            site_copies(body, script.drop_first()),
        );
    }
}

/// Holds when a body scan consumes the sequence in whole steps: every `$`
/// leaf has its follower inside the sequence.
pub open spec fn marker_closed(b: Seq<NodeV>) -> bool
    decreases b.len(),
{
    if b.len() == 0 {
        true
    } else if b[0] == NodeV::Punct('$') {
        b.len() >= 2 && marker_closed(b.skip(2))
    } else {
        marker_closed(b.skip(1))
    }
}

/// Expanding one body copy distributes over concatenation when the first
/// part consumes its markers within itself.
pub proof fn lemma_expand_body_concat(b1: Seq<NodeV>, b2: Seq<NodeV>, coll: CollV, tar: TargetV)
    requires
        marker_closed(b1),
    ensures
        spec_expand_body(b1 + b2, coll, tar) == spec_expand_body(b1, coll, tar)
            + spec_expand_body(b2, coll, tar),
    decreases b1.len(),
{
    let whole = b1 + b2;
    if b1.len() == 0 {
        assert(whole =~= b2);
        assert(spec_expand_body(b1, coll, tar) + spec_expand_body(b2, coll, tar)
            =~= spec_expand_body(b2, coll, tar));
    } else {
        assert(whole[0] == b1[0]);
        if b1[0] == NodeV::Punct('$') {
            assert(whole[1] == b1[1]);
            assert(whole.skip(2) =~= b1.skip(2) + b2);
            lemma_expand_body_concat(b1.skip(2), b2, coll, tar);
            let h = match b1[1] {
                NodeV::Group(d, inner) => if d == Delim::Paren {
                    spec_expand_deps(inner, tar.dependencies)
                } else {
                    Seq::<NodeV>::empty()
                },
                NodeV::Text(w) => if w == "code_macro"@ {
                    coll.code_macro
                } else if w == "tartype"@ {
                    splice_of(type_text_of(coll.ttype))
                } else if w == "source"@ {
                    splice_of(tar.source)
                } else {
                    Seq::<NodeV>::empty()
                },
                NodeV::Punct(_) => Seq::<NodeV>::empty(),
            };
            let x = spec_expand_body(b1.skip(2), coll, tar);
            let y = spec_expand_body(b2, coll, tar);
            assert(Seq::<NodeV>::empty() + x =~= x);
            assert(Seq::<NodeV>::empty() + (x + y) =~= x + y);
            assert(h + (x + y) =~= (h + x) + y);
        } else {
            assert(whole.skip(1) =~= b1.skip(1) + b2);
            lemma_expand_body_concat(b1.skip(1), b2, coll, tar);
            let x = spec_expand_body(b1.skip(1), coll, tar);
            let y = spec_expand_body(b2, coll, tar);
            match b1[0] {
                NodeV::Group(d, ch) => {
                    let g = seq![NodeV::Group(d, spec_expand_body(ch, coll, tar))];
                    assert(g + (x + y) =~= (g + x) + y);
                },
                _ => {
                    assert(seq![b1[0]] + (x + y) =~= (seq![b1[0]] + x) + y);
                },
            }
        }
    }
}

/// The per-dependency copies of a dependency-repeat body, in order.
pub open spec fn dep_copies(body: Seq<NodeV>, deps: Seq<Seq<char>>) -> Seq<Seq<NodeV>>
    decreases deps.len(),
{
    if deps.len() == 0 {
        Seq::empty()
    } else {
        seq![spec_dep_copy(body, deps[0])] + dep_copies(body, deps.drop_first())
    }
}

proof fn lemma_dep_copies(body: Seq<NodeV>, deps: Seq<Seq<char>>)
    ensures
        dep_copies(body, deps).len() == deps.len(),
        spec_expand_deps(body, deps) == concat_all(dep_copies(body, deps)),
    decreases deps.len(),
{
    if deps.len() > 0 {
        lemma_dep_copies(body, deps.drop_first());
        let rest = dep_copies(body, deps.drop_first());
        assert((seq![spec_dep_copy(body, deps[0])] + rest).drop_first() =~= rest);
    }
}

/// Dependency fan-out: within one body copy, a dependency-repeat marker
/// produces exactly one copy of its sub-body per dependency of the current
/// target, in order; with no dependencies the marker and its sub-body
/// contribute nothing, while the rest of the enclosing body stands
/// unchanged.
pub proof fn lemma_dep_fanout(
    b1: Seq<NodeV>,
    inner: Seq<NodeV>,
    b2: Seq<NodeV>,
    coll: CollV,
    tar: TargetV,
)
    requires
        marker_closed(b1),
    ensures
        spec_expand_body(
            b1 + seq![NodeV::Punct('$'), NodeV::Group(Delim::Paren, inner)] + b2,
            coll,
            tar,
        ) == spec_expand_body(b1, coll, tar) + spec_expand_deps(inner, tar.dependencies)
            + spec_expand_body(b2, coll, tar),
        dep_copies(inner, tar.dependencies).len() == tar.dependencies.len(),
        spec_expand_deps(inner, tar.dependencies) == concat_all(
            dep_copies(inner, tar.dependencies),
        ),
        tar.dependencies.len() == 0 ==> spec_expand_body(
            b1 + seq![NodeV::Punct('$'), NodeV::Group(Delim::Paren, inner)] + b2,
            coll,
            tar,
        ) == spec_expand_body(b1, coll, tar) + spec_expand_body(b2, coll, tar),
{
    let m = seq![NodeV::Punct('$'), NodeV::Group(Delim::Paren, inner)];
    assert(b1 + m + b2 =~= b1 + (m + b2));
    lemma_expand_body_concat(b1, m + b2, coll, tar);
    assert((m + b2)[0] == NodeV::Punct('$'));
    assert((m + b2)[1] == NodeV::Group(Delim::Paren, inner));
    assert((m + b2).skip(2) =~= b2);
    lemma_dep_copies(inner, tar.dependencies);
    let e = spec_expand_body(b1, coll, tar);
    let d = spec_expand_deps(inner, tar.dependencies);
    let r = spec_expand_body(b2, coll, tar);
    assert(e + (d + r) =~= e + d + r);
    if tar.dependencies.len() == 0 {
        assert(d =~= Seq::<NodeV>::empty());
        assert(e + d + r =~= e + r);
    }
}

/// The attribute tag stands verbatim in every body copy: within one copy, a
/// `$code_macro` marker contributes exactly the collection's tag, while the
/// rest of the enclosing body stands unchanged.
pub proof fn lemma_code_macro_splice(b1: Seq<NodeV>, b2: Seq<NodeV>, coll: CollV, tar: TargetV)
    requires
        marker_closed(b1),
    ensures
        spec_expand_body(
            b1 + seq![NodeV::Punct('$'), NodeV::Text("code_macro"@)] + b2,
            coll,
            tar,
        ) == spec_expand_body(b1, coll, tar) + coll.code_macro + spec_expand_body(b2, coll, tar),
{
    let m = seq![NodeV::Punct('$'), NodeV::Text("code_macro"@)];
    assert(b1 + m + b2 =~= b1 + (m + b2));
    lemma_expand_body_concat(b1, m + b2, coll, tar);
    assert((m + b2)[0] == NodeV::Punct('$'));
    assert((m + b2)[1] == NodeV::Text("code_macro"@));
    assert((m + b2).skip(2) =~= b2);
    let e = spec_expand_body(b1, coll, tar);
    let d = coll.code_macro;
    let r = spec_expand_body(b2, coll, tar);
    assert(e + (d + r) =~= e + d + r);
}

/// Re-parses a captured text for splicing; an unparseable text splices
/// nothing.
fn splice_text(s: &str) -> (r: Vec<Node>)
    ensures
        r.deep_view() == splice_of(s@),
{
    match parse_text(s) {
        Some(ns) => ns,
        None => {
            let r: Vec<Node> = Vec::new();
            proof {
                assert(r.deep_view() =~= Seq::<NodeV>::empty());
            }
            r
        },
    }
}

fn dep_copy_from(body: &Vec<Node>, i: usize, dep: &String) -> (r: Vec<Node>)
    requires
        i <= body.len(),
    ensures
        r.deep_view() == spec_dep_copy(body.deep_view().skip(i as int), dep@),
    decreases body.len() - i,
{
    let ghost s = body.deep_view().skip(i as int);
    if i == body.len() {
        let r: Vec<Node> = Vec::new();
        proof {
            assert(s =~= Seq::<NodeV>::empty());
            assert(r.deep_view() =~= Seq::<NodeV>::empty());
        }
        return r;
    }
    proof {
        assert(s[0] == body.deep_view()[i as int]);
    }
    let is_dollar = match &body[i] {
        Node::Punct(p) => *p == '$',
        _ => false,
    };
    if is_dollar {
        if i + 1 == body.len() {
            let r: Vec<Node> = Vec::new();
            proof {
                assert(s.len() == 1);
                assert(r.deep_view() =~= Seq::<NodeV>::empty());
            }
            r
        } else {
            let mut r = splice_text(dep.as_str());
            let ghost a = r;
            let mut rest = dep_copy_from(body, i + 2, dep);
            let ghost b = rest;
            r.append(&mut rest);
            proof {
                assert(s.skip(2) =~= body.deep_view().skip(i + 2));
                lemma_deep_of_append(a, b, r);
            }
            r
        }
    } else {
        let mut r: Vec<Node> = Vec::new();
        let ghost pre = r;
        let head = clone_node(&body[i]);
        let ghost headg = head;
        r.push(head);
        let ghost a = r;
        proof {
            lemma_deep_of_push(pre, a, headg);
            assert(pre.deep_view() =~= Seq::<NodeV>::empty());
            assert(a.deep_view() =~= seq![s[0]]);
        }
        let mut rest = dep_copy_from(body, i + 1, dep);
        let ghost b = rest;
        r.append(&mut rest);
        proof {
            assert(s.skip(1) =~= body.deep_view().skip(i + 1));
            lemma_deep_of_append(a, b, r);
        }
        r
    }
}

fn expand_deps_from(body: &Vec<Node>, deps: &Vec<String>, di: usize) -> (r: Vec<Node>)
    requires
        di <= deps.len(),
    ensures
        r.deep_view() == spec_expand_deps(body.deep_view(), deps.deep_view().skip(di as int)),
    decreases deps.len() - di,
{
    let ghost ds = deps.deep_view().skip(di as int);
    if di == deps.len() {
        let r: Vec<Node> = Vec::new();
        proof {
            assert(ds =~= Seq::<Seq<char>>::empty());
            assert(r.deep_view() =~= Seq::<NodeV>::empty());
        }
        return r;
    }
    proof {
        assert(ds[0] == deps.deep_view()[di as int]);
        assert(ds.drop_first() =~= deps.deep_view().skip(di as int + 1));
        assert(body.deep_view().skip(0) =~= body.deep_view());
    }
    let mut r = dep_copy_from(body, 0, &deps[di]);
    let ghost a = r;
    let mut rest = expand_deps_from(body, deps, di + 1);
    let ghost b = rest;
    r.append(&mut rest);
    proof {
        lemma_deep_of_append(a, b, r);
    }
    r
}

fn expand_body_from(body: &Vec<Node>, i: usize, coll: &TargetsCollection, tar: &Target) -> (r: Vec<
    Node,
>)
    requires
        i <= body.len(),
    ensures
        r.deep_view() == spec_expand_body(body.deep_view().skip(i as int), coll@, tar@),
    decreases body, body.len() - i,
{
    let ghost s = body.deep_view().skip(i as int);
    if i == body.len() {
        let r: Vec<Node> = Vec::new();
        proof {
            assert(s =~= Seq::<NodeV>::empty());
            assert(r.deep_view() =~= Seq::<NodeV>::empty());
        }
        return r;
    }
    proof {
        assert(s[0] == body.deep_view()[i as int]);
    }
    let is_dollar = match &body[i] {
        Node::Punct(p) => *p == '$',
        _ => false,
    };
    if is_dollar {
        if i + 1 == body.len() {
            let r: Vec<Node> = Vec::new();
            proof {
                assert(s.len() == 1);
                assert(r.deep_view() =~= Seq::<NodeV>::empty());
            }
            return r;
        }
        proof {
            assert(s[1] == body.deep_view()[i + 1]);
            assert(s.skip(2) =~= body.deep_view().skip(i + 2));
        }
        let ghost head_spec: Seq<NodeV> = match s[1] {
            NodeV::Group(d, inner) => if d == Delim::Paren {
                spec_expand_deps(inner, tar@.dependencies)
            } else {
                Seq::empty()
            },
            NodeV::Text(w) => if w == "code_macro"@ {
                coll@.code_macro
            } else if w == "tartype"@ {
                splice_of(type_text_of(coll@.ttype))
            } else if w == "source"@ {
                splice_of(tar@.source)
            } else {
                Seq::empty()
            },
            NodeV::Punct(_) => Seq::empty(),
        };
        let mut head: Vec<Node> = match &body[i + 1] {
            Node::Group(d, inner) => {
                if *d == Delim::Paren {
                    proof {
                        lemma_nodes_view_is_deep(inner@);
                        lemma_vec_deep_view(*inner);
                        assert(tar.dependencies.deep_view().skip(0) =~= tar@.dependencies);
                    }
                    let piece = expand_deps_from(inner, &tar.dependencies, 0);
                    proof {
                        assert(piece.deep_view() == head_spec);
                    }
                    piece
                } else {
                    let piece: Vec<Node> = Vec::new();
                    proof {
                        assert(piece.deep_view() =~= Seq::<NodeV>::empty());
                        assert(piece.deep_view() == head_spec);
                    }
                    piece
                }
            },
            Node::Text(w) => {
                let key_cm = String::from_str("code_macro");
                let key_tt = String::from_str("tartype");
                let key_src = String::from_str("source");
                if *w == key_cm {
                    let piece = clone_nodes(&coll.code_macro);
                    proof {
                        assert(piece.deep_view() == head_spec);
                    }
                    piece
                } else if *w == key_tt {
                    let txt = coll.ttype.to_text();
                    let piece = splice_text(txt.as_str());
                    proof {
                        assert(piece.deep_view() == head_spec);
                    }
                    piece
                } else if *w == key_src {
                    let piece = splice_text(tar.source.as_str());
                    proof {
                        assert(piece.deep_view() == head_spec);
                    }
                    piece
                } else {
                    let piece: Vec<Node> = Vec::new();
                    proof {
                        assert(piece.deep_view() =~= Seq::<NodeV>::empty());
                        assert(piece.deep_view() == head_spec);
                    }
                    piece
                }
            },
            Node::Punct(_) => {
                let piece: Vec<Node> = Vec::new();
                proof {
                    assert(piece.deep_view() =~= Seq::<NodeV>::empty());
                    assert(piece.deep_view() == head_spec);
                }
                piece
            },
        };
        let ghost a = head;
        let mut rest = expand_body_from(body, i + 2, coll, tar);
        let ghost b = rest;
        head.append(&mut rest);
        proof {
            lemma_deep_of_append(a, b, head);
            assert(Seq::<NodeV>::empty() + b.deep_view() =~= b.deep_view());
            assert(head.deep_view() == head_spec + b.deep_view());
            assert(spec_expand_body(s, coll@, tar@) == head_spec + b.deep_view());
        }
        head
    } else {
        match &body[i] {
            Node::Group(d, ch) => {
                proof {
                    assert(decreases_to!(*body => body@[i as int]));
                    assert(decreases_to!(body@[i as int] => *ch));
                }
                let inner = expand_body_from(ch, 0, coll, tar);
                let g = Node::Group(*d, inner);
                let ghost gg = g;
                let mut r: Vec<Node> = Vec::new();
                let ghost pre = r;
                r.push(g);
                let ghost a = r;
                proof {
                    lemma_deep_of_push(pre, a, gg);
                    assert(pre.deep_view() =~= Seq::<NodeV>::empty());
                    assert(a.deep_view() =~= seq![node_view(gg)]);
                    lemma_group_view(*d, gg->Group_1);
                    assert(ch.deep_view().skip(0) =~= ch.deep_view());
                    lemma_nodes_view_is_deep(ch@);
                    lemma_vec_deep_view(*ch);
                }
                let mut rest = expand_body_from(body, i + 1, coll, tar);
                let ghost b = rest;
                r.append(&mut rest);
                proof {
                    assert(s.skip(1) =~= body.deep_view().skip(i + 1));
                    lemma_deep_of_append(a, b, r);
                }
                r
            },
            _ => {
                let mut r: Vec<Node> = Vec::new();
                let ghost pre = r;
                let head = clone_node(&body[i]);
                let ghost headg = head;
                r.push(head);
                let ghost a = r;
                proof {
                    lemma_deep_of_push(pre, a, headg);
                    assert(pre.deep_view() =~= Seq::<NodeV>::empty());
                    assert(a.deep_view() =~= seq![s[0]]);
                }
                let mut rest = expand_body_from(body, i + 1, coll, tar);
                let ghost b = rest;
                r.append(&mut rest);
                proof {
                    assert(s.skip(1) =~= body.deep_view().skip(i + 1));
                    lemma_deep_of_append(a, b, r);
                }
                r
            },
        }
    }
}

fn expand_targets_from(body: &Vec<Node>, coll: &TargetsCollection, ti: usize) -> (r: Vec<Node>)
    requires
        ti <= coll.targets.len(),
    ensures
        r.deep_view() == spec_expand_targets(
            body.deep_view(),
            coll@,
            coll@.targets.skip(ti as int),
        ),
    decreases coll.targets.len() - ti,
{
    let ghost ts = coll@.targets.skip(ti as int);
    if ti == coll.targets.len() {
        let r: Vec<Node> = Vec::new();
        proof {
            assert(ts =~= Seq::<TargetV>::empty());
            assert(r.deep_view() =~= Seq::<NodeV>::empty());
        }
        return r;
    }
    proof {
        assert(ts[0] == coll@.targets[ti as int]);
        assert(ts.drop_first() =~= coll@.targets.skip(ti as int + 1));
        assert(body.deep_view().skip(0) =~= body.deep_view());
    }
    let mut r = expand_body_from(body, 0, coll, &coll.targets[ti]);
    let ghost a = r;
    let mut rest = expand_targets_from(body, coll, ti + 1);
    let ghost b = rest;
    r.append(&mut rest);
    proof {
        lemma_deep_of_append(a, b, r);
    }
    r
}

fn expand_site_from(body: &Vec<Node>, script: &Vec<TargetsCollection>, ci: usize) -> (r: Vec<Node>)
    requires
        ci <= script.len(),
    ensures
        r.deep_view() == spec_expand_site(body.deep_view(), script.deep_view().skip(ci as int)),
    decreases script.len() - ci,
{
    let ghost ss = script.deep_view().skip(ci as int);
    if ci == script.len() {
        let r: Vec<Node> = Vec::new();
        proof {
            assert(ss =~= Seq::<CollV>::empty());
            assert(r.deep_view() =~= Seq::<NodeV>::empty());
        }
        return r;
    }
    proof {
        assert(ss[0] == script.deep_view()[ci as int]);
        assert(ss.drop_first() =~= script.deep_view().skip(ci as int + 1));
        assert(script@[ci as int]@.targets.skip(0) =~= script@[ci as int]@.targets);
    }
    let mut r = expand_targets_from(body, &script[ci], 0);
    let ghost a = r;
    let mut rest = expand_site_from(body, script, ci + 1);
    let ghost b = rest;
    r.append(&mut rest);
    proof {
        lemma_deep_of_append(a, b, r);
    }
    r
}

fn replace_from(t: &Vec<Node>, i: usize, script: &Vec<TargetsCollection>) -> (r: Vec<Node>)
    requires
        i <= t.len(),
    ensures
        r.deep_view() == spec_replace(t.deep_view().skip(i as int), script.deep_view()),
    decreases t, t.len() - i,
{
    let ghost s = t.deep_view().skip(i as int);
    if i == t.len() {
        let r: Vec<Node> = Vec::new();
        proof {
            assert(s =~= Seq::<NodeV>::empty());
            assert(r.deep_view() =~= Seq::<NodeV>::empty());
        }
        return r;
    }
    proof {
        assert(s[0] == t.deep_view()[i as int]);
    }
    let is_dollar = match &t[i] {
        Node::Punct(p) => *p == '$',
        _ => false,
    };
    let marker_body: Option<&Vec<Node>> = if is_dollar && i + 1 < t.len() {
        match &t[i + 1] {
            Node::Group(_, b) => Some(b),
            _ => None,
        }
    } else {
        None
    };
    match marker_body {
        Some(body) => {
            proof {
                assert(s[1] == t.deep_view()[i + 1]);
                lemma_nodes_view_is_deep(body@);
                lemma_vec_deep_view(*body);
                assert(script.deep_view().skip(0) =~= script.deep_view());
            }
            let mut r = expand_site_from(body, script, 0);
            let ghost a = r;
            let mut rest = replace_from(t, i + 2, script);
            let ghost b = rest;
            r.append(&mut rest);
            proof {
                assert(s.skip(2) =~= t.deep_view().skip(i + 2));
                lemma_deep_of_append(a, b, r);
            }
            r
        },
        None => {
            match &t[i] {
                Node::Group(d, ch) => {
                    proof {
                        assert(decreases_to!(*t => t@[i as int]));
                        assert(decreases_to!(t@[i as int] => *ch));
                    }
                    let inner = replace_from(ch, 0, script);
                    let g = Node::Group(*d, inner);
                    let ghost gg = g;
                    let mut r: Vec<Node> = Vec::new();
                    let ghost pre = r;
                    r.push(g);
                    let ghost a = r;
                    proof {
                        lemma_deep_of_push(pre, a, gg);
                        assert(pre.deep_view() =~= Seq::<NodeV>::empty());
                        assert(a.deep_view() =~= seq![node_view(gg)]);
                        lemma_group_view(*d, gg->Group_1);
                        assert(ch.deep_view().skip(0) =~= ch.deep_view());
                        lemma_nodes_view_is_deep(ch@);
                        lemma_vec_deep_view(*ch);
                    }
                    let mut rest = replace_from(t, i + 1, script);
                    let ghost b = rest;
                    r.append(&mut rest);
                    proof {
                        assert(s.skip(1) =~= t.deep_view().skip(i + 1));
                        lemma_deep_of_append(a, b, r);
                    }
                    r
                },
                _ => {
                    let mut r: Vec<Node> = Vec::new();
                    let ghost pre = r;
                    let head = clone_node(&t[i]);
                    let ghost headg = head;
                    r.push(head);
                    let ghost a = r;
                    proof {
                        lemma_deep_of_push(pre, a, headg);
                        assert(pre.deep_view() =~= Seq::<NodeV>::empty());
                        assert(a.deep_view() =~= seq![s[0]]);
                    }
                    let mut rest = replace_from(t, i + 1, script);
                    let ghost b = rest;
                    r.append(&mut rest);
                    proof {
                        assert(s.skip(1) =~= t.deep_view().skip(i + 1));
                        lemma_deep_of_append(a, b, r);
                    }
                    r
                },
            }
        },
    }
}

/// Expands a template tree against the parsed script.
pub fn replace(target: &Vec<Node>, script: &Vec<TargetsCollection>) -> (r: Vec<Node>)
    ensures
        r.deep_view() == spec_replace(target.deep_view(), script.deep_view()),
{
    proof {
        assert(target.deep_view().skip(0) =~= target.deep_view());
    }
    replace_from(target, 0, script)
}

} // verus!
