//! The configuration parser.
//!
//! The input is a flat node sequence of `;`-terminated declarations.  Each
//! declaration optionally carries a `#[...]` attribute tag (kept verbatim),
//! then names a target type out of a fixed table, then lists its targets in
//! a brace group.  A target is a source node, optionally followed by `:` and
//! a comma-separated dependency list; source and dependencies are captured
//! as their serialized text.  Any failure aborts the whole parse; there is
//! no partial-result mode.

use vstd::prelude::*;

use crate::node::{
    clone_node, lemma_deep_of_insert0, lemma_deep_of_push, lemma_deep_of_remove0,
    lemma_nodes_view_is_deep, lemma_vec_deep_view, render_node, render_node_text, render_nodes,
    render_nodes_text, Delim, Node, NodeV,
};

verus! {

/// The closed table of target types.
#[derive(Clone, Copy, PartialEq, Eq, Structural, Debug)]
pub enum TargetType {
    GccAsm,
    GccAsmX86,
    LinkerScript,
    LinkerMap,
}

/// The type a name resolves to, `None` for a name outside the table.
pub open spec fn type_of_name(s: Seq<char>) -> Option<TargetType> {
    if s == "GccAsm"@ {
        Some(TargetType::GccAsm)
    } else if s == "GccAsmX86"@ {
        Some(TargetType::GccAsmX86)
    } else if s == "LinkerScript"@ {
        Some(TargetType::LinkerScript)
    } else if s == "LinkerMap"@ {
        Some(TargetType::LinkerMap)
    } else {
        None
    }
}

/// The bare variant name of a type.
pub open spec fn type_name_of(t: TargetType) -> Seq<char> {
    match t {
        TargetType::GccAsm => "GccAsm"@,
        TargetType::GccAsmX86 => "GccAsmX86"@,
        TargetType::LinkerScript => "LinkerScript"@,
        TargetType::LinkerMap => "LinkerMap"@,
    }
}

/// The `TargetType::Variant` rendering of a type.
pub open spec fn type_text_of(t: TargetType) -> Seq<char> {
    match t {
        TargetType::GccAsm => "TargetType::GccAsm"@,
        TargetType::GccAsmX86 => "TargetType::GccAsmX86"@,
        TargetType::LinkerScript => "TargetType::LinkerScript"@,
        TargetType::LinkerMap => "TargetType::LinkerMap"@,
    }
}

impl TargetType {
    /// Resolves a type name against the fixed lookup table.
    pub fn from_name(name: &str) -> (r: Option<TargetType>)
        ensures
            r == type_of_name(name@),
    {
        let n = name.to_owned();
        if n == String::from_str("GccAsm") {
            Some(TargetType::GccAsm)
        } else if n == String::from_str("GccAsmX86") {
            Some(TargetType::GccAsmX86)
        } else if n == String::from_str("LinkerScript") {
            Some(TargetType::LinkerScript)
        } else if n == String::from_str("LinkerMap") {
            Some(TargetType::LinkerMap)
        } else {
            None
        }
    }

    /// Renders the type as `TargetType::Variant` text.
    pub fn to_text(&self) -> (r: String)
        ensures
            r@ == type_text_of(*self),
    {
        match self {
            TargetType::GccAsm => String::from_str("TargetType::GccAsm"),
            TargetType::GccAsmX86 => String::from_str("TargetType::GccAsmX86"),
            TargetType::LinkerScript => String::from_str("TargetType::LinkerScript"),
            TargetType::LinkerMap => String::from_str("TargetType::LinkerMap"),
        }
    }

    /// Renders the bare variant name.
    pub fn name_text(&self) -> (r: String)
        ensures
            r@ == type_name_of(*self),
    {
        match self {
            TargetType::GccAsm => String::from_str("GccAsm"),
            TargetType::GccAsmX86 => String::from_str("GccAsmX86"),
            TargetType::LinkerScript => String::from_str("LinkerScript"),
            TargetType::LinkerMap => String::from_str("LinkerMap"),
        }
    }
}

/// One declared buildable artifact: a source and its ordered dependency
/// list (duplicates permitted, declaration order preserved).
#[derive(Debug)]
pub struct Target {
    pub source: String,
    pub dependencies: Vec<String>,
}

/// The mathematical shape of a [`Target`].
pub struct TargetV {
    pub source: Seq<char>,
    pub dependencies: Seq<Seq<char>>,
}

impl View for Target {
    type V = TargetV;

    open spec fn view(&self) -> TargetV {
        TargetV { source: self.source@, dependencies: self.dependencies.deep_view() }
    }
}

impl DeepView for Target {
    type V = TargetV;

    open spec fn deep_view(&self) -> TargetV {
        self.view()
    }
}

/// A group of targets sharing one resolved type and an optional attribute
/// tag, kept verbatim (empty when absent).
#[derive(Debug)]
pub struct TargetsCollection {
    pub ttype: TargetType,
    pub targets: Vec<Target>,
    pub code_macro: Vec<Node>,
}

/// The mathematical shape of a [`TargetsCollection`].
pub struct CollV {
    pub ttype: TargetType,
    pub targets: Seq<TargetV>,
    pub code_macro: Seq<NodeV>,
}

impl View for TargetsCollection {
    type V = CollV;

    open spec fn view(&self) -> CollV {
        CollV {
            ttype: self.ttype,
            targets: self.targets.deep_view(),
            code_macro: self.code_macro.deep_view(),
        }
    }
}

impl DeepView for TargetsCollection {
    type V = CollV;

    open spec fn deep_view(&self) -> CollV {
        self.view()
    }
}

/// Why a parse failed.  Every variant is fatal: the whole run aborts.
#[derive(Debug)]
pub enum ParseError {
    /// A type name outside the table, carried for the message.
    UnknownTargetType(String),
    /// The mandated brace body after the named type was missing or had the
    /// wrong delimiter.
    ExpectedBrace(TargetType),
    /// `#` was not followed by a bracket group.
    ExpectedBracket,
    /// The node after a target's source was not a `:` punctuation leaf.
    ExpectedColon,
    /// A declaration ended right after its attribute tag.
    UnexpectedEnd,
}

/// The mathematical shape of a [`ParseError`].
pub enum ParseErrorV {
    UnknownTargetType(Seq<char>),
    ExpectedBrace(TargetType),
    ExpectedBracket,
    ExpectedColon,
    UnexpectedEnd,
}

impl View for ParseError {
    type V = ParseErrorV;

    open spec fn view(&self) -> ParseErrorV {
        match self {
            ParseError::UnknownTargetType(n) => ParseErrorV::UnknownTargetType(n@),
            ParseError::ExpectedBrace(t) => ParseErrorV::ExpectedBrace(*t),
            ParseError::ExpectedBracket => ParseErrorV::ExpectedBracket,
            ParseError::ExpectedColon => ParseErrorV::ExpectedColon,
            ParseError::UnexpectedEnd => ParseErrorV::UnexpectedEnd,
        }
    }
}

/// The diagnostic text of an error.
pub open spec fn message_of(e: ParseErrorV) -> Seq<char> {
    match e {
        ParseErrorV::UnknownTargetType(n) => "Unknown TargetType : "@ + n,
        ParseErrorV::ExpectedBrace(t) => "Brace needed after TargetType "@ + type_name_of(t),
        ParseErrorV::ExpectedBracket => "After # must be a []"@,
        ParseErrorV::ExpectedColon => "Must be a : after a target."@,
        ParseErrorV::UnexpectedEnd => "Section unexpectedly terminated."@,
    }
}

impl ParseError {
    /// The diagnostic text, naming the offending token or construct.
    pub fn message(&self) -> (r: String)
        ensures
            r@ == message_of(self@),
    {
        match self {
            ParseError::UnknownTargetType(n) => {
                let mut m = String::from_str("Unknown TargetType : ");
                m.append(n.as_str());
                m
            },
            ParseError::ExpectedBrace(t) => {
                let mut m = String::from_str("Brace needed after TargetType ");
                let name = t.name_text();
                m.append(name.as_str());
                m
            },
            ParseError::ExpectedBracket => String::from_str("After # must be a []"),
            ParseError::ExpectedColon => String::from_str("Must be a : after a target."),
            ParseError::UnexpectedEnd => String::from_str("Section unexpectedly terminated."),
        }
    }
}

/// Splits a node sequence on top-level `c` punctuation leaves.  Every chunk
/// between two separators is kept (an empty one included); a trailing chunk
/// is kept only when non-empty.
pub open spec fn split_on(ns: Seq<NodeV>, c: char) -> Seq<Seq<NodeV>>
    decreases ns.len(),
{
    if ns.len() == 0 {
        Seq::empty()
    } else if ns[0] == NodeV::Punct(c) {
        seq![Seq::<NodeV>::empty()] + split_on(ns.drop_first(), c)
    } else {
        let rest = split_on(ns.drop_first(), c);
        if rest.len() == 0 {
            seq![seq![ns[0]]]
        } else {
            seq![seq![ns[0]] + rest[0]] + rest.drop_first()
        }
    }
}

fn split_nodes_from(ns: &Vec<Node>, i: usize, c: char) -> (r: Vec<Vec<Node>>)
    requires
        i <= ns.len(),
    ensures
        r.deep_view() == split_on(ns.deep_view().skip(i as int), c),
    decreases ns.len() - i,
{
    let ghost s = ns.deep_view().skip(i as int);
    if i == ns.len() {
        let r: Vec<Vec<Node>> = Vec::new();
        proof {
            assert(s =~= Seq::<NodeV>::empty());
            assert(r.deep_view() =~= Seq::<Seq<NodeV>>::empty());
        }
        r
    } else {
        proof {
            assert(s[0] == ns.deep_view()[i as int]);
            assert(s.drop_first() =~= ns.deep_view().skip(i as int + 1));
        }
        let is_sep = match &ns[i] {
            Node::Punct(p) => *p == c,
            _ => false,
        };
        let mut rest = split_nodes_from(ns, i + 1, c);
        if is_sep {
            let ghost pre = rest;
            let empty_chunk: Vec<Node> = Vec::new();
            rest.insert(0, empty_chunk);
            proof {
                lemma_deep_of_insert0(pre, rest, empty_chunk);
                assert(empty_chunk.deep_view() =~= Seq::<NodeV>::empty());
            }
            rest
        } else {
            proof {
                assert(s[0] != NodeV::Punct(c));
            }
            let x = clone_node(&ns[i]);
            if rest.len() == 0 {
                let mut chunk: Vec<Node> = Vec::new();
                let ghost pre_chunk = chunk;
                let ghost xg = x;
                chunk.push(x);
                let mut r: Vec<Vec<Node>> = Vec::new();
                let ghost pre_r = r;
                let ghost chunkg = chunk;
                r.push(chunk);
                proof {
                    lemma_deep_of_push(pre_chunk, chunkg, xg);
                    assert(chunkg.deep_view() =~= seq![s[0]]);
                    lemma_deep_of_push(pre_r, r, chunkg);
                    assert(r.deep_view() =~= seq![seq![s[0]]]);
                }
                r
            } else {
                let ghost pre_remove = rest;
                let mut first = rest.remove(0);
                let ghost after_remove = rest;
                let ghost pre_first = first;
                let ghost xg = x;
                first.insert(0, x);
                let ghost firstg = first;
                let ghost pre_insert = rest;
                rest.insert(0, first);
                proof {
                    lemma_deep_of_remove0(pre_remove, after_remove);
                    lemma_deep_of_insert0(pre_first, firstg, xg);
                    lemma_deep_of_insert0(pre_insert, rest, firstg);
                    let spec_rest = split_on(s.drop_first(), c);
                    assert(pre_first.deep_view() == spec_rest[0]);
                    assert(firstg.deep_view() =~= seq![s[0]] + spec_rest[0]);
                    assert(rest.deep_view() =~= seq![seq![s[0]] + spec_rest[0]]
                        + spec_rest.drop_first());
                }
                rest
            }
        }
    }
}

/// Each dependency chunk re-serialized to one text.
pub open spec fn dep_texts(chunks: Seq<Seq<NodeV>>) -> Seq<Seq<char>> {
    Seq::new(chunks.len(), |i: int| render_nodes(chunks[i]))
}

/// What one target entry chunk parses to: the first node, serialized, is the
/// source; a second node must be the `:` leaf; the rest splits on top-level
/// commas into dependency texts.  An empty chunk parses to nothing.
pub open spec fn spec_parse_target(chunk: Seq<NodeV>) -> Result<Option<TargetV>, ParseErrorV> {
    if chunk.len() == 0 {
        Ok(None)
    } else if chunk.len() == 1 {
        Ok(Some(TargetV { source: render_node(chunk[0]), dependencies: Seq::empty() }))
    } else if chunk[1] != NodeV::Punct(':') {
        Err(ParseErrorV::ExpectedColon)
    } else {
        Ok(
            Some(
                TargetV {
                    source: render_node(chunk[0]),
                    dependencies: dep_texts(split_on(chunk.skip(2), ',')),
                },
            ),
        )
    }
}

impl Target {
    /// Parses one target entry chunk.
    pub fn from_tokens(chunk: &Vec<Node>) -> (r: Result<Option<Target>, ParseError>)
        ensures
            ({
                let s = spec_parse_target(chunk.deep_view());
                match r {
                    Ok(Some(t)) => s == Ok::<Option<TargetV>, ParseErrorV>(Some(t@)),
                    Ok(None) => s == Ok::<Option<TargetV>, ParseErrorV>(None),
                    Err(e) => s == Err::<Option<TargetV>, ParseErrorV>(e@),
                }
            }),
    {
        let ghost dv = chunk.deep_view();
        if chunk.len() == 0 {
            return Ok(None);
        }
        let source = render_node_text(&chunk[0]);
        if chunk.len() == 1 {
            let t = Target { source, dependencies: Vec::new() };
            proof {
                assert(t@.dependencies =~= Seq::<Seq<char>>::empty());
            }
            return Ok(Some(t));
        }
        let is_colon = match &chunk[1] {
            Node::Punct(p) => *p == ':',
            _ => false,
        };
        if !is_colon {
            return Err(ParseError::ExpectedColon);
        }
        let chunks = split_nodes_from(chunk, 2, ',');
        let mut deps: Vec<String> = Vec::new();
        let mut i: usize = 0;
        proof {
            assert(deps.deep_view() =~= dep_texts(chunks.deep_view()).take(0));
        }
        while i < chunks.len()
            invariant
                i <= chunks.len(),
                deps.deep_view() == dep_texts(chunks.deep_view()).take(i as int),
                chunks.deep_view() == split_on(chunk.deep_view().skip(2), ','),
            decreases chunks.len() - i,
        {
            let piece = render_nodes_text(&chunks[i]);
            let ghost pre = deps;
            let ghost pieceg = piece;
            deps.push(piece);
            proof {
                lemma_deep_of_push(pre, deps, pieceg);
                assert(chunks.deep_view()[i as int] == chunks@[i as int].deep_view());
                assert(deps.deep_view() =~= dep_texts(chunks.deep_view()).take(i + 1));
            }
            i += 1;
        }
        proof {
            assert(dep_texts(chunks.deep_view()).take(chunks.len() as int) =~= dep_texts(
                chunks.deep_view(),
            ));
        }
        Ok(Some(Target { source, dependencies: deps }))
    }
}

/// What a brace body parses to.  Leading and doubled commas drop empty
/// entries; an entry followed by a top-level comma and holding no `:` is a
/// target without dependencies; once an entry's source is followed by `:`,
/// everything to the end of the body is its dependency list.  A second node
/// that is neither `,` nor `:` is fatal.
pub open spec fn spec_parse_targets(ns: Seq<NodeV>) -> Result<Seq<TargetV>, ParseErrorV>
    decreases ns.len(),
{
    if ns.len() == 0 {
        Ok(Seq::empty())
    } else if ns[0] == NodeV::Punct(',') {
        spec_parse_targets(ns.drop_first())
    } else if ns.len() == 1 {
        Ok(seq![TargetV { source: render_node(ns[0]), dependencies: Seq::empty() }])
    } else if ns[1] == NodeV::Punct(',') {
        match spec_parse_targets(ns.skip(2)) {
            Err(e) => Err(e),
            Ok(rest) => Ok(
                seq![TargetV { source: render_node(ns[0]), dependencies: Seq::empty() }] + rest,
            ),
        }
    } else if ns[1] == NodeV::Punct(':') {
        Ok(
            seq![
                TargetV {
                    source: render_node(ns[0]),
                    dependencies: dep_texts(split_on(ns.skip(2), ',')),
                }
            ],
        )
    } else {
        Err(ParseErrorV::ExpectedColon)
    }
}

fn targets_from(input: &Vec<Node>, i: usize) -> (r: Result<Vec<Target>, ParseError>)
    requires
        i <= input.len(),
    ensures
        ({
            let s = spec_parse_targets(input.deep_view().skip(i as int));
            match r {
                Ok(ts) => s == Ok::<Seq<TargetV>, ParseErrorV>(ts.deep_view()),
                Err(e) => s == Err::<Seq<TargetV>, ParseErrorV>(e@),
            }
        }),
    decreases input.len() - i,
{
    let ghost s = input.deep_view().skip(i as int);
    if i == input.len() {
        let r: Vec<Target> = Vec::new();
        proof {
            assert(s =~= Seq::<NodeV>::empty());
            assert(r.deep_view() =~= Seq::<TargetV>::empty());
        }
        return Ok(r);
    }
    proof {
        assert(s[0] == input.deep_view()[i as int]);
    }
    if let Node::Punct(p) = &input[i] {
        if *p == ',' {
            proof {
                assert(s.drop_first() =~= input.deep_view().skip(i as int + 1));
            }
            return targets_from(input, i + 1);
        }
    }
    let source = render_node_text(&input[i]);
    if i + 1 == input.len() {
        let t = Target { source, dependencies: Vec::new() };
        let ghost tg = t;
        let mut r: Vec<Target> = Vec::new();
        let ghost pre = r;
        r.push(t);
        proof {
            lemma_deep_of_push(pre, r, tg);
            assert(s.len() == 1);
            assert(r.deep_view() =~= seq![tg@]);
            assert(tg@.dependencies =~= Seq::<Seq<char>>::empty());
        }
        return Ok(r);
    }
    proof {
        assert(s[1] == input.deep_view()[i + 1]);
    }
    let next_is_comma = match &input[i + 1] {
        Node::Punct(p) => *p == ',',
        _ => false,
    };
    let next_is_colon = match &input[i + 1] {
        Node::Punct(p) => *p == ':',
        _ => false,
    };
    if next_is_comma {
        proof {
            assert(s.skip(2) =~= input.deep_view().skip(i + 2));
        }
        match targets_from(input, i + 2) {
            Err(e) => Err(e),
            Ok(mut rest) => {
                let t = Target { source, dependencies: Vec::new() };
                let ghost tg = t;
                let ghost pre = rest;
                rest.insert(0, t);
                proof {
                    lemma_deep_of_insert0(pre, rest, tg);
                    assert(tg@.dependencies =~= Seq::<Seq<char>>::empty());
                }
                Ok(rest)
            },
        }
    } else if next_is_colon {
        let chunks = split_nodes_from(input, i + 2, ',');
        let mut deps: Vec<String> = Vec::new();
        let mut j: usize = 0;
        proof {
            assert(deps.deep_view() =~= dep_texts(chunks.deep_view()).take(0));
        }
        while j < chunks.len()
            invariant
                j <= chunks.len(),
                deps.deep_view() == dep_texts(chunks.deep_view()).take(j as int),
                chunks.deep_view() == split_on(input.deep_view().skip(i as int + 2), ','),
            decreases chunks.len() - j,
        {
            let piece = render_nodes_text(&chunks[j]);
            let ghost pre = deps;
            let ghost pieceg = piece;
            deps.push(piece);
            proof {
                lemma_deep_of_push(pre, deps, pieceg);
                assert(chunks.deep_view()[j as int] == chunks@[j as int].deep_view());
                assert(deps.deep_view() =~= dep_texts(chunks.deep_view()).take(j + 1));
            }
            j += 1;
        }
        proof {
            assert(dep_texts(chunks.deep_view()).take(chunks.len() as int) =~= dep_texts(
                chunks.deep_view(),
            ));
            assert(s.skip(2) =~= input.deep_view().skip(i + 2));
        }
        let t = Target { source, dependencies: deps };
        let ghost tg = t;
        let mut r: Vec<Target> = Vec::new();
        let ghost pre = r;
        r.push(t);
        proof {
            lemma_deep_of_push(pre, r, tg);
            assert(r.deep_view() =~= seq![tg@]);
        }
        Ok(r)
    } else {
        Err(ParseError::ExpectedColon)
    }
}

/// Parses a brace body into the ordered target list.
pub fn targets_vec_from(input: &Vec<Node>) -> (r: Result<Vec<Target>, ParseError>)
    ensures
        ({
            let s = spec_parse_targets(input.deep_view());
            match r {
                Ok(ts) => s == Ok::<Seq<TargetV>, ParseErrorV>(ts.deep_view()),
                Err(e) => s == Err::<Seq<TargetV>, ParseErrorV>(e@),
            }
        }),
{
    proof {
        assert(input.deep_view().skip(0) =~= input.deep_view());
    }
    targets_from(input, 0)
}

/// What one declaration chunk parses to: an optional verbatim `#[...]` tag,
/// a type name out of the table, then a mandatory brace group holding the
/// target list.  Nodes after the brace group are ignored.  An empty chunk
/// parses to nothing.
pub open spec fn spec_parse_collection(chunk: Seq<NodeV>) -> Result<Option<CollV>, ParseErrorV> {
    if chunk.len() == 0 {
        Ok(None)
    } else {
        let has_attr = chunk[0] == NodeV::Punct('#');
        if has_attr && !(chunk.len() >= 2 && chunk[1] matches NodeV::Group(Delim::Bracket, _)) {
            Err(ParseErrorV::ExpectedBracket)
        } else {
            let at = if has_attr {
                2int
            } else {
                0int
            };
            let code_macro = if has_attr {
                chunk.take(2)
            } else {
                Seq::<NodeV>::empty()
            };
            if at >= chunk.len() {
                Err(ParseErrorV::UnexpectedEnd)
            } else {
                let name = render_node(chunk[at]);
                match type_of_name(name) {
                    None => Err(ParseErrorV::UnknownTargetType(name)),
                    Some(t) => {
                        if at + 1 < chunk.len() && chunk[at + 1] matches NodeV::Group(
                            Delim::Brace,
                            _,
                        ) {
                            match spec_parse_targets(chunk[at + 1]->Group_1) {
                                Err(e) => Err(e),
                                Ok(tars) => Ok(
                                    Some(CollV { ttype: t, targets: tars, code_macro }),
                                ),
                            }
                        } else {
                            Err(ParseErrorV::ExpectedBrace(t))
                        }
                    },
                }
            }
        }
    }
}

impl TargetsCollection {
    /// Parses one declaration chunk.
    pub fn from_tokens(chunk: &Vec<Node>) -> (r: Result<Option<TargetsCollection>, ParseError>)
        ensures
            ({
                let s = spec_parse_collection(chunk.deep_view());
                match r {
                    Ok(Some(cl)) => s == Ok::<Option<CollV>, ParseErrorV>(Some(cl@)),
                    Ok(None) => s == Ok::<Option<CollV>, ParseErrorV>(None),
                    Err(e) => s == Err::<Option<CollV>, ParseErrorV>(e@),
                }
            }),
    {
        let ghost dv = chunk.deep_view();
        if chunk.len() == 0 {
            return Ok(None);
        }
        let has_attr = match &chunk[0] {
            Node::Punct(p) => *p == '#',
            _ => false,
        };
        let mut at: usize = 0;
        let mut code_macro: Vec<Node> = Vec::new();
        if has_attr {
            let tag_ok = if chunk.len() >= 2 {
                match &chunk[1] {
                    Node::Group(d, _) => *d == Delim::Bracket,
                    _ => false,
                }
            } else {
                false
            };
            if !tag_ok {
                return Err(ParseError::ExpectedBracket);
            }
            let ghost pre0 = code_macro;
            let hash = clone_node(&chunk[0]);
            let ghost hashg = hash;
            code_macro.push(hash);
            let ghost pre1 = code_macro;
            let tag = clone_node(&chunk[1]);
            let ghost tagg = tag;
            code_macro.push(tag);
            proof {
                lemma_deep_of_push(pre0, pre1, hashg);
                lemma_deep_of_push(pre1, code_macro, tagg);
                assert(code_macro.deep_view() =~= dv.take(2));
            }
            at = 2;
        } else {
            proof {
                assert(code_macro.deep_view() =~= Seq::<NodeV>::empty());
            }
        }
        if at >= chunk.len() {
            return Err(ParseError::UnexpectedEnd);
        }
        let name = render_node_text(&chunk[at]);
        let t = match TargetType::from_name(name.as_str()) {
            None => {
                return Err(ParseError::UnknownTargetType(name));
            },
            Some(t) => t,
        };
        if at + 1 < chunk.len() {
            match &chunk[at + 1] {
                Node::Group(d, inner) => {
                    if *d == Delim::Brace {
                        proof {
                            lemma_nodes_view_is_deep(inner@);
                            lemma_vec_deep_view(*inner);
                            assert(dv[at + 1]->Group_1 == inner.deep_view());
                        }
                        match targets_vec_from(inner) {
                            Err(e) => Err(e),
                            Ok(tars) => Ok(
                                Some(TargetsCollection { ttype: t, targets: tars, code_macro }),
                            ),
                        }
                    } else {
                        Err(ParseError::ExpectedBrace(t))
                    }
                },
                _ => Err(ParseError::ExpectedBrace(t)),
            }
        } else {
            Err(ParseError::ExpectedBrace(t))
        }
    }
}

/// What a chunk list parses to: each declaration in order, empty ones
/// dropped; the first failure aborts.
pub open spec fn spec_collect_collections(chunks: Seq<Seq<NodeV>>) -> Result<
    Seq<CollV>,
    ParseErrorV,
>
    decreases chunks.len(),
{
    if chunks.len() == 0 {
        Ok(Seq::empty())
    } else {
        match spec_parse_collection(chunks[0]) {
            Err(e) => Err(e),
            Ok(opt) => match spec_collect_collections(chunks.drop_first()) {
                Err(e) => Err(e),
                Ok(rest) => Ok(
                    match opt {
                        Some(cl) => seq![cl] + rest,
                        None => rest,
                    },
                ),
            },
        }
    }
}

/// What a whole configuration parses to: its top-level `;` chunks, each one
/// a declaration, in declaration order.
pub open spec fn spec_parse_script(ns: Seq<NodeV>) -> Result<Seq<CollV>, ParseErrorV> {
    spec_collect_collections(split_on(ns, ';'))
}

fn collect_collections_from(chunks: &Vec<Vec<Node>>, i: usize) -> (r: Result<
    Vec<TargetsCollection>,
    ParseError,
>)
    requires
        i <= chunks.len(),
    ensures
        ({
            let s = spec_collect_collections(chunks.deep_view().skip(i as int));
            match r {
                Ok(cs) => s == Ok::<Seq<CollV>, ParseErrorV>(cs.deep_view()),
                Err(e) => s == Err::<Seq<CollV>, ParseErrorV>(e@),
            }
        }),
    decreases chunks.len() - i,
{
    let ghost s = chunks.deep_view().skip(i as int);
    if i == chunks.len() {
        let r: Vec<TargetsCollection> = Vec::new();
        proof {
            assert(s =~= Seq::<Seq<NodeV>>::empty());
            assert(r.deep_view() =~= Seq::<CollV>::empty());
        }
        return Ok(r);
    }
    proof {
        assert(s[0] == chunks.deep_view()[i as int]);
        assert(s.drop_first() =~= chunks.deep_view().skip(i as int + 1));
    }
    match TargetsCollection::from_tokens(&chunks[i]) {
        Err(e) => Err(e),
        Ok(opt) => match collect_collections_from(chunks, i + 1) {
            Err(e) => Err(e),
            Ok(mut rest) => match opt {
                Some(cl) => {
                    let ghost pre = rest;
                    let ghost clg = cl;
                    rest.insert(0, cl);
                    proof {
                        lemma_deep_of_insert0(pre, rest, clg);
                    }
                    Ok(rest)
                },
                None => Ok(rest),
            },
        },
    }
}

/// Parses the whole configuration into the ordered script.
pub fn from_input(input: &Vec<Node>) -> (r: Result<Vec<TargetsCollection>, ParseError>)
    ensures
        ({
            let s = spec_parse_script(input.deep_view());
            match r {
                Ok(cs) => s == Ok::<Seq<CollV>, ParseErrorV>(cs.deep_view()),
                Err(e) => s == Err::<Seq<CollV>, ParseErrorV>(e@),
            }
        }),
{
    let chunks = split_nodes_from(input, 0, ';');
    proof {
        assert(input.deep_view().skip(0) =~= input.deep_view());
        assert(chunks.deep_view().skip(0) =~= chunks.deep_view());
    }
    collect_collections_from(&chunks, 0)
}

} // verus!
