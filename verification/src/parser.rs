//! The corpus of a scan: where namespaces are defined and where they are used.

use crate::namespace::{join, join_with, texts};
use vstd::prelude::*;
use vstd::string::*;

verus! {

/// A place where a namespace is introduced. Reopening a namespace gives
/// several definitions with one namespace.
#[derive(Debug, PartialEq, Eq)]
pub struct Definition {
    pub namespace: String,
    pub file: String,
    pub line: usize,
    pub lines: usize,
}

/// What a `Definition` holds.
pub struct DefinitionView {
    pub namespace: Seq<char>,
    pub file: Seq<char>,
    pub line: usize,
    pub lines: usize,
}

impl View for Definition {
    type V = DefinitionView;

    open spec fn view(&self) -> DefinitionView {
        DefinitionView {
            namespace: self.namespace@,
            file: self.file@,
            line: self.line,
            lines: self.lines,
        }
    }
}

/// A use of a namespace: the token as it is written at the use site, and the
/// scope that encloses the use.
#[derive(Debug, PartialEq, Eq)]
pub struct Relation {
    pub namespace: String,
    pub file: String,
    pub line: usize,
    pub caller_namespace: String,
}

/// What a `Relation` holds.
pub struct RelationView {
    pub namespace: Seq<char>,
    pub file: Seq<char>,
    pub line: usize,
    pub caller_namespace: Seq<char>,
}

impl View for Relation {
    type V = RelationView;

    open spec fn view(&self) -> RelationView {
        RelationView {
            namespace: self.namespace@,
            file: self.file@,
            line: self.line,
            caller_namespace: self.caller_namespace@,
        }
    }
}

impl Clone for Relation {
    fn clone(&self) -> (copy: Self)
        ensures
            copy@ == self@,
    {
        Relation {
            namespace: self.namespace.clone(),
            file: self.file.clone(),
            line: self.line,
            caller_namespace: self.caller_namespace.clone(),
        }
    }
}

/// The definitions and relations found in one file, each in the order of the
/// walk.
#[derive(Debug, PartialEq, Eq)]
pub struct RubyFile {
    pub definitions: Vec<Definition>,
    pub relations: Vec<Relation>,
}

/// What a `RubyFile` holds.
pub struct RubyFileView {
    pub definitions: Seq<DefinitionView>,
    pub relations: Seq<RelationView>,
}

/// The contents of a sequence of definitions.
pub open spec fn definition_views(defs: Seq<Definition>) -> Seq<DefinitionView> {
    defs.map_values(|d: Definition| d@)
}

/// The contents of a sequence of relations.
pub open spec fn relation_views(rels: Seq<Relation>) -> Seq<RelationView> {
    rels.map_values(|r: Relation| r@)
}

impl View for RubyFile {
    type V = RubyFileView;

    open spec fn view(&self) -> RubyFileView {
        RubyFileView {
            definitions: definition_views(self.definitions@),
            relations: relation_views(self.relations@),
        }
    }
}

/// A syntax tree, as far as the walk reads it. Positions are offsets into the
/// file; `line` counts lines from zero.
#[derive(Debug)]
#[allow(inconsistent_fields)]
pub enum SyntaxNode {
    /// A module: its name node, the begin of its keyword, the end of its
    /// closing keyword, and its body.
    Module { name: Box<SyntaxNode>, keyword_begin: usize, end_end: usize, body: Option<Box<SyntaxNode>> },
    /// A class: as a module, with the superclass expression.
    Class {
        name: Box<SyntaxNode>,
        keyword_begin: usize,
        end_end: usize,
        superclass: Option<Box<SyntaxNode>>,
        body: Option<Box<SyntaxNode>>,
    },
    /// An assignment to a constant: the qualifier written before the name,
    /// the name, and where the name begins and how long it is.
    Casgn { scope: Option<Box<SyntaxNode>>, name: String, name_begin: usize, name_size: usize },
    /// A use of a constant: the qualifier written before the name, the name,
    /// and the line of the use, where one could be found.
    Const { scope: Option<Box<SyntaxNode>>, name: String, line: Option<usize> },
    /// Any other node, with its children in source order.
    Other { children: Vec<SyntaxNode> },
}

/// Why a walk was given up. There is no result for a file whose walk fails.
#[derive(Debug, Clone, Copy, PartialEq, Eq, Structural)]
pub enum ExtractError {
    /// The name of a module or class is not a constant.
    NotAConst,
    /// A reference has no line.
    NoLine,
    /// The line of a reference cannot be counted from one.
    LineTooLarge,
}

/// The name that a name node gives: that of a constant, without its
/// qualifiers.
pub open spec fn simple_name(node: SyntaxNode) -> Option<Seq<char>> {
    match node {
        SyntaxNode::Const { name, .. } => Some(name@),
        _ => None,
    }
}

/// The names of the qualifiers of a constant, from the one next to the name
/// outwards, as far as they are constants themselves.
pub open spec fn qualifiers(scope: Option<Box<SyntaxNode>>) -> Seq<Seq<char>>
    decreases scope,
{
    match scope {
        Some(inner) => match *inner {
            SyntaxNode::Const { scope: outer, name, .. } => seq![name@] + qualifiers(outer),
            _ => Seq::empty(),
        },
        None => Seq::empty(),
    }
}

/// What a walk has found, and the failure that ended it, if one did.
pub struct Walk {
    pub definitions: Seq<DefinitionView>,
    pub relations: Seq<RelationView>,
    pub error: Option<ExtractError>,
}

impl Walk {
    /// A walk that found nothing.
    pub open spec fn nothing() -> Walk {
        Walk { definitions: Seq::empty(), relations: Seq::empty(), error: None }
    }

    /// A walk that failed at once.
    pub open spec fn failed(e: ExtractError) -> Walk {
        Walk { definitions: Seq::empty(), relations: Seq::empty(), error: Some(e) }
    }

    /// A walk that found one definition.
    pub open spec fn definition(d: DefinitionView) -> Walk {
        Walk { definitions: seq![d], relations: Seq::empty(), error: None }
    }

    /// A walk that found one relation.
    pub open spec fn relation(r: RelationView) -> Walk {
        Walk { definitions: Seq::empty(), relations: seq![r], error: None }
    }

    /// This walk, and `next` after it unless this one failed.
    pub open spec fn followed_by(self, next: Walk) -> Walk {
        if self.error.is_some() {
            self
        } else {
            Walk {
                definitions: self.definitions + next.definitions,
                relations: self.relations + next.relations,
                error: next.error,
            }
        }
    }
}

/// The token of a reference as it is written: its qualifiers from the
/// outermost to the innermost, then its name.
pub open spec fn reference_token(scope: Option<Box<SyntaxNode>>, name: Seq<char>) -> Seq<char> {
    join(qualifiers(scope).reverse().push(name))
}

/// The namespace that an assignment defines: the enclosing chain, the
/// qualifiers of the target in the order in which they are met from the name
/// outwards, then the name.
pub open spec fn assigned_namespace(
    parents: Seq<Seq<char>>,
    scope: Option<Box<SyntaxNode>>,
    name: Seq<char>,
) -> Seq<char> {
    join((parents + qualifiers(scope)).push(name))
}

/// What the use of a constant yields: nothing for a built-in name, else one
/// relation whose caller is the enclosing chain and whose line counts from
/// one.
pub open spec fn walk_const(
    scope: Option<Box<SyntaxNode>>,
    name: Seq<char>,
    line: Option<usize>,
    parents: Seq<Seq<char>>,
    file: Seq<char>,
    builtins: Seq<Seq<char>>,
) -> Walk {
    let token = reference_token(scope, name);
    if builtins.contains(token) {
        Walk::nothing()
    } else {
        match line {
            None => Walk::failed(ExtractError::NoLine),
            Some(l) => if l == usize::MAX {
                Walk::failed(ExtractError::LineTooLarge)
            } else {
                Walk::relation(
                    RelationView {
                        namespace: token,
                        file,
                        line: (l + 1) as usize,
                        caller_namespace: join(parents),
                    },
                )
            },
        }
    }
}

/// The walk of one tree, in pre-order, below the enclosing chain `parents`.
///
/// A module or class defines the chain with its own name added, and its body
/// is walked below that longer chain; a class has its superclass walked
/// there too, before the body. An assignment defines a namespace and the use
/// of a constant refers to one; neither is walked into. Every other node has
/// its children walked in order.
pub open spec fn walk(
    node: SyntaxNode,
    parents: Seq<Seq<char>>,
    file: Seq<char>,
    builtins: Seq<Seq<char>>,
) -> Walk
    decreases node, 0nat,
{
    match node {
        SyntaxNode::Module { name, keyword_begin, end_end, body } => match simple_name(*name) {
            None => Walk::failed(ExtractError::NotAConst),
            Some(own) => Walk::definition(
                DefinitionView {
                    namespace: join(parents.push(own)),
                    file,
                    line: keyword_begin,
                    lines: end_end,
                },
            ).followed_by(
                match body {
                    Some(inner) => walk(*inner, parents.push(own), file, builtins),
                    None => Walk::nothing(),
                },
            ),
        },
        SyntaxNode::Class { name, keyword_begin, end_end, superclass, body } => match simple_name(
            *name,
        ) {
            None => Walk::failed(ExtractError::NotAConst),
            Some(own) => Walk::definition(
                DefinitionView {
                    namespace: join(parents.push(own)),
                    file,
                    line: keyword_begin,
                    lines: end_end,
                },
            ).followed_by(
                match superclass {
                    Some(inner) => walk(*inner, parents.push(own), file, builtins),
                    None => Walk::nothing(),
                },
            ).followed_by(
                match body {
                    Some(inner) => walk(*inner, parents.push(own), file, builtins),
                    None => Walk::nothing(),
                },
            ),
        },
        SyntaxNode::Casgn { scope, name, name_begin, name_size } => Walk::definition(
            DefinitionView {
                namespace: assigned_namespace(parents, scope, name@),
                file,
                line: name_begin,
                lines: name_size,
            },
        ),
        SyntaxNode::Const { scope, name, line } => walk_const(
            scope,
            name@,
            line,
            parents,
            file,
            builtins,
        ),
        SyntaxNode::Other { children } => walk_all(children, 0, parents, file, builtins),
    }
}

/// The walk of the children from the one at `from` on, each after the other.
pub open spec fn walk_all(
    children: Vec<SyntaxNode>,
    from: nat,
    parents: Seq<Seq<char>>,
    file: Seq<char>,
    builtins: Seq<Seq<char>>,
) -> Walk
    decreases children, children.len() - from,
{
    if from >= children.len() {
        Walk::nothing()
    } else {
        walk(children[from as int], parents, file, builtins).followed_by(
            walk_all(children, from + 1, parents, file, builtins),
        )
    }
}

/// Whether `token` is one of the built-in names.
pub fn is_builtin(builtins: &Vec<String>, token: &String) -> (found: bool)
    ensures
        found == texts(builtins@).contains(token@),
{
    let mut i: usize = 0;
    while i < builtins.len()
        invariant
            i <= builtins.len(),
            forall|j: int| 0 <= j < i ==> texts(builtins@)[j] != token@,
        decreases builtins.len() - i,
    {
        if builtins[i] == *token {
            assert(texts(builtins@)[i as int] == token@);
            return true;
        }
        i = i + 1;
    }
    false
}

/// Adds to `names` the qualifiers of a constant, from the one next to the
/// name outwards.
pub fn collect_qualifiers(scope: &Option<Box<SyntaxNode>>, names: &mut Vec<String>)
    ensures
        texts(final(names)@) == texts(old(names)@) + qualifiers(*scope),
    decreases *scope,
{
    match scope {
        Some(inner) => match &**inner {
            SyntaxNode::Const { scope: outer, name, .. } => {
                let ghost before = texts(names@);
                names.push(name.clone());
                assert(texts(names@) =~= before + seq![name@]);
                collect_qualifiers(outer, names);
                assert(texts(names@) =~= before + qualifiers(*scope));
            },
            _ => {
                assert(texts(names@) =~= texts(names@) + qualifiers(*scope));
            },
        },
        None => {
            assert(texts(names@) =~= texts(names@) + qualifiers(*scope));
        },
    }
}

/// The strings of `names` from the last to the first.
pub fn reversed(names: &Vec<String>) -> (back: Vec<String>)
    ensures
        texts(back@) == texts(names@).reverse(),
{
    let mut back: Vec<String> = Vec::new();
    let n: usize = names.len();
    let mut i: usize = 0;
    while i < n
        invariant
            i <= n,
            n == names.len(),
            texts(back@) == texts(names@).reverse().take(i as int),
        decreases n - i,
    {
        let ghost before = texts(back@);
        back.push(names[n - 1 - i].clone());
        assert(texts(back@) =~= before.push(names@[n - 1 - i]@));
        assert(texts(names@).reverse().take(i + 1) =~= before.push(names@[n - 1 - i]@));
        i = i + 1;
    }
    assert(texts(names@).reverse().take(n as int) =~= texts(names@).reverse());
    back
}

/// The token of a reference as it is written at the use site.
pub fn written_token(scope: &Option<Box<SyntaxNode>>, name: &String) -> (token: String)
    ensures
        token@ == reference_token(*scope, name@),
{
    let mut names: Vec<String> = Vec::new();
    collect_qualifiers(scope, &mut names);
    assert(texts(names@) =~= qualifiers(*scope));
    let back = reversed(&names);
    assert(texts(back@).take(back.len() as int) =~= texts(back@));
    join_with(&back, back.len(), name.as_str())
}

/// The namespace that an assignment defines below the chain `parents`.
pub fn assignment_target(
    parents: &Vec<String>,
    scope: &Option<Box<SyntaxNode>>,
    name: &String,
) -> (namespace: String)
    ensures
        namespace@ == assigned_namespace(texts(parents@), *scope, name@),
{
    let mut chain: Vec<String> = Vec::new();
    let mut i: usize = 0;
    while i < parents.len()
        invariant
            i <= parents.len(),
            texts(chain@) == texts(parents@).take(i as int),
        decreases parents.len() - i,
    {
        let ghost before = texts(chain@);
        chain.push(parents[i].clone());
        assert(texts(chain@) =~= before.push(parents@[i as int]@));
        assert(texts(parents@).take(i + 1) =~= before.push(parents@[i as int]@));
        i = i + 1;
    }
    assert(texts(parents@).take(parents.len() as int) =~= texts(parents@));
    collect_qualifiers(scope, &mut chain);
    assert(texts(chain@).take(chain.len() as int) =~= texts(chain@));
    join_with(&chain, chain.len(), name.as_str())
}

/// The chain written out as one namespace; the empty chain gives the empty
/// namespace.
pub fn join_all(parts: &Vec<String>) -> (joined: String)
    ensures
        joined@ == join(texts(parts@)),
{
    let n: usize = parts.len();
    if n == 0 {
        String::new()
    } else {
        assert(texts(parts@).take(n - 1).push(parts@[n - 1]@) =~= texts(parts@));
        join_with(parts, n - 1, parts[n - 1].as_str())
    }
}

/// The name that a name node gives, if the node is a constant.
pub fn extract_name(name: &SyntaxNode) -> (res: Result<String, ExtractError>)
    ensures
        match res {
            Ok(own) => simple_name(*name) == Some(own@),
            Err(e) => e == ExtractError::NotAConst && simple_name(*name).is_none(),
        },
{
    match name {
        SyntaxNode::Const { name: own, .. } => Ok(own.clone()),
        _ => Err(ExtractError::NotAConst),
    }
}

/// The namespace of what is named `own` below the chain `parents`.
pub fn namespace(parents: &Vec<String>, own: &String) -> (full: String)
    ensures
        full@ == join(texts(parents@).push(own@)),
{
    assert(texts(parents@).take(parents.len() as int) =~= texts(parents@));
    join_with(parents, parents.len(), own.as_str())
}

/// Walks one tree below the chain `parents` and adds what it finds to `out`.
/// On success the chain is as it was. On failure nothing is promised of
/// `out`: the caller gives the file up.
pub fn visit(
    node: &SyntaxNode,
    parents: &mut Vec<String>,
    file: &str,
    builtins: &Vec<String>,
    out: &mut RubyFile,
) -> (res: Result<(), ExtractError>)
    ensures
        match res {
            Ok(()) => {
                let found = walk(*node, texts(old(parents)@), file@, texts(builtins@));
                &&& found.error.is_none()
                &&& final(parents)@ == old(parents)@
                &&& final(out)@.definitions == old(out)@.definitions + found.definitions
                &&& final(out)@.relations == old(out)@.relations + found.relations
            },
            Err(e) => walk(*node, texts(old(parents)@), file@, texts(builtins@)).error == Some(e),
        },
    decreases *node,
{
    let ghost chain = texts(parents@);
    let ghost defs0 = out@.definitions;
    let ghost rels0 = out@.relations;
    match node {
        SyntaxNode::Module { name, keyword_begin, end_end, body } => {
            let own = match extract_name(name) {
                Ok(own) => own,
                Err(e) => {
                    return Err(e);
                },
            };
            let namespace = namespace(parents, &own);
            out.definitions.push(
                Definition {
                    namespace,
                    file: String::from_str(file),
                    line: *keyword_begin,
                    lines: *end_end,
                },
            );
            let ghost first = Walk::definition(
                DefinitionView {
                    namespace: join(chain.push(own@)),
                    file: file@,
                    line: *keyword_begin,
                    lines: *end_end,
                },
            );
            assert(out@.definitions =~= defs0 + first.definitions);
            assert(out@.relations =~= rels0 + first.relations);
            let ghost outer = parents@;
            parents.push(own);
            assert(texts(parents@) =~= chain.push(own@));
            if let Some(inner) = body {
                let ghost defs1 = out@.definitions;
                let ghost rels1 = out@.relations;
                match visit(inner, parents, file, builtins, out) {
                    Err(e) => {
                        return Err(e);
                    },
                    Ok(()) => {
                        let ghost rest = walk(**inner, chain.push(own@), file@, texts(builtins@));
                        assert(out@.definitions =~= defs0 + first.followed_by(rest).definitions);
                        assert(out@.relations =~= rels0 + first.followed_by(rest).relations);
                    },
                }
            } else {
                assert(out@.definitions =~= defs0 + first.followed_by(Walk::nothing()).definitions);
                assert(out@.relations =~= rels0 + first.followed_by(Walk::nothing()).relations);
            }
            parents.pop();
            assert(parents@ =~= outer);
            Ok(())
        },
        SyntaxNode::Class { name, keyword_begin, end_end, superclass, body } => {
            let own = match extract_name(name) {
                Ok(own) => own,
                Err(e) => {
                    return Err(e);
                },
            };
            let namespace = namespace(parents, &own);
            out.definitions.push(
                Definition {
                    namespace,
                    file: String::from_str(file),
                    line: *keyword_begin,
                    lines: *end_end,
                },
            );
            let ghost first = Walk::definition(
                DefinitionView {
                    namespace: join(chain.push(own@)),
                    file: file@,
                    line: *keyword_begin,
                    lines: *end_end,
                },
            );
            assert(out@.definitions =~= defs0 + first.definitions);
            assert(out@.relations =~= rels0 + first.relations);
            let ghost outer = parents@;
            parents.push(own);
            assert(texts(parents@) =~= chain.push(own@));
            let ghost above = match superclass {
                Some(inner) => walk(**inner, chain.push(own@), file@, texts(builtins@)),
                None => Walk::nothing(),
            };
            if let Some(inner) = superclass {
                match visit(inner, parents, file, builtins, out) {
                    Err(e) => {
                        return Err(e);
                    },
                    Ok(()) => {},
                }
            }
            let ghost second = first.followed_by(above);
            assert(out@.definitions =~= defs0 + second.definitions);
            assert(out@.relations =~= rels0 + second.relations);
            let ghost below = match body {
                Some(inner) => walk(**inner, chain.push(own@), file@, texts(builtins@)),
                None => Walk::nothing(),
            };
            if let Some(inner) = body {
                match visit(inner, parents, file, builtins, out) {
                    Err(e) => {
                        return Err(e);
                    },
                    Ok(()) => {},
                }
            }
            assert(out@.definitions =~= defs0 + second.followed_by(below).definitions);
            assert(out@.relations =~= rels0 + second.followed_by(below).relations);
            parents.pop();
            assert(parents@ =~= outer);
            Ok(())
        },
        SyntaxNode::Casgn { scope, name, name_begin, name_size } => {
            let namespace = assignment_target(parents, scope, name);
            out.definitions.push(
                Definition {
                    namespace,
                    file: String::from_str(file),
                    line: *name_begin,
                    lines: *name_size,
                },
            );
            let ghost found = walk(*node, chain, file@, texts(builtins@));
            assert(out@.definitions =~= defs0 + found.definitions);
            assert(out@.relations =~= rels0 + found.relations);
            Ok(())
        },
        SyntaxNode::Const { scope, name, line } => {
            let token = written_token(scope, name);
            let ghost found = walk(*node, chain, file@, texts(builtins@));
            if is_builtin(builtins, &token) {
                assert(out@.definitions =~= defs0 + found.definitions);
                assert(out@.relations =~= rels0 + found.relations);
                return Ok(());
            }
            let line0: usize = match line {
                None => {
                    return Err(ExtractError::NoLine);
                },
                Some(l) => *l,
            };
            if line0 == usize::MAX {
                return Err(ExtractError::LineTooLarge);
            }
            let caller_namespace = join_all(parents);
            out.relations.push(
                Relation {
                    namespace: token,
                    file: String::from_str(file),
                    line: line0 + 1,
                    caller_namespace,
                },
            );
            assert(out@.definitions =~= defs0 + found.definitions);
            assert(out@.relations =~= rels0 + found.relations);
            Ok(())
        },
        SyntaxNode::Other { children } => {
            let ghost mut done = Walk::nothing();
            let ghost whole = walk_all(*children, 0, chain, file@, texts(builtins@));
            let ghost outer = parents@;
            let mut i: usize = 0;
            assert(out@.definitions =~= defs0 + done.definitions);
            assert(out@.relations =~= rels0 + done.relations);
            while i < children.len()
                invariant
                    i <= children.len(),
                    *node == (SyntaxNode::Other { children: *children }),
                    parents@ == outer,
                    chain == texts(outer),
                    chain == texts(old(parents)@),
                    done.error.is_none(),
                    out@.definitions == defs0 + done.definitions,
                    out@.relations == rels0 + done.relations,
                    whole == walk_all(*children, 0, chain, file@, texts(builtins@)),
                    whole == done.followed_by(
                        walk_all(*children, i as nat, chain, file@, texts(builtins@)),
                    ),
                decreases children.len() - i,
            {
                let ghost here = walk(children[i as int], chain, file@, texts(builtins@));
                let ghost rest = walk_all(*children, (i + 1) as nat, chain, file@, texts(builtins@));
                assert(walk_all(*children, i as nat, chain, file@, texts(builtins@))
                    == here.followed_by(rest));
                match visit(&children[i], parents, file, builtins, out) {
                    Err(e) => {
                        return Err(e);
                    },
                    Ok(()) => {},
                }
                proof {
                    let next = done.followed_by(here);
                    assert(out@.definitions =~= defs0 + next.definitions);
                    assert(out@.relations =~= rels0 + next.relations);
                    assert(next.followed_by(rest).definitions =~= whole.definitions);
                    assert(next.followed_by(rest).relations =~= whole.relations);
                    done = next;
                }
                i = i + 1;
            }
            assert(whole.definitions =~= done.definitions);
            assert(whole.relations =~= done.relations);
            Ok(())
        },
    }
}

/// Extracts the definitions and relations of one file from its syntax tree.
/// A file without a tree has none. `builtins` are the names of the host
/// language, which are never references.
pub fn ruby_file(path: &str, tree: &Option<SyntaxNode>, builtins: &Vec<String>) -> (res: Result<
    RubyFile,
    ExtractError,
>)
    ensures
        match *tree {
            None => res matches Ok(found) && found@.definitions.len() == 0
                && found@.relations.len() == 0,
            Some(root) => {
                let found = walk(root, Seq::empty(), path@, texts(builtins@));
                match res {
                    Ok(file) => found.error.is_none() && file@.definitions == found.definitions
                        && file@.relations == found.relations,
                    Err(e) => found.error == Some(e),
                }
            },
        },
{
    let mut out = RubyFile { definitions: Vec::new(), relations: Vec::new() };
    match tree {
        None => Ok(out),
        Some(root) => {
            let mut parents: Vec<String> = Vec::new();
            assert(texts(parents@) =~= Seq::empty());
            let ghost found = walk(*root, Seq::empty(), path@, texts(builtins@));
            match visit(root, &mut parents, path, builtins, &mut out) {
                Err(e) => Err(e),
                Ok(()) => {
                    assert(out@.definitions =~= found.definitions);
                    assert(out@.relations =~= found.relations);
                    Ok(out)
                },
            }
        },
    }
}

/// `node` opens a chain of modules and classes, each the whole body of the
/// one before, that have the names `names` from the outermost inwards. A
/// class of the chain has no superclass expression.
pub open spec fn is_nest(node: SyntaxNode, names: Seq<Seq<char>>) -> bool
    decreases names.len(),
{
    &&& names.len() >= 1
    &&& match node {
        SyntaxNode::Module { name, body, .. } => {
            &&& simple_name(*name) == Some(names[0])
            &&& names.len() > 1 ==> (body matches Some(inner) && is_nest(*inner, names.drop_first()))
        },
        SyntaxNode::Class { name, superclass, body, .. } => {
            &&& simple_name(*name) == Some(names[0])
            &&& superclass.is_none()
            &&& names.len() > 1 ==> (body matches Some(inner) && is_nest(*inner, names.drop_first()))
        },
        _ => false,
    }
}

/// The namespace of a nested definition is the chain of the names that
/// enclose it, in the order in which they were opened, with its own name at
/// the end: the walk of a chain of modules and classes defines, at depth `i`,
/// the enclosing chain followed by the first `i + 1` names.
pub proof fn lemma_nested_namespace(
    node: SyntaxNode,
    names: Seq<Seq<char>>,
    parents: Seq<Seq<char>>,
    file: Seq<char>,
    builtins: Seq<Seq<char>>,
)
    requires
        is_nest(node, names),
    ensures
        walk(node, parents, file, builtins).definitions.len() >= names.len(),
        forall|i: int|
            0 <= i < names.len() ==> (#[trigger] walk(
                node,
                parents,
                file,
                builtins,
            ).definitions[i]).namespace == join(parents + names.take(i + 1)),
    decreases names.len(),
{
    let found = walk(node, parents, file, builtins);
    let below = parents.push(names[0]);
    assert(parents + names.take(1) =~= below);
    let body = match node {
        SyntaxNode::Module { body, .. } => body,
        SyntaxNode::Class { body, .. } => body,
        _ => None,
    };
    let rest = match body {
        Some(inner) => walk(*inner, below, file, builtins),
        None => Walk::nothing(),
    };
    assert(found.definitions.len() == 1 + rest.definitions.len());
    assert(found.definitions[0].namespace == join(below));
    if names.len() > 1 {
        let inner = body->0;
        lemma_nested_namespace(*inner, names.drop_first(), below, file, builtins);
        assert forall|i: int| 1 <= i < names.len() implies (#[trigger] found.definitions[i]).namespace
            == join(parents + names.take(i + 1)) by {
            assert(found.definitions[i] == rest.definitions[i - 1]);
            assert(below + names.drop_first().take(i - 1 + 1) =~= parents + names.take(i + 1));
        }
    }
}

/// Where a path leads in a tree that is walked below `parents`: the node at
/// its end, and the chain below which the walk meets that node. A step into a
/// module is 0, for its body; into a class 0, for its superclass, or 1, for
/// its body; into any other node the place of a child. Each module or class
/// that is entered adds its name to the chain.
pub open spec fn descend(node: SyntaxNode, parents: Seq<Seq<char>>, path: Seq<nat>) -> Option<
    (SyntaxNode, Seq<Seq<char>>),
>
    decreases path.len(),
{
    if path.len() == 0 {
        Some((node, parents))
    } else {
        match node {
            SyntaxNode::Module { name, body, .. } => match (simple_name(*name), body) {
                (Some(own), Some(inner)) => if path[0] == 0 {
                    descend(*inner, parents.push(own), path.drop_first())
                } else {
                    None
                },
                _ => None,
            },
            SyntaxNode::Class { name, superclass, body, .. } => match simple_name(*name) {
                Some(own) => if path[0] == 0 {
                    match superclass {
                        Some(inner) => descend(*inner, parents.push(own), path.drop_first()),
                        None => None,
                    }
                } else if path[0] == 1 {
                    match body {
                        Some(inner) => descend(*inner, parents.push(own), path.drop_first()),
                        None => None,
                    }
                } else {
                    None
                },
                None => None,
            },
            SyntaxNode::Other { children } => if path[0] < children.len() {
                descend(children[path[0] as int], parents, path.drop_first())
            } else {
                None
            },
            _ => None,
        }
    }
}

/// A walk of children that does not fail holds the walk of each child: the
/// child's walk does not fail either, and what it defines is defined.
pub proof fn lemma_walk_all_holds(
    children: Vec<SyntaxNode>,
    from: nat,
    at: nat,
    parents: Seq<Seq<char>>,
    file: Seq<char>,
    builtins: Seq<Seq<char>>,
    d: DefinitionView,
)
    requires
        from <= at < children.len(),
        walk_all(children, from, parents, file, builtins).error.is_none(),
    ensures
        walk(children[at as int], parents, file, builtins).error.is_none(),
        walk(children[at as int], parents, file, builtins).definitions.contains(d) ==> walk_all(
            children,
            from,
            parents,
            file,
            builtins,
        ).definitions.contains(d),
    decreases at - from,
{
    let here = walk(children[from as int], parents, file, builtins);
    let rest = walk_all(children, from + 1, parents, file, builtins);
    let whole = walk_all(children, from, parents, file, builtins);
    assert(whole == here.followed_by(rest));
    if from == at {
        if here.definitions.contains(d) {
            let i = choose|i: int| 0 <= i < here.definitions.len() && here.definitions[i] == d;
            assert(whole.definitions[i] == d);
        }
    } else {
        lemma_walk_all_holds(children, from + 1, at, parents, file, builtins, d);
        if rest.definitions.contains(d) {
            let i = choose|i: int| 0 <= i < rest.definitions.len() && rest.definitions[i] == d;
            assert(whole.definitions[here.definitions.len() + i] == d);
        }
    }
}

/// A walk that does not fail holds the walk of every node that a path leads
/// to, below the chain that the path gives: that walk does not fail either,
/// and what it defines is defined.
pub proof fn lemma_walk_holds(
    node: SyntaxNode,
    parents: Seq<Seq<char>>,
    path: Seq<nat>,
    file: Seq<char>,
    builtins: Seq<Seq<char>>,
    d: DefinitionView,
)
    requires
        descend(node, parents, path).is_some(),
        walk(node, parents, file, builtins).error.is_none(),
    ensures
        ({
            let (target, chain) = descend(node, parents, path)->0;
            &&& walk(target, chain, file, builtins).error.is_none()
            &&& walk(target, chain, file, builtins).definitions.contains(d) ==> walk(
                node,
                parents,
                file,
                builtins,
            ).definitions.contains(d)
        }),
    decreases path.len(),
{
    let whole = walk(node, parents, file, builtins);
    let (target, chain) = descend(node, parents, path)->0;
    let found = walk(target, chain, file, builtins);
    if path.len() > 0 {
        match node {
            SyntaxNode::Module { name, keyword_begin, end_end, body } => {
                let own = simple_name(*name)->0;
                let inner = body->0;
                let below = walk(*inner, parents.push(own), file, builtins);
                lemma_walk_holds(*inner, parents.push(own), path.drop_first(), file, builtins, d);
                if below.definitions.contains(d) {
                    let i = choose|i: int|
                        0 <= i < below.definitions.len() && below.definitions[i] == d;
                    assert(whole.definitions[1 + i] == d);
                }
            },
            SyntaxNode::Class { name, keyword_begin, end_end, superclass, body } => {
                let own = simple_name(*name)->0;
                let above = match superclass {
                    Some(inner) => walk(*inner, parents.push(own), file, builtins),
                    None => Walk::nothing(),
                };
                let below = match body {
                    Some(inner) => walk(*inner, parents.push(own), file, builtins),
                    None => Walk::nothing(),
                };
                if path[0] == 0 {
                    let inner = superclass->0;
                    lemma_walk_holds(
                        *inner,
                        parents.push(own),
                        path.drop_first(),
                        file,
                        builtins,
                        d,
                    );
                    if above.definitions.contains(d) {
                        let i = choose|i: int|
                            0 <= i < above.definitions.len() && above.definitions[i] == d;
                        assert(whole.definitions[1 + i] == d);
                    }
                } else {
                    let inner = body->0;
                    lemma_walk_holds(
                        *inner,
                        parents.push(own),
                        path.drop_first(),
                        file,
                        builtins,
                        d,
                    );
                    if below.definitions.contains(d) {
                        let i = choose|i: int|
                            0 <= i < below.definitions.len() && below.definitions[i] == d;
                        assert(whole.definitions[1 + above.definitions.len() + i] == d);
                    }
                }
            },
            SyntaxNode::Other { children } => {
                let child = children[path[0] as int];
                lemma_walk_all_holds(children, 0, path[0], parents, file, builtins, d);
                lemma_walk_holds(child, parents, path.drop_first(), file, builtins, d);
            },
            _ => {},
        }
    }
}

/// Wherever a module or class stands in a tree whose walk does not fail, the
/// walk defines the namespace made of the names of the modules and classes
/// that enclose it, from the outermost inwards, and its own name at the end.
pub proof fn lemma_definition_carries_enclosing_names(
    root: SyntaxNode,
    path: Seq<nat>,
    file: Seq<char>,
    builtins: Seq<Seq<char>>,
)
    requires
        walk(root, Seq::empty(), file, builtins).error.is_none(),
        descend(root, Seq::empty(), path) matches Some((target, _)) && (target is Module
            || target is Class),
    ensures
        ({
            let (target, enclosing) = descend(root, Seq::empty(), path)->0;
            let name = match target {
                SyntaxNode::Module { name, .. } => name,
                SyntaxNode::Class { name, .. } => name,
                _ => arbitrary(),
            };
            &&& simple_name(*name) matches Some(own) && exists|i: int|
                0 <= i < walk(root, Seq::empty(), file, builtins).definitions.len() && (
                #[trigger] walk(root, Seq::empty(), file, builtins).definitions[i]).namespace
                    == join(enclosing.push(own))
        }),
{
    let (target, enclosing) = descend(root, Seq::empty(), path)->0;
    let found = walk(target, enclosing, file, builtins);
    let d = found.definitions[0];
    lemma_walk_holds(root, Seq::empty(), path, file, builtins, d);
    assert(found.definitions.contains(d));
    let whole = walk(root, Seq::empty(), file, builtins);
    let i = choose|i: int| 0 <= i < whole.definitions.len() && whole.definitions[i] == d;
    assert(whole.definitions[i].namespace == d.namespace);
}

} // verus!
