//! A source file as the directives see it: its tokens in source order, and
//! the declarations that an extractor finds under them.

use crate::decl::{
    FieldDecl, FieldView, FuncDecl, FuncView, ParamDecl, ParamView, StructDecl, StructView,
};
use crate::text::{has_prefix, starts_with, text_eq};
use vstd::prelude::*;

verus! {

/// What the comment of a directive begins with.
pub const DIRECTIVE_MAGIC: &'static str = "// ABC_MINI";

/// The kinds of token.
#[derive(Clone, Copy, Debug, PartialEq, Eq, Structural)]
pub enum TokenKind {
    Comment,
    Identifier,
    Keyword,
    Literal,
    Punctuation,
}

/// One token: its kind, its text, and where it stands. Lines count from 1.
#[derive(Debug, PartialEq, Eq)]
pub struct Token {
    pub kind: TokenKind,
    pub spelling: String,
    pub file: Option<String>,
    pub line: u32,
}

/// The kinds of entity that the directives tell apart.
#[derive(Clone, Copy, Debug, PartialEq, Eq, Structural)]
pub enum EntityKind {
    StructDecl,
    FieldDecl,
    FunctionDecl,
    ParmDecl,
    Other,
}

/// An entity of the syntax tree, as far as the directives read it: its kind,
/// its name, the display forms of its type and of its result type, its
/// arguments, and its children.
#[derive(Debug, PartialEq, Eq)]
pub struct Entity {
    pub kind: EntityKind,
    pub name: Option<String>,
    pub ty: Option<String>,
    pub result_ty: Option<String>,
    pub arguments: Option<Vec<Entity>>,
    pub children: Vec<Entity>,
}

/// A function that the extractor found: its name and its entity.
#[derive(Debug, PartialEq, Eq)]
pub struct Declaration {
    pub name: String,
    pub entity: Entity,
}

/// Whether `token` is a comment that begins with the magic prefix.
pub open spec fn is_raw_directive(token: Token) -> bool {
    token.kind == TokenKind::Comment && starts_with(token.spelling@, DIRECTIVE_MAGIC@)
}

/// The positions of the raw directives among `tokens`, in order.
pub open spec fn raw_directives(tokens: Seq<Token>) -> Seq<usize>
    decreases tokens.len(),
{
    if tokens.len() == 0 {
        Seq::empty()
    } else if is_raw_directive(tokens.last()) {
        raw_directives(tokens.drop_last()).push((tokens.len() - 1) as usize)
    } else {
        raw_directives(tokens.drop_last())
    }
}

/// Whether `token` stands in the file `sourcefile`.
pub open spec fn in_file(token: Token, sourcefile: Seq<char>) -> bool {
    token.file matches Some(file) && file@ == sourcefile
}

/// The positions of the tokens of `sourcefile` that stand on `line`, in
/// order.
pub open spec fn line_tokens(tokens: Seq<Token>, sourcefile: Seq<char>, line: int) -> Seq<usize>
    decreases tokens.len(),
{
    if tokens.len() == 0 {
        Seq::empty()
    } else if in_file(tokens.last(), sourcefile) && tokens.last().line == line {
        line_tokens(tokens.drop_last(), sourcefile, line).push((tokens.len() - 1) as usize)
    } else {
        line_tokens(tokens.drop_last(), sourcefile, line)
    }
}

/// The positions of the tokens of `sourcefile` on the line after that of
/// the token at `start`.
pub open spec fn nextline_tokens(tokens: Seq<Token>, sourcefile: Seq<char>, start: int) -> Seq<
    usize,
> {
    line_tokens(tokens, sourcefile, tokens[start].line + 1)
}

/// The raw directives are found each once, in source order, and nothing
/// else is.
pub proof fn lemma_raw_directives(tokens: Seq<Token>)
    requires
        tokens.len() <= usize::MAX,
    ensures
        forall|k: int|
            0 <= k < raw_directives(tokens).len() ==> 0 <= #[trigger] raw_directives(tokens)[k]
                < tokens.len() && is_raw_directive(tokens[raw_directives(tokens)[k] as int]),
        forall|j: int, k: int|
            0 <= j < k < raw_directives(tokens).len() ==> raw_directives(tokens)[j]
                < raw_directives(tokens)[k],
        forall|i: int|
            0 <= i < tokens.len() && is_raw_directive(#[trigger] tokens[i]) ==> raw_directives(
                tokens,
            ).contains(i as usize),
    decreases tokens.len(),
{
    if tokens.len() > 0 {
        let front = tokens.drop_last();
        lemma_raw_directives(front);
        let before = raw_directives(front);
        let all = raw_directives(tokens);
        let last = (tokens.len() - 1) as usize;
        assert forall|i: int|
            0 <= i < tokens.len() && is_raw_directive(#[trigger] tokens[i]) implies all.contains(
            i as usize,
        ) by {
            if i < front.len() {
                assert(is_raw_directive(front[i]));
                let k = choose|k: int| 0 <= k < before.len() && before[k] == i as usize;
                assert(all[k] == i as usize);
            } else {
                assert(all[all.len() - 1] == last);
            }
        }
        assert forall|k: int| 0 <= k < all.len() implies 0 <= #[trigger] all[k] < tokens.len()
            && is_raw_directive(tokens[all[k] as int]) by {
            if k < before.len() {
                assert(all[k] == before[k]);
                assert(front[before[k] as int] == tokens[before[k] as int]);
            }
        }
    }
}

/// The tokens of a file on a line are found each once, in source order, and
/// nothing else is.
pub proof fn lemma_line_tokens(tokens: Seq<Token>, sourcefile: Seq<char>, line: int)
    requires
        tokens.len() <= usize::MAX,
    ensures
        forall|k: int|
            0 <= k < line_tokens(tokens, sourcefile, line).len() ==> {
                let at = #[trigger] line_tokens(tokens, sourcefile, line)[k];
                0 <= at < tokens.len() && in_file(tokens[at as int], sourcefile)
                    && tokens[at as int].line == line
            },
        forall|j: int, k: int|
            0 <= j < k < line_tokens(tokens, sourcefile, line).len() ==> line_tokens(
                tokens,
                sourcefile,
                line,
            )[j] < line_tokens(tokens, sourcefile, line)[k],
        forall|i: int|
            0 <= i < tokens.len() && in_file(#[trigger] tokens[i], sourcefile) && tokens[i].line
                == line ==> line_tokens(tokens, sourcefile, line).contains(i as usize),
    decreases tokens.len(),
{
    if tokens.len() > 0 {
        let front = tokens.drop_last();
        lemma_line_tokens(front, sourcefile, line);
        let before = line_tokens(front, sourcefile, line);
        let all = line_tokens(tokens, sourcefile, line);
        let last = (tokens.len() - 1) as usize;
        assert forall|i: int|
            0 <= i < tokens.len() && in_file(#[trigger] tokens[i], sourcefile) && tokens[i].line
                == line implies all.contains(i as usize) by {
            if i < front.len() {
                assert(in_file(front[i], sourcefile));
                let k = choose|k: int| 0 <= k < before.len() && before[k] == i as usize;
                assert(all[k] == i as usize);
            } else {
                assert(all[all.len() - 1] == last);
            }
        }
        assert forall|k: int| 0 <= k < all.len() implies {
            let at = #[trigger] all[k];
            0 <= at < tokens.len() && in_file(tokens[at as int], sourcefile)
                && tokens[at as int].line == line
        } by {
            if k < before.len() {
                assert(all[k] == before[k]);
                assert(front[before[k] as int] == tokens[before[k] as int]);
            }
        }
    }
}

impl Token {
    /// Whether the token is a comment that begins with the magic prefix.
    pub fn is_raw_directive(&self) -> (b: bool)
        ensures
            b == is_raw_directive(*self),
    {
        self.kind == TokenKind::Comment && has_prefix(self.spelling.as_str(), DIRECTIVE_MAGIC)
    }
}

/// The positions of the raw directives among `tokens`, in order.
pub fn iter_raw_directives(tokens: &Vec<Token>) -> (positions: Vec<usize>)
    ensures
        positions@ == raw_directives(tokens@),
        forall|k: int| 0 <= k < positions.len() ==> #[trigger] positions[k] < tokens.len(),
{
    let mut positions: Vec<usize> = Vec::new();
    let mut i: usize = 0;
    proof {
        assert(tokens@.take(0) =~= Seq::empty());
    }
    while i < tokens.len()
        invariant
            i <= tokens.len(),
            positions@ == raw_directives(tokens@.take(i as int)),
        decreases tokens.len() - i,
    {
        proof {
            assert(tokens@.take(i + 1).drop_last() =~= tokens@.take(i as int));
        }
        if tokens[i].is_raw_directive() {
            positions.push(i);
        }
        i += 1;
    }
    proof {
        assert(tokens@.take(i as int) =~= tokens@);
        lemma_raw_directives(tokens@);
    }
    positions
}

/// Whether `token` stands in the file `sourcefile`.
fn token_in_file(token: &Token, sourcefile: &str) -> (b: bool)
    ensures
        b == in_file(*token, sourcefile@),
{
    match &token.file {
        Some(file) => text_eq(file.as_str(), sourcefile),
        None => false,
    }
}

/// The positions of the tokens of `sourcefile` on the line after that of
/// the token at `start`.
pub fn get_nextline_tokens(tokens: &Vec<Token>, sourcefile: &str, start: usize) -> (positions: Vec<
    usize,
>)
    requires
        start < tokens.len(),
    ensures
        positions@ == nextline_tokens(tokens@, sourcefile@, start as int),
        forall|k: int| 0 <= k < positions.len() ==> #[trigger] positions[k] < tokens.len(),
{
    let line: u64 = tokens[start].line as u64 + 1;
    let mut positions: Vec<usize> = Vec::new();
    let mut i: usize = 0;
    proof {
        assert(tokens@.take(0) =~= Seq::empty());
    }
    while i < tokens.len()
        invariant
            i <= tokens.len(),
            positions@ == line_tokens(tokens@.take(i as int), sourcefile@, line as int),
        decreases tokens.len() - i,
    {
        proof {
            assert(tokens@.take(i + 1).drop_last() =~= tokens@.take(i as int));
        }
        if token_in_file(&tokens[i], sourcefile) && tokens[i].line as u64 == line {
            positions.push(i);
        }
        i += 1;
    }
    proof {
        assert(tokens@.take(i as int) =~= tokens@);
        lemma_line_tokens(tokens@, sourcefile@, line as int);
    }
    positions
}

/// The fields among `children`, in order.
pub open spec fn record_fields(children: Seq<Entity>) -> Seq<FieldView>
    decreases children.len(),
{
    if children.len() == 0 {
        Seq::empty()
    } else if children.last().kind == EntityKind::FieldDecl {
        record_fields(children.drop_last()).push(
            FieldView { name: children.last().name->0@, ty: children.last().ty->0@ },
        )
    } else {
        record_fields(children.drop_last())
    }
}

/// Whether `node` declares a record that can be read: it has a name, and
/// each of its fields has a name and a type.
pub open spec fn is_record(node: Entity) -> bool {
    &&& node.kind == EntityKind::StructDecl
    &&& node.name is Some
    &&& forall|i: int|
        0 <= i < node.children@.len() && (#[trigger] node.children@[i]).kind
            == EntityKind::FieldDecl ==> node.children@[i].name is Some && node.children@[i].ty
            is Some
}

/// The record that `node` declares.
pub open spec fn spec_struct_decl(node: Entity) -> StructView {
    StructView { name: node.name->0@, fields: record_fields(node.children@) }
}

/// Whether `node` declares a parameter that can be read: it has a name and
/// a type.
pub open spec fn is_parameter(node: Entity) -> bool {
    node.kind == EntityKind::ParmDecl && node.name is Some && node.ty is Some
}

/// The parameter that `node` declares.
pub open spec fn spec_fn_param(node: Entity) -> ParamView {
    ParamView { name: node.name->0@, ty: node.ty->0@ }
}

/// Whether `entity` declares a function that can be read: it has a result
/// type and arguments, each of which is a parameter that can be read.
pub open spec fn is_function(entity: Entity) -> bool {
    &&& entity.result_ty is Some
    &&& entity.arguments matches Some(arguments)
    &&& forall|i: int| 0 <= i < arguments@.len() ==> is_parameter(#[trigger] arguments@[i])
}

/// The function that `declaration` stands for.
pub open spec fn spec_fn_signature(declaration: Declaration) -> FuncView {
    let arguments = declaration.entity.arguments->0@;
    FuncView {
        name: declaration.name@,
        return_ty: declaration.entity.result_ty->0@,
        params: Seq::new(arguments.len(), |i: int| spec_fn_param(arguments[i])),
    }
}

impl Entity {
    /// Whether the entity declares a record that can be read.
    pub fn is_record(&self) -> (b: bool)
        ensures
            b == is_record(*self),
    {
        if !(self.kind == EntityKind::StructDecl) || self.name.is_none() {
            return false;
        }
        let mut i: usize = 0;
        while i < self.children.len()
            invariant
                i <= self.children.len(),
                forall|k: int|
                    0 <= k < i && (#[trigger] self.children@[k]).kind == EntityKind::FieldDecl
                        ==> self.children@[k].name is Some && self.children@[k].ty is Some,
            decreases self.children.len() - i,
        {
            let child = &self.children[i];
            if child.kind == EntityKind::FieldDecl && (child.name.is_none() || child.ty.is_none()) {
                return false;
            }
            i += 1;
        }
        true
    }

    /// Whether the entity declares a parameter that can be read.
    pub fn is_parameter(&self) -> (b: bool)
        ensures
            b == is_parameter(*self),
    {
        self.kind == EntityKind::ParmDecl && self.name.is_some() && self.ty.is_some()
    }

    /// Whether the entity declares a function that can be read.
    pub fn is_function(&self) -> (b: bool)
        ensures
            b == is_function(*self),
    {
        if self.result_ty.is_none() {
            return false;
        }
        match &self.arguments {
            None => false,
            Some(arguments) => {
                let mut i: usize = 0;
                while i < arguments.len()
                    invariant
                        i <= arguments.len(),
                        self.arguments == Some(*arguments),
                        self.result_ty is Some,
                        forall|k: int| 0 <= k < i ==> is_parameter(#[trigger] arguments@[k]),
                    decreases arguments.len() - i,
                {
                    if !arguments[i].is_parameter() {
                        assert(!is_parameter(self.arguments->0@[i as int]));
                        return false;
                    }
                    i += 1;
                }
                true
            },
        }
    }
}

/// The record that `node` declares: its name and, of its children, the
/// fields in order.
pub fn parse_struct_decl(node: &Entity) -> (record: StructDecl)
    requires
        is_record(*node),
    ensures
        record.deep_view() == spec_struct_decl(*node),
{
    let name = node.name.as_ref().unwrap().clone();
    let mut fields: Vec<FieldDecl> = Vec::new();
    let mut i: usize = 0;
    proof {
        assert(node.children@.take(0) =~= Seq::empty());
        assert(fields.deep_view() =~= Seq::empty());
    }
    while i < node.children.len()
        invariant
            i <= node.children.len(),
            is_record(*node),
            fields.deep_view() == record_fields(node.children@.take(i as int)),
        decreases node.children.len() - i,
    {
        proof {
            assert(node.children@.take(i + 1).drop_last() =~= node.children@.take(i as int));
        }
        let child = &node.children[i];
        if child.kind == EntityKind::FieldDecl {
            let ghost before = fields.deep_view();
            let field = FieldDecl {
                name: child.name.as_ref().unwrap().clone(),
                ty: child.ty.as_ref().unwrap().clone(),
            };
            fields.push(field);
            assert(fields.deep_view() =~= before.push(
                FieldView { name: child.name->0@, ty: child.ty->0@ },
            ));
        }
        i += 1;
    }
    proof {
        assert(node.children@.take(i as int) =~= node.children@);
    }
    StructDecl { name, fields }
}

/// The parameter that `node` declares.
pub fn parse_fn_param(node: &Entity) -> (parameter: ParamDecl)
    requires
        is_parameter(*node),
    ensures
        parameter.deep_view() == spec_fn_param(*node),
{
    ParamDecl {
        name: node.name.as_ref().unwrap().clone(),
        ty: node.ty.as_ref().unwrap().clone(),
    }
}

/// The function that `declaration` stands for: its name, the display form
/// of its result type, and its parameters in order.
pub fn parse_fn_signature(declaration: &Declaration) -> (function: FuncDecl)
    requires
        is_function(declaration.entity),
    ensures
        function.deep_view() == spec_fn_signature(*declaration),
{
    let return_ty = declaration.entity.result_ty.as_ref().unwrap().clone();
    let arguments = declaration.entity.arguments.as_ref().unwrap();
    let mut params: Vec<ParamDecl> = Vec::new();
    let mut i: usize = 0;
    while i < arguments.len()
        invariant
            i <= arguments.len(),
            params.len() == i,
            forall|k: int| 0 <= k < arguments@.len() ==> is_parameter(#[trigger] arguments@[k]),
            forall|k: int|
                0 <= k < i ==> (#[trigger] params@[k]).deep_view() == spec_fn_param(arguments@[k]),
        decreases arguments.len() - i,
    {
        params.push(parse_fn_param(&arguments[i]));
        i += 1;
    }
    assert(params.deep_view() =~= spec_fn_signature(*declaration).params);
    FuncDecl { name: declaration.name.clone(), return_ty, params }
}

} // verus!
