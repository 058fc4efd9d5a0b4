//! Directives: what a tagged comment says, once the declarations that it
//! speaks of are known.

use crate::decl::{FuncDecl, FuncView, StructDecl, StructView};
use crate::error::ParseError;
use crate::source::{
    get_nextline_tokens, is_function, is_raw_directive, is_record, nextline_tokens,
    parse_fn_signature, parse_struct_decl, spec_fn_signature, spec_struct_decl, Declaration, Entity,
    EntityKind, Token, DIRECTIVE_MAGIC,
};
use crate::text::{
    chars_of, cuts, find_char, first_index, range_eq, split, split_ranges, trim, trim_range,
};
use vstd::prelude::*;
use vstd::string::StrSliceExecFns;

verus! {

/// One directive of a source file.
#[derive(Debug, PartialEq, Eq)]
pub enum Directive {
    /// The record `alias` is to be written as `typename`.
    AliasOf { typename: String, alias: StructDecl },
    /// The source descends from `filename` at `commit_sha`.
    BasedOn { filename: String, commit_sha: String },
    /// The function `signature` lives in `filename`.
    DefinedIn { filename: String, signature: FuncDecl },
    /// The functions `signatures` live in `filename`.
    DefinedInList { filename: String, signatures: Vec<FuncDecl> },
    /// The end of a list of functions.
    DefinedInEnd,
}

/// A directive as contracts see it.
pub enum DirectiveView {
    AliasOf { typename: Seq<char>, alias: StructView },
    BasedOn { filename: Seq<char>, commit_sha: Seq<char> },
    DefinedIn { filename: Seq<char>, signature: FuncView },
    DefinedInList { filename: Seq<char>, signatures: Seq<FuncView> },
    DefinedInEnd,
}

impl DeepView for Directive {
    type V = DirectiveView;

    open spec fn deep_view(&self) -> DirectiveView {
        match self {
            Directive::AliasOf { typename, alias } => DirectiveView::AliasOf {
                typename: typename@,
                alias: alias.deep_view(),
            },
            Directive::BasedOn { filename, commit_sha } => DirectiveView::BasedOn {
                filename: filename@,
                commit_sha: commit_sha@,
            },
            Directive::DefinedIn { filename, signature } => DirectiveView::DefinedIn {
                filename: filename@,
                signature: signature.deep_view(),
            },
            Directive::DefinedInList { filename, signatures } => DirectiveView::DefinedInList {
                filename: filename@,
                signatures: signatures.deep_view(),
            },
            Directive::DefinedInEnd => DirectiveView::DefinedInEnd,
        }
    }
}

/// The five keywords.
#[derive(Clone, Copy, Debug, PartialEq, Eq, Structural)]
pub enum DirectiveKind {
    AliasOf,
    BasedOn,
    DefinedIn,
    DefinedInStart,
    DefinedInEnd,
}

/// What a directive asks of the declaration extractor before it is
/// complete. Tokens are named by their positions in the file's token list.
#[derive(Debug, PartialEq, Eq)]
pub enum Request {
    /// Nothing: the directive is complete.
    Complete(Directive),
    /// The entities under `tokens`, for an alias named `typename`.
    AliasOf { typename: String, tokens: Vec<usize> },
    /// The functions declared under `tokens`, for the file `filename`.
    DefinedIn { filename: String, tokens: Vec<usize> },
    /// The functions declared under the tokens from `first` up to and
    /// without `end`, for the file `filename`.
    DefinedInList { filename: String, first: usize, end: usize },
}

/// A request as contracts see it.
pub enum RequestView {
    Complete(DirectiveView),
    AliasOf { typename: Seq<char>, tokens: Seq<usize> },
    DefinedIn { filename: Seq<char>, tokens: Seq<usize> },
    DefinedInList { filename: Seq<char>, first: usize, end: usize },
}

impl DeepView for Request {
    type V = RequestView;

    open spec fn deep_view(&self) -> RequestView {
        match self {
            Request::Complete(directive) => RequestView::Complete(directive.deep_view()),
            Request::AliasOf { typename, tokens } => RequestView::AliasOf {
                typename: typename@,
                tokens: tokens@,
            },
            Request::DefinedIn { filename, tokens } => RequestView::DefinedIn {
                filename: filename@,
                tokens: tokens@,
            },
            Request::DefinedInList { filename, first, end } => RequestView::DefinedInList {
                filename: filename@,
                first: *first,
                end: *end,
            },
        }
    }
}

/// The kind that `keyword` names.
pub open spec fn keyword_kind(keyword: Seq<char>) -> Option<DirectiveKind> {
    if keyword == "Alias-of"@ {
        Some(DirectiveKind::AliasOf)
    } else if keyword == "Based-on"@ {
        Some(DirectiveKind::BasedOn)
    } else if keyword == "Defined-in"@ {
        Some(DirectiveKind::DefinedIn)
    } else if keyword == "Defined-in-start"@ {
        Some(DirectiveKind::DefinedInStart)
    } else if keyword == "Defined-in-end"@ {
        Some(DirectiveKind::DefinedInEnd)
    } else {
        None
    }
}

/// The pieces of `spelling` between colons, each without the whitespace
/// around it.
pub open spec fn segments(spelling: Seq<char>) -> Seq<Seq<char>> {
    let parts = split(spelling, ':');
    Seq::new(parts.len(), |i: int| trim(parts[i]))
}

/// The kind and the trivia of the comment `spelling`: the first segment is
/// the magic prefix, the second the keyword, the others are the trivia.
pub open spec fn spec_directive_kind(spelling: Seq<char>) -> Result<
    (DirectiveKind, Seq<Seq<char>>),
    ParseError,
> {
    let all = segments(spelling);
    if all[0] != DIRECTIVE_MAGIC@ {
        Err(ParseError::BadMagic)
    } else if all.len() < 2 {
        Err(ParseError::MissingDirective)
    } else {
        match keyword_kind(all[1]) {
            None => Err(ParseError::UnknownDirective),
            Some(kind) => Ok((kind, all.skip(2))),
        }
    }
}

/// Whether `token` is a directive that ends a list.
pub open spec fn is_list_end(token: Token) -> bool {
    &&& is_raw_directive(token)
    &&& spec_directive_kind(token.spelling@) matches Ok((kind, _))
    &&& kind == DirectiveKind::DefinedInEnd
}

/// The first position at or after `from` of a directive that ends a list,
/// or `tokens.len()`.
pub open spec fn list_end(tokens: Seq<Token>, from: int) -> int
    decreases tokens.len() - from,
{
    if from < 0 || from >= tokens.len() {
        tokens.len() as int
    } else if is_list_end(tokens[from]) {
        from
    } else {
        list_end(tokens, from + 1)
    }
}

/// The end of a list lies at or after the place the search starts from.
pub proof fn lemma_list_end_bounds(tokens: Seq<Token>, from: int)
    requires
        0 <= from <= tokens.len(),
    ensures
        from <= list_end(tokens, from) <= tokens.len(),
        list_end(tokens, from) < tokens.len() ==> is_list_end(tokens[list_end(tokens, from)]),
    decreases tokens.len() - from,
{
    if from < tokens.len() && !is_list_end(tokens[from]) {
        lemma_list_end_bounds(tokens, from + 1);
    }
}

/// What the directive at `position` is, as far as the tokens alone say.
pub open spec fn spec_parse_directive(
    tokens: Seq<Token>,
    sourcefile: Seq<char>,
    position: int,
) -> Result<RequestView, ParseError> {
    match spec_directive_kind(tokens[position].spelling@) {
        Err(error) => Err(error),
        Ok((kind, trivia)) => match kind {
            DirectiveKind::AliasOf => if trivia.len() == 0 {
                Err(ParseError::MissingAliasTypename)
            } else {
                Ok(
                    RequestView::AliasOf {
                        typename: trivia[0],
                        tokens: nextline_tokens(tokens, sourcefile, position),
                    },
                )
            },
            DirectiveKind::BasedOn => if trivia.len() == 0 {
                Err(ParseError::MissingBasedOnFile)
            } else if first_index(trivia[0], ',') >= trivia[0].len() {
                Err(ParseError::ExpectedFilenameAndCommit)
            } else {
                Ok(
                    RequestView::Complete(
                        DirectiveView::BasedOn {
                            filename: trivia[0].take(first_index(trivia[0], ',')),
                            commit_sha: trivia[0].skip(first_index(trivia[0], ',') + 1),
                        },
                    ),
                )
            },
            DirectiveKind::DefinedIn => if trivia.len() == 0 {
                Err(ParseError::MissingDefinedInFilename)
            } else {
                Ok(
                    RequestView::DefinedIn {
                        filename: trivia[0],
                        tokens: nextline_tokens(tokens, sourcefile, position),
                    },
                )
            },
            DirectiveKind::DefinedInStart => if trivia.len() == 0 {
                Err(ParseError::MissingDefinedInFilename)
            } else if list_end(tokens, position) >= tokens.len() {
                Err(ParseError::UnmatchedDefinedInStart)
            } else {
                Ok(
                    RequestView::DefinedInList {
                        filename: trivia[0],
                        first: position as usize,
                        end: list_end(tokens, position) as usize,
                    },
                )
            },
            DirectiveKind::DefinedInEnd => Ok(RequestView::Complete(DirectiveView::DefinedInEnd)),
        },
    }
}

/// The first position among `nodes` of an entity that declares a record,
/// or `nodes.len()`.
pub open spec fn first_struct(nodes: Seq<Option<Entity>>, from: int) -> int
    decreases nodes.len() - from,
{
    if from < 0 || from >= nodes.len() {
        nodes.len() as int
    } else if nodes[from] matches Some(node) && node.kind == EntityKind::StructDecl {
        from
    } else {
        first_struct(nodes, from + 1)
    }
}

/// The functions that `declarations` stand for, in order.
pub open spec fn spec_signatures(declarations: Seq<Declaration>) -> Seq<FuncView> {
    Seq::new(declarations.len(), |i: int| spec_fn_signature(declarations[i]))
}

/// The kind of the keyword in `v[lo..hi]`.
fn parse_keyword(v: &Vec<char>, lo: usize, hi: usize) -> (kind: Option<DirectiveKind>)
    requires
        lo <= hi <= v.len(),
    ensures
        kind == keyword_kind(v@.subrange(lo as int, hi as int)),
{
    if range_eq(v, lo, hi, &chars_of("Alias-of")) {
        Some(DirectiveKind::AliasOf)
    } else if range_eq(v, lo, hi, &chars_of("Based-on")) {
        Some(DirectiveKind::BasedOn)
    } else if range_eq(v, lo, hi, &chars_of("Defined-in")) {
        Some(DirectiveKind::DefinedIn)
    } else if range_eq(v, lo, hi, &chars_of("Defined-in-start")) {
        Some(DirectiveKind::DefinedInStart)
    } else if range_eq(v, lo, hi, &chars_of("Defined-in-end")) {
        Some(DirectiveKind::DefinedInEnd)
    } else {
        None
    }
}

/// The kind and the trivia of the comment `spelling`.
pub fn parse_directive_kind(spelling: &str) -> (r: Result<(DirectiveKind, Vec<String>), ParseError>)
    ensures
        match r {
            Ok((kind, trivia)) => spec_directive_kind(spelling@) == Ok::<_, ParseError>(
                (kind, trivia.deep_view()),
            ),
            Err(error) => spec_directive_kind(spelling@) == Err::<
                (DirectiveKind, Seq<Seq<char>>),
                _,
            >(error),
        },
{
    let v = chars_of(spelling);
    let ranges = split_ranges(&v, ':');
    let ghost parts = split(v@, ':');
    let ghost all = segments(v@);
    let magic = chars_of(DIRECTIVE_MAGIC);
    let (a, b) = trim_range(&v, ranges[0].0, ranges[0].1);
    if !range_eq(&v, a, b, &magic) {
        return Err(ParseError::BadMagic);
    }
    if ranges.len() < 2 {
        return Err(ParseError::MissingDirective);
    }
    let (a, b) = trim_range(&v, ranges[1].0, ranges[1].1);
    let kind = match parse_keyword(&v, a, b) {
        None => {
            return Err(ParseError::UnknownDirective);
        },
        Some(kind) => kind,
    };
    let mut trivia: Vec<String> = Vec::new();
    let mut i: usize = 2;
    while i < ranges.len()
        invariant
            2 <= i <= ranges.len(),
            v@ == spelling@,
            parts == split(v@, ':'),
            all == segments(v@),
            cuts(v@, ranges@, parts),
            trivia.len() == i - 2,
            forall|k: int| 0 <= k < trivia.len() ==> (#[trigger] trivia@[k])@ == all[k + 2],
        decreases ranges.len() - i,
    {
        let (a, b) = trim_range(&v, ranges[i].0, ranges[i].1);
        trivia.push(spelling.substring_char(a, b).to_owned());
        i += 1;
    }
    assert(trivia.deep_view() =~= all.skip(2));
    Ok((kind, trivia))
}

/// The position of the first directive at or after `from` that ends a
/// list, or `tokens.len()`.
fn find_list_end(tokens: &Vec<Token>, from: usize) -> (end: usize)
    requires
        from <= tokens.len(),
    ensures
        end == list_end(tokens@, from as int),
        from <= end <= tokens.len(),
{
    let mut i: usize = from;
    while i < tokens.len()
        invariant
            from <= i <= tokens.len(),
            list_end(tokens@, from as int) == list_end(tokens@, i as int),
        decreases tokens.len() - i,
    {
        if tokens[i].is_raw_directive() {
            match parse_directive_kind(tokens[i].spelling.as_str()) {
                Ok((DirectiveKind::DefinedInEnd, _)) => {
                    return i;
                },
                _ => {},
            }
        }
        i += 1;
    }
    i
}

/// What the directive at `position` is, as far as the tokens alone say:
/// the complete directive, or what is to be asked of the declaration
/// extractor for it.
pub fn parse_directive(tokens: &Vec<Token>, sourcefile: &str, position: usize) -> (r: Result<
    Request,
    ParseError,
>)
    requires
        position < tokens.len(),
    ensures
        match r {
            Ok(request) => spec_parse_directive(tokens@, sourcefile@, position as int) == Ok::<
                _,
                ParseError,
            >(request.deep_view()),
            Err(error) => spec_parse_directive(tokens@, sourcefile@, position as int) == Err::<
                RequestView,
                _,
            >(error),
        },
        match r {
            Ok(Request::AliasOf { tokens: asked, .. }) => forall|k: int|
                0 <= k < asked.len() ==> #[trigger] asked[k] < tokens.len(),
            Ok(Request::DefinedIn { tokens: asked, .. }) => forall|k: int|
                0 <= k < asked.len() ==> #[trigger] asked[k] < tokens.len(),
            Ok(Request::DefinedInList { first, end, .. }) => first == position && first < end
                < tokens@.len(),
            _ => true,
        },
{
    let (kind, trivia) = match parse_directive_kind(tokens[position].spelling.as_str()) {
        Err(error) => {
            return Err(error);
        },
        Ok(parsed) => parsed,
    };
    proof {
        if trivia.len() > 0 {
            assert(trivia.deep_view()[0] == trivia@[0]@);
        }
    }
    match kind {
        DirectiveKind::AliasOf => {
            if trivia.len() == 0 {
                return Err(ParseError::MissingAliasTypename);
            }
            let asked = get_nextline_tokens(tokens, sourcefile, position);
            Ok(Request::AliasOf { typename: trivia[0].clone(), tokens: asked })
        },
        DirectiveKind::BasedOn => {
            if trivia.len() == 0 {
                return Err(ParseError::MissingBasedOnFile);
            }
            let both = trivia[0].as_str();
            let v = chars_of(both);
            let comma = find_char(&v, 0, v.len(), ',');
            assert(v@.subrange(0, v.len() as int) =~= v@);
            if comma >= v.len() {
                return Err(ParseError::ExpectedFilenameAndCommit);
            }
            assert(v@.subrange(0, comma as int) =~= v@.take(comma as int));
            assert(v@.subrange(comma + 1, v.len() as int) =~= v@.skip(comma + 1));
            Ok(
                Request::Complete(
                    Directive::BasedOn {
                        filename: both.substring_char(0, comma).to_owned(),
                        commit_sha: both.substring_char(comma + 1, v.len()).to_owned(),
                    },
                ),
            )
        },
        DirectiveKind::DefinedIn => {
            if trivia.len() == 0 {
                return Err(ParseError::MissingDefinedInFilename);
            }
            let asked = get_nextline_tokens(tokens, sourcefile, position);
            Ok(Request::DefinedIn { filename: trivia[0].clone(), tokens: asked })
        },
        DirectiveKind::DefinedInStart => {
            if trivia.len() == 0 {
                return Err(ParseError::MissingDefinedInFilename);
            }
            let end = find_list_end(tokens, position);
            proof {
                assert(!is_list_end(tokens@[position as int]));
                lemma_list_end_bounds(tokens@, position + 1);
            }
            if end >= tokens.len() {
                return Err(ParseError::UnmatchedDefinedInStart);
            }
            Ok(Request::DefinedInList { filename: trivia[0].clone(), first: position, end })
        },
        DirectiveKind::DefinedInEnd => Ok(Request::Complete(Directive::DefinedInEnd)),
    }
}

/// Whether the first entity among `nodes` that declares a record, if there
/// is one, can be read.
pub fn alias_is_readable(nodes: &Vec<Option<Entity>>) -> (b: bool)
    ensures
        b == (first_struct(nodes@, 0) < nodes@.len() ==> is_record(
            nodes@[first_struct(nodes@, 0)]->0,
        )),
{
    let mut i: usize = 0;
    while i < nodes.len()
        invariant
            i <= nodes.len(),
            first_struct(nodes@, 0) == first_struct(nodes@, i as int),
        decreases nodes.len() - i,
    {
        match &nodes[i] {
            Some(node) => {
                if node.kind == EntityKind::StructDecl {
                    return node.is_record();
                }
            },
            None => {},
        }
        i += 1;
    }
    true
}

/// The alias that `typename` declares for the first record among `nodes`.
pub fn parse_alias_of(typename: String, nodes: &Vec<Option<Entity>>) -> (r: Result<
    Directive,
    ParseError,
>)
    requires
        first_struct(nodes@, 0) < nodes@.len() ==> is_record(nodes@[first_struct(nodes@, 0)]->0),
    ensures
        match r {
            Ok(directive) => first_struct(nodes@, 0) < nodes@.len() && directive.deep_view() == (
            DirectiveView::AliasOf {
                typename: typename@,
                alias: spec_struct_decl(nodes@[first_struct(nodes@, 0)]->0),
            }),
            Err(error) => first_struct(nodes@, 0) >= nodes@.len() && error
                == ParseError::ExpectedStructDeclaration,
        },
{
    let mut i: usize = 0;
    while i < nodes.len()
        invariant
            i <= nodes.len(),
            first_struct(nodes@, 0) == first_struct(nodes@, i as int),
            first_struct(nodes@, 0) < nodes@.len() ==> is_record(
                nodes@[first_struct(nodes@, 0)]->0,
            ),
        decreases nodes.len() - i,
    {
        match &nodes[i] {
            Some(node) => {
                if node.kind == EntityKind::StructDecl {
                    return Ok(Directive::AliasOf { typename, alias: parse_struct_decl(node) });
                }
            },
            None => {},
        }
        i += 1;
    }
    Err(ParseError::ExpectedStructDeclaration)
}

/// The directive that places the first of `functions` in `filename`.
pub fn parse_defined_in(filename: String, functions: &Vec<Declaration>) -> (r: Result<
    Directive,
    ParseError,
>)
    requires
        functions@.len() > 0 ==> is_function(functions@[0].entity),
    ensures
        match r {
            Ok(directive) => functions@.len() > 0 && directive.deep_view() == (
            DirectiveView::DefinedIn {
                filename: filename@,
                signature: spec_fn_signature(functions@[0]),
            }),
            Err(error) => functions@.len() == 0 && error
                == ParseError::ExpectedFunctionDeclaration,
        },
{
    if functions.len() == 0 {
        return Err(ParseError::ExpectedFunctionDeclaration);
    }
    Ok(Directive::DefinedIn { filename, signature: parse_fn_signature(&functions[0]) })
}

/// The directive that places `functions`, in order, in `filename`.
pub fn parse_defined_in_list(filename: String, functions: &Vec<Declaration>) -> (directive:
    Directive)
    requires
        forall|i: int| 0 <= i < functions@.len() ==> is_function((#[trigger] functions@[i]).entity),
    ensures
        directive.deep_view() == (DirectiveView::DefinedInList {
            filename: filename@,
            signatures: spec_signatures(functions@),
        }),
{
    let mut signatures: Vec<FuncDecl> = Vec::new();
    let mut i: usize = 0;
    while i < functions.len()
        invariant
            i <= functions.len(),
            signatures.len() == i,
            forall|k: int|
                0 <= k < functions@.len() ==> is_function((#[trigger] functions@[k]).entity),
            forall|k: int|
                0 <= k < i ==> (#[trigger] signatures@[k]).deep_view() == spec_fn_signature(
                    functions@[k],
                ),
        decreases functions.len() - i,
    {
        signatures.push(parse_fn_signature(&functions[i]));
        i += 1;
    }
    assert(signatures.deep_view() =~= spec_signatures(functions@));
    Directive::DefinedInList { filename, signatures }
}

} // verus!
