//! Rendering of hook stubs: for each hook a function of the same signature
//! that hands its arguments on to the function it is named after.

use crate::decl::{FuncDecl, FuncView, ParamDecl, ParamView};
use crate::hooks::{is_hook_name, FuncHooks, HooksView, HOOK_MAGIC};
use crate::patch::{HOOK_FOOTER, HOOK_HEADER};
use crate::rewrite::{spec_rewrite, Rewrites};
use crate::text::{chars_of, starts_with, text_eq};
use vstd::prelude::*;
use vstd::string::StrSliceExecFns;
use vstd::string::StringExecFns;

verus! {

/// Whether a parameter is rendered with its type.
#[derive(Clone, Copy, Debug, PartialEq, Eq, Structural)]
pub enum IncludeTypes {
    Yes,
    No,
}

/// Whether a parameter is rendered after a comma and a space.
#[derive(Clone, Copy, Debug, PartialEq, Eq, Structural)]
pub enum PrependComma {
    Yes,
    No,
}

/// `ty` as it stands before a name: a type that ends in `*` touches the
/// name, any other is followed by one space.
pub open spec fn spaced(ty: Seq<char>) -> Seq<char> {
    if ty.len() > 0 && ty.last() == '*' {
        ty
    } else {
        ty + " "@
    }
}

/// One parameter: after a comma where asked for, and with its rewritten
/// type where asked for.
pub open spec fn spec_parameter(
    parameter: ParamView,
    table: Map<Seq<char>, Seq<char>>,
    include_types: IncludeTypes,
    prepend_comma: PrependComma,
) -> Seq<char> {
    let prefix = match prepend_comma {
        PrependComma::Yes => ", "@,
        PrependComma::No => Seq::empty(),
    };
    match include_types {
        IncludeTypes::Yes => prefix + spaced(spec_rewrite(table, parameter.ty)) + parameter.name,
        IncludeTypes::No => prefix + parameter.name,
    }
}

/// The parameters in order, each after the first behind a comma.
pub open spec fn spec_parameter_pack(
    parameters: Seq<ParamView>,
    table: Map<Seq<char>, Seq<char>>,
    include_types: IncludeTypes,
) -> Seq<char>
    decreases parameters.len(),
{
    if parameters.len() == 0 {
        Seq::empty()
    } else if parameters.len() == 1 {
        spec_parameter(parameters[0], table, include_types, PrependComma::No)
    } else {
        spec_parameter_pack(parameters.drop_last(), table, include_types) + spec_parameter(
            parameters.last(),
            table,
            include_types,
            PrependComma::Yes,
        )
    }
}

/// The head of the stub: rewritten return type, name, typed parameters.
pub open spec fn spec_declaration(function: FuncView, table: Map<Seq<char>, Seq<char>>) -> Seq<
    char,
> {
    spaced(spec_rewrite(table, function.return_ty)) + function.name + "("@ + spec_parameter_pack(
        function.params,
        table,
        IncludeTypes::Yes,
    ) + ")"@
}

/// The name of the function that a hook stands before: the hook's name
/// without the marker.
pub open spec fn real_name(name: Seq<char>) -> Seq<char> {
    if starts_with(name, HOOK_MAGIC@) {
        name.skip(HOOK_MAGIC@.len() as int)
    } else {
        name
    }
}

/// The call that the stub makes, behind `return` unless the function
/// returns `void`.
pub open spec fn spec_invocation(function: FuncView, table: Map<Seq<char>, Seq<char>>) -> Seq<
    char,
> {
    let prefix = if function.return_ty == "void"@ {
        Seq::empty()
    } else {
        "return "@
    };
    prefix + real_name(function.name) + "("@ + spec_parameter_pack(
        function.params,
        table,
        IncludeTypes::No,
    ) + ")"@
}

/// The three lines of the stub.
pub open spec fn spec_function_hook(function: FuncView, table: Map<Seq<char>, Seq<char>>) -> Seq<
    Seq<char>,
> {
    seq![
        spec_declaration(function, table) + " {"@,
        "  "@ + spec_invocation(function, table) + ";"@,
        "}"@,
    ]
}

/// The stub as text: its three lines, each closed by a newline.
pub open spec fn spec_stub(function: FuncView, table: Map<Seq<char>, Seq<char>>) -> Seq<char> {
    let lines = spec_function_hook(function, table);
    lines[0] + "\n"@ + lines[1] + "\n"@ + lines[2] + "\n"@
}

/// The stubs of `functions`, in order.
pub open spec fn spec_stubs(functions: Seq<FuncView>, table: Map<Seq<char>, Seq<char>>) -> Seq<
    char,
>
    decreases functions.len(),
{
    if functions.len() == 0 {
        Seq::empty()
    } else {
        spec_stubs(functions.drop_last(), table) + spec_stub(functions.last(), table)
    }
}

/// The file of rendered hooks: header, stubs, footer.
pub open spec fn spec_payload(hooks: HooksView, table: Map<Seq<char>, Seq<char>>) -> Seq<char> {
    HOOK_HEADER@ + "\n"@ + spec_stubs(hooks.functions, table) + HOOK_FOOTER@ + "\n"@
}

/// `ty` as it stands before a name.
fn render_spaced(ty: String) -> (text: String)
    ensures
        text@ == spaced(ty@),
{
    let v = chars_of(ty.as_str());
    if v.len() > 0 && v[v.len() - 1] == '*' {
        ty
    } else {
        ty.concat(" ")
    }
}

/// One parameter: after a comma where asked for, and with its rewritten
/// type where asked for.
pub fn format_parameter(
    parameter: &ParamDecl,
    rewrites: &Rewrites,
    include_types: IncludeTypes,
    prepend_comma: PrependComma,
) -> (text: String)
    ensures
        text@ == spec_parameter(parameter.deep_view(), rewrites@, include_types, prepend_comma),
{
    let mut text = String::new();
    match prepend_comma {
        PrependComma::Yes => {
            text.append(", ");
        },
        PrependComma::No => {},
    }
    match include_types {
        IncludeTypes::Yes => {
            let ty = render_spaced(rewrites.rewrite(parameter.ty.as_str()));
            text.append(ty.as_str());
        },
        IncludeTypes::No => {},
    }
    text.append(parameter.name.as_str());
    text
}

/// The parameters in order, each after the first behind a comma.
pub fn render_parameter_pack(
    parameters: &Vec<ParamDecl>,
    rewrites: &Rewrites,
    include_types: IncludeTypes,
) -> (text: String)
    ensures
        text@ == spec_parameter_pack(parameters.deep_view(), rewrites@, include_types),
{
    let mut text = String::new();
    let ghost all = parameters.deep_view();
    let mut i: usize = 0;
    proof {
        assert(all.take(0) =~= Seq::empty());
    }
    while i < parameters.len()
        invariant
            i <= parameters.len(),
            all == parameters.deep_view(),
            text@ == spec_parameter_pack(all.take(i as int), rewrites@, include_types),
        decreases parameters.len() - i,
    {
        let prepend_comma = if i == 0 {
            PrependComma::No
        } else {
            PrependComma::Yes
        };
        let one = format_parameter(&parameters[i], rewrites, include_types, prepend_comma);
        text.append(one.as_str());
        proof {
            assert(all.take(i + 1).drop_last() =~= all.take(i as int));
            assert(all.take(i + 1).last() == parameters@[i as int].deep_view());
        }
        i += 1;
    }
    proof {
        assert(all.take(i as int) =~= all);
    }
    text
}

/// The head of the stub: rewritten return type, name, typed parameters.
pub fn render_function_declaration(function: &FuncDecl, rewrites: &Rewrites) -> (text: String)
    ensures
        text@ == spec_declaration(function.deep_view(), rewrites@),
{
    let mut text = render_spaced(rewrites.rewrite(function.return_ty.as_str()));
    let params = render_parameter_pack(&function.params, rewrites, IncludeTypes::Yes);
    text.append(function.name.as_str());
    text.append("(");
    text.append(params.as_str());
    text.append(")");
    text
}

/// The call that the stub makes, behind `return` unless the function
/// returns `void`.
pub fn render_hook_invocation(function: &FuncDecl, rewrites: &Rewrites) -> (text: String)
    ensures
        text@ == spec_invocation(function.deep_view(), rewrites@),
{
    let mut text = String::new();
    if !text_eq(function.return_ty.as_str(), "void") {
        text.append("return ");
    }
    let params = render_parameter_pack(&function.params, rewrites, IncludeTypes::No);
    let name = function.name.as_str();
    if is_hook_name(name) {
        let skip = HOOK_MAGIC.unicode_len();
        let len = name.unicode_len();
        assert(name@.subrange(skip as int, len as int) =~= name@.skip(skip as int));
        text.append(name.substring_char(skip, len));
    } else {
        text.append(name);
    }
    text.append("(");
    text.append(params.as_str());
    text.append(")");
    text
}

/// The three lines of the stub.
pub fn render_function_hook(function: &FuncDecl, rewrites: &Rewrites) -> (lines: Vec<String>)
    ensures
        lines.len() == 3,
        lines.deep_view() == spec_function_hook(function.deep_view(), rewrites@),
{
    let declaration = render_function_declaration(function, rewrites).concat(" {");
    let mut invocation = String::new();
    invocation.append("  ");
    invocation.append(render_hook_invocation(function, rewrites).as_str());
    invocation.append(";");
    let mut lines: Vec<String> = Vec::new();
    lines.push(declaration);
    lines.push(invocation);
    lines.push("}".to_owned());
    assert(lines.deep_view() =~= spec_function_hook(function.deep_view(), rewrites@));
    lines
}

/// The stub as text: its three lines, each closed by a newline.
fn render_stub(function: &FuncDecl, rewrites: &Rewrites) -> (text: String)
    ensures
        text@ == spec_stub(function.deep_view(), rewrites@),
{
    let lines = render_function_hook(function, rewrites);
    proof {
        assert(lines.deep_view()[0] == lines@[0]@);
        assert(lines.deep_view()[1] == lines@[1]@);
        assert(lines.deep_view()[2] == lines@[2]@);
    }
    let mut text = String::new();
    text.append(lines[0].as_str());
    text.append("\n");
    text.append(lines[1].as_str());
    text.append("\n");
    text.append(lines[2].as_str());
    text.append("\n");
    text
}

/// The file of rendered hooks: header, stubs, footer, each line closed by a
/// newline.
pub fn render_payload(hooks: &FuncHooks, rewrites: &Rewrites) -> (payload: String)
    ensures
        payload@ == spec_payload(hooks.deep_view(), rewrites@),
{
    let mut payload = String::new();
    payload.append(HOOK_HEADER);
    payload.append("\n");
    let ghost head = payload@;
    let ghost all = hooks.functions.deep_view();
    let mut i: usize = 0;
    proof {
        assert(all.take(0) =~= Seq::empty());
    }
    while i < hooks.functions.len()
        invariant
            i <= hooks.functions.len(),
            all == hooks.functions.deep_view(),
            payload@ == head + spec_stubs(all.take(i as int), rewrites@),
        decreases hooks.functions.len() - i,
    {
        let stub = render_stub(&hooks.functions[i], rewrites);
        proof {
            assert(all.take(i + 1).drop_last() =~= all.take(i as int));
            assert(all.take(i + 1).last() == hooks.functions@[i as int].deep_view());
            let before = spec_stubs(all.take(i as int), rewrites@);
            assert((head + before) + stub@ =~= head + (before + stub@));
        }
        payload.append(stub.as_str());
        i += 1;
    }
    proof {
        assert(all.take(i as int) =~= all);
    }
    payload.append(HOOK_FOOTER);
    payload.append("\n");
    payload
}

} // verus!
