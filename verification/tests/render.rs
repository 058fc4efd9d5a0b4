use deptool::decl::{FieldDecl, FuncDecl, ParamDecl, StructDecl};
use deptool::directive::Directive;
use deptool::hooks::FuncHooks;
use deptool::patch::{HOOK_FOOTER, HOOK_HEADER};
use deptool::render::{
    format_parameter, render_function_declaration, render_function_hook, render_hook_invocation,
    render_parameter_pack, render_payload, IncludeTypes, PrependComma,
};
use deptool::rewrite::Rewrites;

fn param(name: &str, ty: &str) -> ParamDecl {
    ParamDecl { name: name.to_string(), ty: ty.to_string() }
}

fn func(name: &str, return_ty: &str, params: Vec<ParamDecl>) -> FuncDecl {
    FuncDecl { name: name.to_string(), return_ty: return_ty.to_string(), params }
}

fn no_aliases() -> Rewrites {
    Rewrites::from(&Vec::new())
}

fn aliases(pairs: &[(&str, &str)]) -> Rewrites {
    let directives: Vec<Directive> = pairs
        .iter()
        .map(|(record, typename)| Directive::AliasOf {
            typename: typename.to_string(),
            alias: StructDecl {
                name: record.to_string(),
                fields: vec![FieldDecl { name: "f".to_string(), ty: "int".to_string() }],
            },
        })
        .collect();
    Rewrites::from(&directives)
}

#[test]
fn open_renders_with_return() {
    let open = func("AbcMini__open", "int", vec![param("fd", "int")]);
    let lines = render_function_hook(&open, &no_aliases());
    assert_eq!(lines, vec!["int AbcMini__open(int fd) {", "  return open(fd);", "}"]);
}

#[test]
fn void_function_is_called_without_return() {
    let f = func("AbcMini__reset", "void", vec![]);
    assert_eq!(render_function_hook(&f, &no_aliases()), vec!["void AbcMini__reset() {", "  reset();", "}"]);
    let spaced = func("AbcMini__reset", " void", vec![]);
    assert_eq!(render_hook_invocation(&spaced, &no_aliases()), "return reset()");
    let pointer = func("AbcMini__get", "void *", vec![]);
    assert_eq!(render_hook_invocation(&pointer, &no_aliases()), "return get()");
}

#[test]
fn pointer_types_touch_the_name() {
    let f = func(
        "AbcMini__copy",
        "char *",
        vec![param("dst", "char *"), param("src", "const char*"), param("n", "size_t")],
    );
    assert_eq!(
        render_function_declaration(&f, &no_aliases()),
        "char *AbcMini__copy(char *dst, const char*src, size_t n)"
    );
    assert_eq!(render_hook_invocation(&f, &no_aliases()), "return copy(dst, src, n)");
}

#[test]
fn types_are_rewritten_in_the_declaration_only() {
    let rewrites = aliases(&[("widget", "widget_t"), ("void", "nothing")]);
    let f = func(
        "AbcMini__make",
        "widget",
        vec![param("widget", "struct widget *"), param("w", "widget*")],
    );
    assert_eq!(
        render_function_declaration(&f, &rewrites),
        "widget_t AbcMini__make(struct widget_t *widget, widget*w)"
    );
    assert_eq!(render_hook_invocation(&f, &rewrites), "return make(widget, w)");
    let v = func("AbcMini__v", "void", vec![]);
    assert_eq!(render_function_declaration(&v, &rewrites), "nothing AbcMini__v()");
    assert_eq!(render_hook_invocation(&v, &rewrites), "v()");
}

#[test]
fn spacing_goes_by_the_rewritten_type() {
    let rewrites = aliases(&[("handle", "struct handle_s *")]);
    let f = func("AbcMini__use", "handle", vec![param("h", "handle")]);
    assert_eq!(
        render_function_declaration(&f, &rewrites),
        "struct handle_s *AbcMini__use(struct handle_s *h)"
    );
}

#[test]
fn one_parameter_in_each_of_the_four_forms() {
    let p = param("count", "unsigned   long");
    let r = no_aliases();
    assert_eq!(format_parameter(&p, &r, IncludeTypes::Yes, PrependComma::No), "unsigned long count");
    assert_eq!(format_parameter(&p, &r, IncludeTypes::Yes, PrependComma::Yes), ", unsigned long count");
    assert_eq!(format_parameter(&p, &r, IncludeTypes::No, PrependComma::No), "count");
    assert_eq!(format_parameter(&p, &r, IncludeTypes::No, PrependComma::Yes), ", count");
}

#[test]
fn parameter_pack_puts_commas_between() {
    let r = no_aliases();
    let none: Vec<ParamDecl> = vec![];
    assert_eq!(render_parameter_pack(&none, &r, IncludeTypes::Yes), "");
    assert_eq!(render_parameter_pack(&none, &r, IncludeTypes::No), "");
    let three = vec![param("a", "int"), param("b", "char *"), param("c", "long")];
    assert_eq!(render_parameter_pack(&three, &r, IncludeTypes::Yes), "int a, char *b, long c");
    assert_eq!(render_parameter_pack(&three, &r, IncludeTypes::No), "a, b, c");
}

#[test]
fn name_without_the_marker_is_called_as_it_is() {
    let f = func("plain", "int", vec![param("a", "int")]);
    assert_eq!(render_hook_invocation(&f, &no_aliases()), "return plain(a)");
    let inner = func("xAbcMini__y", "int", vec![]);
    assert_eq!(render_hook_invocation(&inner, &no_aliases()), "return xAbcMini__y()");
    let bare = func("AbcMini__", "int", vec![]);
    assert_eq!(render_hook_invocation(&bare, &no_aliases()), "return ()");
}

#[test]
fn payload_is_header_stubs_footer_each_line_closed() {
    let hooks = FuncHooks {
        sourcefile: "widget.c".to_string(),
        functions: vec![
            func("AbcMini__open", "int", vec![param("fd", "int")]),
            func("AbcMini__close", "void", vec![param("w", "widget *")]),
        ],
    };
    let rewrites = aliases(&[("widget", "widget_t")]);
    let expected = format!(
        "{}\nint AbcMini__open(int fd) {{\n  return open(fd);\n}}\nvoid AbcMini__close(widget_t *w) {{\n  close(w);\n}}\n{}\n",
        HOOK_HEADER, HOOK_FOOTER
    );
    assert_eq!(render_payload(&hooks, &rewrites), expected);
    let empty = FuncHooks { sourcefile: "e.c".to_string(), functions: vec![] };
    assert_eq!(render_payload(&empty, &rewrites), format!("{}\n{}\n", HOOK_HEADER, HOOK_FOOTER));
}
