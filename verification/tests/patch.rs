use deptool::decl::{FuncDecl, ParamDecl};
use deptool::hooks::FuncHooks;
use deptool::patch::{
    deliver_hooks, parse_include, patch_target, IncludeError, PatchError, HOOKDIR, HOOK_FOOTER,
    HOOK_HEADER,
};
use deptool::rewrite::Rewrites;

fn block(file: &str) -> String {
    format!("{}\n#include \"{}\"\n{}\n", HOOK_HEADER, file, HOOK_FOOTER)
}

#[test]
fn markers_are_the_literal_lines() {
    assert_eq!(HOOK_HEADER, "// AUTO-GENERATED BY ABC-MINI DEPTOOL -- DO NOT MODIFY");
    assert_eq!(HOOK_FOOTER, "// END AUTO-GENERATED BY ABC-MINI DEPTOOL");
    assert_eq!(HOOKDIR, "hooks");
}

#[test]
fn parse_include_gives_the_quoted_file() {
    assert_eq!(parse_include("#include \"hooks/widget.c\""), Ok("hooks/widget.c"));
    assert_eq!(parse_include("  #include   \"a.h\"  "), Ok("a.h"));
    assert_eq!(parse_include("#include\"a.h\""), Ok("a.h"));
    assert_eq!(parse_include("#include \"\""), Ok(""));
    assert_eq!(parse_include("junk #include \"a.h\""), Ok("a.h"));
    assert_eq!(parse_include("#include \"a \"b\" c\""), Ok("a \"b\" c"));
}

#[test]
fn parse_include_refuses_what_names_no_quoted_file() {
    assert_eq!(parse_include(""), Err(IncludeError::MissingInclude));
    assert_eq!(parse_include("int x;"), Err(IncludeError::MissingInclude));
    assert_eq!(parse_include("#includ \"a.h\""), Err(IncludeError::MissingInclude));
    assert_eq!(parse_include("#include <a.h>"), Err(IncludeError::MissingQuotes));
    assert_eq!(parse_include("#include \"a.h"), Err(IncludeError::MissingQuotes));
    assert_eq!(parse_include("#include a.h\""), Err(IncludeError::MissingQuotes));
    assert_eq!(parse_include("#include \""), Err(IncludeError::MissingQuotes));
    assert_eq!(parse_include("#include"), Err(IncludeError::MissingQuotes));
}

#[test]
fn unmarked_target_without_final_newline_gets_one_newline_and_the_block() {
    let patched = patch_target("int main(void) { return 0; }", "hooks/main.c");
    assert_eq!(
        patched,
        Ok(Some(format!("int main(void) {{ return 0; }}\n{}", block("hooks/main.c"))))
    );
}

#[test]
fn unmarked_target_with_final_newline_gets_the_block_only() {
    let patched = patch_target("int x;\n", "hooks/x.c");
    assert_eq!(patched, Ok(Some(format!("int x;\n{}", block("hooks/x.c")))));
    let doubled = patch_target("int x;\n\n", "hooks/x.c");
    assert_eq!(doubled, Ok(Some(format!("int x;\n\n{}", block("hooks/x.c")))));
}

#[test]
fn empty_target_gets_a_newline_and_the_block() {
    assert_eq!(patch_target("", "hooks/e.c"), Ok(Some(format!("\n{}", block("hooks/e.c")))));
}

#[test]
fn header_without_footer_is_unmatched_at_the_headers_line() {
    let content = format!("int a;\nint b;\n{}\n#include \"hooks/w.c\"\n", HOOK_HEADER);
    assert_eq!(patch_target(&content, "hooks/w.c"), Err(PatchError::UnmatchedHeader { line: 3 }));
    let only = HOOK_HEADER.to_string();
    assert_eq!(patch_target(&only, "hooks/w.c"), Err(PatchError::UnmatchedHeader { line: 1 }));
    let junk = format!("{}\nint x;\n{}\n", HOOK_HEADER, HOOK_HEADER);
    assert_eq!(patch_target(&junk, "hooks/w.c"), Err(PatchError::UnmatchedHeader { line: 1 }));
}

#[test]
fn footer_without_header_is_unmatched() {
    let content = format!("int a;\n{}\n", HOOK_FOOTER);
    assert_eq!(patch_target(&content, "hooks/w.c"), Err(PatchError::UnmatchedFooter { line: 2 }));
}

#[test]
fn second_header_before_a_footer_is_a_duplicate() {
    let content = format!("{}\n#include \"hooks/w.c\"\n  {}  \n{}\n", HOOK_HEADER, HOOK_HEADER, HOOK_FOOTER);
    assert_eq!(patch_target(&content, "hooks/w.c"), Err(PatchError::DuplicateHeader { line: 3 }));
}

#[test]
fn line_inside_the_block_must_name_a_quoted_file() {
    let content = format!("{}\nint x;\n{}\n", HOOK_HEADER, HOOK_FOOTER);
    assert_eq!(
        patch_target(&content, "hooks/w.c"),
        Err(PatchError::BadInclude { line: 2, cause: IncludeError::MissingInclude })
    );
    let early = format!("{}\nint x;\n{}\n{}\n", HOOK_HEADER, HOOK_HEADER, HOOK_FOOTER);
    assert_eq!(
        patch_target(&early, "hooks/w.c"),
        Err(PatchError::BadInclude { line: 2, cause: IncludeError::MissingInclude })
    );
    let angled = format!("{}\n#include \"hooks/w.c\"\n#include <w.h>\n{}\n", HOOK_HEADER, HOOK_FOOTER);
    assert_eq!(
        patch_target(&angled, "hooks/w.c"),
        Err(PatchError::BadInclude { line: 3, cause: IncludeError::MissingQuotes })
    );
    let blank = format!("{}\n\n{}\n", HOOK_HEADER, HOOK_FOOTER);
    assert_eq!(
        patch_target(&blank, "hooks/w.c"),
        Err(PatchError::BadInclude { line: 2, cause: IncludeError::MissingInclude })
    );
}

#[test]
fn complete_block_for_another_file_is_refused() {
    let content = format!("int a;\n{}", block("hooks/other.c"));
    assert_eq!(patch_target(&content, "hooks/w.c"), Err(PatchError::ForeignBlock { line: 2 }));
    let none = format!("{}\n{}\n", HOOK_HEADER, HOOK_FOOTER);
    assert_eq!(patch_target(&none, "hooks/w.c"), Err(PatchError::ForeignBlock { line: 1 }));
}

#[test]
fn block_in_place_is_left_alone() {
    let content = format!("int a;\n{}int b;\n", block("hooks/w.c"));
    assert_eq!(patch_target(&content, "hooks/w.c"), Ok(None));
    let indented = format!("\t{}\r\n #include  \"hooks/w.c\" \r\n{} \r\n", HOOK_HEADER, HOOK_FOOTER);
    assert_eq!(patch_target(&indented, "hooks/w.c"), Ok(None));
    let several = format!(
        "{}\n#include \"hooks/a.c\"\n#include \"hooks/w.c\"\n{}\n",
        HOOK_HEADER, HOOK_FOOTER
    );
    assert_eq!(patch_target(&several, "hooks/w.c"), Ok(None));
}

#[test]
fn nothing_is_read_after_the_footer() {
    let content = format!("{}{}\nnot an include\n{}\n", block("hooks/w.c"), HOOK_HEADER, HOOK_FOOTER);
    assert_eq!(patch_target(&content, "hooks/w.c"), Ok(None));
}

#[test]
fn patching_twice_changes_nothing_the_second_time() {
    for content in ["", "int x;", "int x;\n", "a\n\nb", "\n", "// comment\r\n"] {
        let once = patch_target(content, "hooks/t.c").unwrap().unwrap();
        assert_eq!(patch_target(&once, "hooks/t.c"), Ok(None));
    }
}

#[test]
fn file_name_with_a_newline_breaks_the_second_patch() {
    let once = patch_target("int x;\n", "hooks/a\nb.c").unwrap().unwrap();
    assert_eq!(
        patch_target(&once, "hooks/a\nb.c"),
        Err(PatchError::BadInclude { line: 3, cause: IncludeError::MissingQuotes })
    );
    let marker = format!("hooks/a\n{}", HOOK_HEADER);
    let twice = patch_target("int x;\n", &marker).unwrap().unwrap();
    assert_eq!(
        patch_target(&twice, &marker),
        Err(PatchError::BadInclude { line: 3, cause: IncludeError::MissingQuotes })
    );
}

#[test]
fn delivery_renders_the_payload_and_patches_for_the_hook_file() {
    let hooks = FuncHooks {
        sourcefile: "src/widget.c".to_string(),
        functions: vec![FuncDecl {
            name: "AbcMini__close".to_string(),
            return_ty: "void".to_string(),
            params: vec![ParamDecl { name: "fd".to_string(), ty: "int".to_string() }],
        }],
    };
    let rewrites = Rewrites::from(&Vec::new());
    let delivery = deliver_hooks(&hooks, &rewrites, "widget.c", "int x;");
    assert_eq!(delivery.hookfile, "hooks/widget.c");
    assert_eq!(
        delivery.payload,
        format!("{}\nvoid AbcMini__close(int fd) {{\n  close(fd);\n}}\n{}\n", HOOK_HEADER, HOOK_FOOTER)
    );
    assert_eq!(delivery.patch, Ok(Some(format!("int x;\n{}", block("hooks/widget.c")))));
    let again = deliver_hooks(&hooks, &rewrites, "widget.c", delivery.patch.unwrap().unwrap().as_str());
    assert_eq!(again.patch, Ok(None));
    let broken = deliver_hooks(&hooks, &rewrites, "widget.c", HOOK_HEADER);
    assert_eq!(broken.patch, Err(PatchError::UnmatchedHeader { line: 1 }));
    assert_eq!(broken.payload, delivery.payload);
}

#[test]
fn patch_errors_have_their_line_and_wording() {
    let duplicate = PatchError::DuplicateHeader { line: 4 };
    assert_eq!((duplicate.line(), duplicate.message()), (4, "duplicate hooks header"));
    let footer = PatchError::UnmatchedFooter { line: 1 };
    assert_eq!((footer.line(), footer.message()), (1, "unmatched hooks footer"));
    let header = PatchError::UnmatchedHeader { line: 9 };
    assert_eq!((header.line(), header.message()), (9, "unmatched hooks header"));
    let missing = PatchError::BadInclude { line: 2, cause: IncludeError::MissingInclude };
    assert_eq!((missing.line(), missing.message()), (2, "expected #include"));
    let unquoted = PatchError::BadInclude { line: 3, cause: IncludeError::MissingQuotes };
    assert_eq!((unquoted.line(), unquoted.message()), (3, "expected #include \"file.h\""));
    let foreign = PatchError::ForeignBlock { line: 7 };
    assert_eq!((foreign.line(), foreign.message()), (7, "hooks block does not include the hooks file"));
}
