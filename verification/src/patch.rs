//! The splice: a target file gets, once, a bracketed block that names the file
//! of rendered hooks; a file that already holds the block is left as it is.

use crate::hooks::FuncHooks;
use crate::render::{render_payload, spec_payload};
use crate::rewrite::Rewrites;
use crate::text::{
    chars_of, cuts, find, find_sub, lemma_split_concat, lemma_split_whole, range_eq, split,
    split_ranges, trim, trim_end, trim_range, trim_start,
};
use vstd::prelude::*;
use vstd::string::StrSliceExecFns;
use vstd::string::StringExecFns;

verus! {

/// The line that opens the bracketed block.
pub const HOOK_HEADER: &'static str = "// AUTO-GENERATED BY ABC-MINI DEPTOOL -- DO NOT MODIFY";

/// The line that closes the bracketed block.
pub const HOOK_FOOTER: &'static str = "// END AUTO-GENERATED BY ABC-MINI DEPTOOL";

/// The directory, below the payload directory, that holds the rendered hooks.
pub const HOOKDIR: &'static str = "hooks";

/// The word that a line of the bracketed block must hold.
pub const INCLUDE_WORD: &'static str = "#include";

/// Why a line does not name a quoted file.
#[derive(Clone, Copy, Debug, PartialEq, Eq, Structural)]
pub enum IncludeError {
    /// The line holds no `#include`.
    MissingInclude,
    /// What follows `#include` is not a file between double quotes.
    MissingQuotes,
}

/// Why a target file cannot be patched. Lines count from 1.
#[derive(Clone, Copy, Debug, PartialEq, Eq, Structural)]
pub enum PatchError {
    /// A second header stands at `line`, before any footer.
    DuplicateHeader { line: usize },
    /// A footer stands at `line` with no header before it.
    UnmatchedFooter { line: usize },
    /// The header at `line` has no footer after it.
    UnmatchedHeader { line: usize },
    /// The line at `line`, inside the block, names no quoted file.
    BadInclude { line: usize, cause: IncludeError },
    /// The block whose header stands at `line` is complete but does not name
    /// the file of rendered hooks.
    ForeignBlock { line: usize },
}

impl PatchError {
    /// The line that the error is reported at.
    pub open spec fn spec_line(self) -> usize {
        match self {
            PatchError::DuplicateHeader { line } => line,
            PatchError::UnmatchedFooter { line } => line,
            PatchError::UnmatchedHeader { line } => line,
            PatchError::BadInclude { line, .. } => line,
            PatchError::ForeignBlock { line } => line,
        }
    }

    /// The wording of the error.
    pub open spec fn spec_message(self) -> Seq<char> {
        match self {
            PatchError::DuplicateHeader { .. } => "duplicate hooks header"@,
            PatchError::UnmatchedFooter { .. } => "unmatched hooks footer"@,
            PatchError::UnmatchedHeader { .. } => "unmatched hooks header"@,
            PatchError::BadInclude { cause: IncludeError::MissingInclude, .. } => "expected #include"@,
            PatchError::BadInclude {
                cause: IncludeError::MissingQuotes,
                ..
            } => "expected #include \"file.h\""@,
            PatchError::ForeignBlock { .. } => "hooks block does not include the hooks file"@,
        }
    }

    /// The line that the error is reported at.
    pub fn line(&self) -> (line: usize)
        ensures
            line == self.spec_line(),
    {
        match self {
            PatchError::DuplicateHeader { line } => *line,
            PatchError::UnmatchedFooter { line } => *line,
            PatchError::UnmatchedHeader { line } => *line,
            PatchError::BadInclude { line, .. } => *line,
            PatchError::ForeignBlock { line } => *line,
        }
    }

    /// The wording of the error.
    pub fn message(&self) -> (text: &'static str)
        ensures
            text@ == self.spec_message(),
    {
        match self {
            PatchError::DuplicateHeader { .. } => "duplicate hooks header",
            PatchError::UnmatchedFooter { .. } => "unmatched hooks footer",
            PatchError::UnmatchedHeader { .. } => "unmatched hooks header",
            PatchError::BadInclude { cause: IncludeError::MissingInclude, .. } => "expected #include",
            PatchError::BadInclude {
                cause: IncludeError::MissingQuotes,
                ..
            } => "expected #include \"file.h\"",
            PatchError::ForeignBlock { .. } => "hooks block does not include the hooks file",
        }
    }
}

/// The file that `line` names: what stands between double quotes after the
/// first `#include`, whitespace around the line and around the quotes aside.
pub open spec fn spec_parse_include(line: Seq<char>) -> Result<Seq<char>, IncludeError> {
    let line = trim(line);
    match find(line, INCLUDE_WORD@) {
        None => Err(IncludeError::MissingInclude),
        Some(i) => {
            let file = trim(line.skip(i + INCLUDE_WORD@.len()));
            if file.len() >= 2 && file.first() == '"' && file.last() == '"' {
                Ok(file.subrange(1, file.len() - 1))
            } else {
                Err(IncludeError::MissingQuotes)
            }
        },
    }
}

/// Whether `line`, whitespace around it aside, is the header.
pub open spec fn is_header(line: Seq<char>) -> bool {
    trim(line) == HOOK_HEADER@
}

/// Whether `line`, whitespace around it aside, is the footer.
pub open spec fn is_footer(line: Seq<char>) -> bool {
    trim(line) == HOOK_FOOTER@
}

/// Whether the scan of a block ends at `line`: at a marker, or at a line that
/// names no quoted file.
pub open spec fn ends_block(line: Seq<char>) -> bool {
    is_header(line) || is_footer(line) || spec_parse_include(line) is Err
}

/// The first line at or after `from` that is a marker, or `lines.len()`.
pub open spec fn first_marker(lines: Seq<Seq<char>>, from: int) -> int
    decreases lines.len() - from,
{
    if from < 0 || from >= lines.len() {
        lines.len() as int
    } else if is_header(lines[from]) || is_footer(lines[from]) {
        from
    } else {
        first_marker(lines, from + 1)
    }
}

/// The first line at or after `from` that ends the scan of a block, or
/// `lines.len()`.
pub open spec fn first_block_end(lines: Seq<Seq<char>>, from: int) -> int
    decreases lines.len() - from,
{
    if from < 0 || from >= lines.len() {
        lines.len() as int
    } else if ends_block(lines[from]) {
        from
    } else {
        first_block_end(lines, from + 1)
    }
}

/// The first line at or after `from` that is a footer, or `lines.len()`.
pub open spec fn first_footer(lines: Seq<Seq<char>>, from: int) -> int
    decreases lines.len() - from,
{
    if from < 0 || from >= lines.len() {
        lines.len() as int
    } else if is_footer(lines[from]) {
        from
    } else {
        first_footer(lines, from + 1)
    }
}

/// Whether one of the lines `lo..hi` names `file`.
pub open spec fn names_file(lines: Seq<Seq<char>>, lo: int, hi: int, file: Seq<char>) -> bool {
    exists|k: int|
        lo <= k < hi && #[trigger] spec_parse_include(lines[k]) == Ok::<_, IncludeError>(file)
}

/// The line that names `file`.
pub open spec fn include_line(file: Seq<char>) -> Seq<char> {
    INCLUDE_WORD@ + " \""@ + file + "\""@
}

/// The bracketed block that names `file`: header, the naming line, footer.
pub open spec fn hooks_block(file: Seq<char>) -> Seq<char> {
    HOOK_HEADER@ + "\n"@ + include_line(file) + "\n"@ + HOOK_FOOTER@ + "\n"@
}

/// `content` with the block that names `file` at its end, after a newline
/// where `content` does not end in one.
pub open spec fn appended(content: Seq<char>, file: Seq<char>) -> Seq<char> {
    if content.len() > 0 && content.last() == '\n' {
        content + hooks_block(file)
    } else {
        content + "\n"@ + hooks_block(file)
    }
}

/// What patching `content` for `file` gives: `Ok(None)` where the block is in
/// place, `Ok(Some(text))` where `text` is to replace `content`.
///
/// The lines are those between newlines. Up to the first marker nothing is
/// read. A footer there is unmatched. A header there opens the block, which
/// the first footer after it closes; without one the header is unmatched.
/// Between the two, each line must name a quoted file, and a header is a
/// duplicate: the first line that is out of order is reported. What follows
/// the footer is not read.
pub open spec fn spec_patch(content: Seq<char>, file: Seq<char>) -> Result<
    Option<Seq<char>>,
    PatchError,
> {
    let lines = split(content, '\n');
    let h = first_marker(lines, 0);
    if h >= lines.len() {
        Ok(Some(appended(content, file)))
    } else if !is_header(lines[h]) {
        Err(PatchError::UnmatchedFooter { line: (h + 1) as usize })
    } else {
        let e = first_block_end(lines, h + 1);
        if first_footer(lines, h + 1) >= lines.len() {
            Err(PatchError::UnmatchedHeader { line: (h + 1) as usize })
        } else if is_header(lines[e]) {
            Err(PatchError::DuplicateHeader { line: (e + 1) as usize })
        } else if is_footer(lines[e]) {
            if names_file(lines, h + 1, e, file) {
                Ok(None)
            } else {
                Err(PatchError::ForeignBlock { line: (h + 1) as usize })
            }
        } else {
            Err(
                PatchError::BadInclude {
                    line: (e + 1) as usize,
                    cause: spec_parse_include(lines[e])->Err_0,
                },
            )
        }
    }
}

/// The first footer is the one footer after a run of lines without one.
pub proof fn lemma_first_footer_is(lines: Seq<Seq<char>>, from: int, i: int)
    requires
        0 <= from <= i <= lines.len(),
        forall|k: int| from <= k < i ==> !is_footer(#[trigger] lines[k]),
        i < lines.len() ==> is_footer(lines[i]),
    ensures
        first_footer(lines, from) == i,
    decreases i - from,
{
    if from < i {
        lemma_first_footer_is(lines, from + 1, i);
    }
}

/// A header that no footer follows is unmatched, whatever the lines after
/// it hold.
pub proof fn lemma_unclosed_header(content: Seq<char>, file: Seq<char>, h: int)
    requires
        0 <= h < split(content, '\n').len(),
        is_header(split(content, '\n')[h]),
        forall|k: int|
            0 <= k < h ==> !is_header(#[trigger] split(content, '\n')[k]) && !is_footer(
                split(content, '\n')[k],
            ),
        forall|k: int| h < k < split(content, '\n').len() ==> !is_footer(
            #[trigger] split(content, '\n')[k],
        ),
    ensures
        spec_patch(content, file) == Err::<Option<Seq<char>>, _>(
            PatchError::UnmatchedHeader { line: (h + 1) as usize },
        ),
{
    let lines = split(content, '\n');
    lemma_first_marker_is(lines, 0, h);
    lemma_first_footer_is(lines, h + 1, lines.len() as int);
}

/// The first marker is the one marker after a run of lines without one.
pub proof fn lemma_first_marker_is(lines: Seq<Seq<char>>, from: int, i: int)
    requires
        0 <= from <= i <= lines.len(),
        forall|k: int| from <= k < i ==> !is_header(#[trigger] lines[k]) && !is_footer(lines[k]),
        i < lines.len() ==> is_header(lines[i]) || is_footer(lines[i]),
    ensures
        first_marker(lines, from) == i,
    decreases i - from,
{
    if from < i {
        lemma_first_marker_is(lines, from + 1, i);
    }
}

/// The scan of a block ends at the one line that ends it after a run of
/// lines that do not.
pub proof fn lemma_first_block_end_is(lines: Seq<Seq<char>>, from: int, i: int)
    requires
        0 <= from <= i <= lines.len(),
        forall|k: int| from <= k < i ==> !ends_block(#[trigger] lines[k]),
        i < lines.len() ==> ends_block(lines[i]),
    ensures
        first_block_end(lines, from) == i,
    decreases i - from,
{
    if from < i {
        lemma_first_block_end_is(lines, from + 1, i);
    }
}

/// Up to the first marker no line is a marker.
pub proof fn lemma_first_marker_bounds(lines: Seq<Seq<char>>, from: int)
    requires
        0 <= from,
    ensures
        from <= first_marker(lines, from) || lines.len() <= first_marker(lines, from),
        first_marker(lines, from) <= lines.len(),
        forall|k: int|
            from <= k < first_marker(lines, from) ==> !is_header(#[trigger] lines[k]) && !is_footer(
                lines[k],
            ),
    decreases lines.len() - from,
{
    if from < lines.len() && !(is_header(lines[from]) || is_footer(lines[from])) {
        lemma_first_marker_bounds(lines, from + 1);
    }
}

/// The header is one line that trimming leaves as it is.
proof fn lemma_header_text()
    ensures
        HOOK_HEADER@.len() == 54,
        HOOK_HEADER@[0] == '/',
        trim(HOOK_HEADER@) == HOOK_HEADER@,
        forall|i: int| 0 <= i < 54 ==> HOOK_HEADER@[i] != '\n',
{
    reveal_strlit("// AUTO-GENERATED BY ABC-MINI DEPTOOL -- DO NOT MODIFY");
    assert(HOOK_HEADER@.last() == 'Y');
}

/// The footer is one line that trimming leaves as it is.
proof fn lemma_footer_text()
    ensures
        HOOK_FOOTER@.len() == 41,
        HOOK_FOOTER@[0] == '/',
        trim(HOOK_FOOTER@) == HOOK_FOOTER@,
        forall|i: int| 0 <= i < 41 ==> HOOK_FOOTER@[i] != '\n',
{
    reveal_strlit("// END AUTO-GENERATED BY ABC-MINI DEPTOOL");
    assert(HOOK_FOOTER@.last() == 'L');
}

/// What the markers and the naming line are made of.
proof fn lemma_marker_lines(file: Seq<char>)
    requires
        forall|i: int| 0 <= i < file.len() ==> file[i] != '\n',
    ensures
        "\n"@ == seq!['\n'],
        is_header(HOOK_HEADER@),
        is_footer(HOOK_FOOTER@),
        !is_footer(HOOK_HEADER@),
        !is_header(HOOK_FOOTER@),
        !is_header(include_line(file)),
        !is_footer(include_line(file)),
        spec_parse_include(include_line(file)) == Ok::<_, IncludeError>(file),
        split(HOOK_HEADER@, '\n') == seq![HOOK_HEADER@],
        split(HOOK_FOOTER@, '\n') == seq![HOOK_FOOTER@],
        split(include_line(file), '\n') == seq![include_line(file)],
{
    reveal_strlit("\n");
    reveal_strlit("#include");
    reveal_strlit(" \"");
    reveal_strlit("\"");
    lemma_header_text();
    lemma_footer_text();
    assert("\n"@ =~= seq!['\n']);
    let header = HOOK_HEADER@;
    let footer = HOOK_FOOTER@;
    let line = include_line(file);
    lemma_split_whole(header, '\n');
    lemma_split_whole(footer, '\n');
    lemma_split_whole(line, '\n');
    assert(line.len() == file.len() + 11);
    assert(line[0] == '#');
    assert(line.last() == '"');
    assert(trim(line) == line);
    assert(line.subrange(0, INCLUDE_WORD@.len() as int) =~= INCLUDE_WORD@);
    let rest = line.skip(INCLUDE_WORD@.len() as int);
    let quoted = "\""@ + file + "\""@;
    assert(rest.skip(1) =~= quoted);
    assert(rest[0] == ' ');
    assert(quoted[0] == '"');
    assert(quoted.last() == '"');
    assert(trim_start(quoted) == quoted);
    assert(trim_start(rest) == trim_start(rest.skip(1)));
    assert(trim_end(quoted) == quoted);
    assert(trim(rest) == quoted);
    assert(quoted.subrange(1, quoted.len() - 1) =~= file);
}

/// The text that a successful patch leaves in the target.
pub open spec fn patched(content: Seq<char>, file: Seq<char>) -> Seq<char> {
    match spec_patch(content, file) {
        Ok(Some(text)) => text,
        _ => content,
    }
}

/// Patching is idempotent. Where patching `content` for `file` succeeds, and
/// `file` holds no newline, patching the text that it leaves finds the block
/// in place and changes nothing.
pub proof fn lemma_patch_idempotent(content: Seq<char>, file: Seq<char>)
    requires
        forall|i: int| 0 <= i < file.len() ==> file[i] != '\n',
        spec_patch(content, file) is Ok,
    ensures
        spec_patch(patched(content, file), file) == Ok::<_, PatchError>(None::<Seq<char>>),
        patched(patched(content, file), file) == patched(content, file),
{
    if spec_patch(content, file) == Ok::<_, PatchError>(None::<Seq<char>>) {
    } else {
        lemma_marker_lines(file);
        let nl = seq!['\n'];
        let before = if content.len() > 0 && content.last() == '\n' {
            content.drop_last()
        } else {
            content
        };
        let old_lines = split(content, '\n');
        let kept = split(before, '\n');
        let text = appended(content, file);
        let line = include_line(file);
        let empty = Seq::<char>::empty();
        assert(kept.len() <= old_lines.len() && forall|k: int|
            0 <= k < kept.len() ==> kept[k] == old_lines[k]) by {
            if content.len() > 0 && content.last() == '\n' {
                assert(content =~= before + nl + empty);
                lemma_split_concat(before, empty, '\n');
            }
        }
        lemma_first_marker_bounds(old_lines, 0);
        let tail3 = HOOK_FOOTER@ + nl + empty;
        let tail2 = line + nl + tail3;
        let tail1 = HOOK_HEADER@ + nl + tail2;
        assert(text =~= before + nl + tail1);
        lemma_split_concat(before, tail1, '\n');
        lemma_split_concat(HOOK_HEADER@, tail2, '\n');
        lemma_split_concat(line, tail3, '\n');
        lemma_split_concat(HOOK_FOOTER@, empty, '\n');
        let lines = split(text, '\n');
        let p = kept.len() as int;
        assert(lines =~= kept + seq![HOOK_HEADER@, line, HOOK_FOOTER@, empty]);
        assert(lines[p] == HOOK_HEADER@);
        assert(lines[p + 1] == line);
        assert(lines[p + 2] == HOOK_FOOTER@);
        assert forall|k: int| 0 <= k < p implies !is_header(#[trigger] lines[k]) && !is_footer(
            lines[k],
        ) by {
            assert(lines[k] == old_lines[k]);
        }
        lemma_first_marker_is(lines, 0, p);
        lemma_first_footer_is(lines, p + 1, p + 2);
        lemma_first_block_end_is(lines, p + 1, p + 2);
    }
}

/// The bounds, in `v`, of the file that the line `v[lo..hi]` names.
pub fn parse_include_range(v: &Vec<char>, lo: usize, hi: usize) -> (r: Result<
    (usize, usize),
    IncludeError,
>)
    requires
        lo <= hi <= v.len(),
    ensures
        match r {
            Ok((a, b)) => lo <= a <= b <= hi && spec_parse_include(
                v@.subrange(lo as int, hi as int),
            ) == Ok::<_, IncludeError>(v@.subrange(a as int, b as int)),
            Err(e) => spec_parse_include(v@.subrange(lo as int, hi as int)) == Err::<
                Seq<char>,
                _,
            >(e),
        },
{
    let word = chars_of(INCLUDE_WORD);
    let (ta, tb) = trim_range(v, lo, hi);
    match find_sub(v, ta, tb, &word) {
        None => Err(IncludeError::MissingInclude),
        Some(i) => {
            let ghost line = v@.subrange(ta as int, tb as int);
            let rest = i + word.len();
            assert(line.skip(i - ta + word@.len()) =~= v@.subrange(rest as int, tb as int));
            let (fa, fb) = trim_range(v, rest, tb);
            if fb - fa >= 2 && v[fa] == '"' && v[fb - 1] == '"' {
                assert(v@.subrange(fa as int, fb as int).subrange(1, fb - fa - 1) =~= v@.subrange(
                    fa + 1,
                    fb - 1,
                ));
                Ok((fa + 1, fb - 1))
            } else {
                Err(IncludeError::MissingQuotes)
            }
        },
    }
}

/// The file that `line` names between double quotes after `#include`.
pub fn parse_include(line: &str) -> (r: Result<&str, IncludeError>)
    ensures
        match r {
            Ok(file) => spec_parse_include(line@) == Ok::<_, IncludeError>(file@),
            Err(e) => spec_parse_include(line@) == Err::<Seq<char>, _>(e),
        },
{
    let v = chars_of(line);
    assert(v@.subrange(0, v.len() as int) =~= v@);
    match parse_include_range(&v, 0, v.len()) {
        Ok((a, b)) => Ok(line.substring_char(a, b)),
        Err(e) => Err(e),
    }
}

/// `content` with the block that names `file` at its end.
fn append_block(content: &str, ends_in_newline: bool, file: &str) -> (text: String)
    requires
        ends_in_newline == (content@.len() > 0 && content@.last() == '\n'),
    ensures
        text@ == appended(content@, file@),
{
    let mut text = content.to_owned();
    if !ends_in_newline {
        text.append("\n");
    }
    text.append(HOOK_HEADER);
    text.append("\n");
    text.append(INCLUDE_WORD);
    text.append(" \"");
    text.append(file);
    text.append("\"");
    text.append("\n");
    text.append(HOOK_FOOTER);
    text.append("\n");
    assert(text@ =~= appended(content@, file@));
    text
}

/// Patches `content` for `file`: `Ok(None)` where the block that names `file`
/// is in place, `Ok(Some(text))` where `text`, with the block at its end, is
/// to replace `content`, and the error where the markers or the lines between
/// them are not in order.
pub fn patch_target(content: &str, file: &str) -> (r: Result<Option<String>, PatchError>)
    ensures
        match r {
            Ok(None) => spec_patch(content@, file@) == Ok::<_, PatchError>(None::<Seq<char>>),
            Ok(Some(text)) => spec_patch(content@, file@) == Ok::<_, PatchError>(Some(text@)),
            Err(e) => spec_patch(content@, file@) == Err::<Option<Seq<char>>, _>(e),
        },
{
    let v = chars_of(content);
    let wanted = chars_of(file);
    let header = chars_of(HOOK_HEADER);
    let footer = chars_of(HOOK_FOOTER);
    let bounds = split_ranges(&v, '\n');
    let ghost lines = split(v@, '\n');
    let n = bounds.len();
    let mut h: usize = 0;
    let mut at_header = false;
    while h < n && !at_header
        invariant
            n == bounds.len(),
            h <= n,
            v@ == content@,
            header@ == HOOK_HEADER@,
            footer@ == HOOK_FOOTER@,
            lines == split(v@, '\n'),
            cuts(v@, bounds@, lines),
            forall|k: int| 0 <= k < h ==> !is_header(#[trigger] lines[k]) && !is_footer(lines[k]),
            at_header ==> h < n && is_header(lines[h as int]),
        decreases n - h + if at_header { 0int } else { 1int },
    {
        let (lo, hi) = bounds[h];
        let (a, b) = trim_range(&v, lo, hi);
        if range_eq(&v, a, b, &header) {
            at_header = true;
        } else if range_eq(&v, a, b, &footer) {
            proof {
                lemma_first_marker_is(lines, 0, h as int);
            }
            return Err(PatchError::UnmatchedFooter { line: h + 1 });
        } else {
            h += 1;
        }
    }
    proof {
        lemma_first_marker_is(lines, 0, h as int);
    }
    if h >= n {
        let ends_in_newline = v.len() > 0 && v[v.len() - 1] == '\n';
        return Ok(Some(append_block(content, ends_in_newline, file)));
    }
    let mut f: usize = h + 1;
    let mut at_footer = false;
    while f < n && !at_footer
        invariant
            n == bounds.len(),
            h < f <= n,
            footer@ == HOOK_FOOTER@,
            lines == split(v@, '\n'),
            cuts(v@, bounds@, lines),
            forall|k: int| h < k < f ==> !is_footer(#[trigger] lines[k]),
            at_footer ==> f < n && is_footer(lines[f as int]),
        decreases n - f + if at_footer { 0int } else { 1int },
    {
        let (lo, hi) = bounds[f];
        let (a, b) = trim_range(&v, lo, hi);
        if range_eq(&v, a, b, &footer) {
            at_footer = true;
        } else {
            f += 1;
        }
    }
    proof {
        lemma_first_footer_is(lines, h + 1, f as int);
    }
    if f >= n {
        return Err(PatchError::UnmatchedHeader { line: h + 1 });
    }
    let mut found = false;
    let mut e: usize = h + 1;
    while e < f
        invariant
            n == bounds.len(),
            h < e <= f < n,
            v@ == content@,
            wanted@ == file@,
            header@ == HOOK_HEADER@,
            lines == split(v@, '\n'),
            cuts(v@, bounds@, lines),
            first_marker(lines, 0) == h,
            is_header(lines[h as int]),
            first_footer(lines, h + 1) == f,
            is_footer(lines[f as int]),
            forall|k: int| h < k < f ==> !is_footer(#[trigger] lines[k]),
            forall|k: int| h < k < e ==> !ends_block(#[trigger] lines[k]),
            found == names_file(lines, h + 1, e as int, file@),
        decreases f - e,
    {
        let (lo, hi) = bounds[e];
        let (a, b) = trim_range(&v, lo, hi);
        if range_eq(&v, a, b, &header) {
            proof {
                lemma_first_block_end_is(lines, h + 1, e as int);
            }
            return Err(PatchError::DuplicateHeader { line: e + 1 });
        }
        match parse_include_range(&v, lo, hi) {
            Err(cause) => {
                proof {
                    lemma_first_block_end_is(lines, h + 1, e as int);
                }
                return Err(PatchError::BadInclude { line: e + 1, cause });
            },
            Ok((fa, fb)) => {
                if range_eq(&v, fa, fb, &wanted) {
                    found = true;
                }
            },
        }
        e += 1;
    }
    proof {
        lemma_header_text();
        lemma_footer_text();
        lemma_first_block_end_is(lines, h + 1, f as int);
    }
    if found {
        Ok(None)
    } else {
        Err(PatchError::ForeignBlock { line: h + 1 })
    }
}

/// What is to be done for one group of hooks: the file of rendered hooks
/// and its text, and what patching the target gave.
#[derive(Debug, PartialEq, Eq)]
pub struct Delivery {
    /// Where the rendered hooks go, seen from the payload directory, and
    /// what the block in the target names.
    pub hookfile: String,
    /// The text of the rendered hooks. It is written whatever `patch` holds.
    pub payload: String,
    /// `Ok(None)` where the target is left as it is, `Ok(Some(text))` where
    /// `text` replaces it.
    pub patch: Result<Option<String>, PatchError>,
}

/// The file of rendered hooks for the target named `target_name`.
pub open spec fn spec_hookfile(target_name: Seq<char>) -> Seq<char> {
    HOOKDIR@ + "/"@ + target_name
}

/// Renders the hooks of one group and patches the target for them.
/// `target_name` is the last component of the target's path and
/// `target_content` what the target holds.
pub fn deliver_hooks(
    hooks: &FuncHooks,
    rewrites: &Rewrites,
    target_name: &str,
    target_content: &str,
) -> (delivery: Delivery)
    ensures
        delivery.hookfile@ == spec_hookfile(target_name@),
        delivery.payload@ == spec_payload(hooks.deep_view(), rewrites@),
        match delivery.patch {
            Ok(None) => spec_patch(target_content@, spec_hookfile(target_name@)) == Ok::<
                _,
                PatchError,
            >(None::<Seq<char>>),
            Ok(Some(text)) => spec_patch(target_content@, spec_hookfile(target_name@)) == Ok::<
                _,
                PatchError,
            >(Some(text@)),
            Err(e) => spec_patch(target_content@, spec_hookfile(target_name@)) == Err::<
                Option<Seq<char>>,
                _,
            >(e),
        },
{
    let payload = render_payload(hooks, rewrites);
    let mut hookfile = String::new();
    hookfile.append(HOOKDIR);
    hookfile.append("/");
    hookfile.append(target_name);
    assert(hookfile@ =~= spec_hookfile(target_name@));
    let patch = patch_target(target_content, hookfile.as_str());
    Delivery { hookfile, payload, patch }
}

} // verus!
