//! Structural diffs as produced by difftastic: files, hunks of changed
//! lines, and the sections that stand for them.

use crate::formats::{markdown_language, Format};
use crate::section::{section_views, ChunkType, Section, SectionView};
use crate::text::{decimal, decimal_string, lines_of, str_eq, text_lines};
use tree_sitter::Language;
use vstd::prelude::*;
use vstd::string::*;

verus! {

/// Represents a file in difftastic output.
#[derive(Debug)]
pub struct DifftFile {
    /// Programming language identified by difftastic for syntax highlighting.
    pub language: String,
    /// File path relative to the comparison root.
    pub path: String,
    /// Grouped diff hunks, each containing lines that changed together.
    pub chunks: Option<Vec<Vec<DifftLine>>>,
    /// Change classification: "unchanged", "changed", "created", or "deleted".
    pub status: String,
}

/// Represents a line in a diff chunk.
#[derive(Debug)]
pub struct DifftLine {
    /// Left-hand (original) side of the comparison, absent for pure additions.
    pub lhs: Option<DifftSide>,
    /// Right-hand (modified) side of the comparison, absent for pure deletions.
    pub rhs: Option<DifftSide>,
}

/// Represents one side (left or right) of a diff line.
#[derive(Debug)]
pub struct DifftSide {
    /// Original line position in the source file.
    pub line_number: u32,
    /// Structural changes within this line, ordered by column position.
    pub changes: Vec<DifftChange>,
}

/// Represents a change within a line.
#[derive(Debug)]
pub struct DifftChange {
    /// Column offset where this change begins (0-indexed).
    pub start: u32,
    /// Column offset where this change ends (exclusive).
    pub end: u32,
    /// Text content of this change segment.
    pub content: String,
    /// Syntax category for rendering.
    pub highlight: String,
}

/// Difftastic format handler.
pub struct DifftasticFormat;

impl Format for DifftasticFormat {
    fn file_extension(&self) -> (r: &str)
        ensures
            r@ == "diff"@,
    {
        "diff"
    }

    /// A diff is not parsed with a grammar. A format has to name one all
    /// the same, and this one names the block grammar for Markdown; it is
    /// handed on as it comes, and nothing is stated of it here.
    fn language(&self) -> Language {
        markdown_language()
    }

    fn section_query(&self) -> (r: &str)
        ensures
            r@ == ""@,
    {
        ""
    }

    fn title_query(&self) -> (r: &str)
        ensures
            r@ == ""@,
    {
        ""
    }
}

/// The left-hand line numbers of a chunk, in order.
pub open spec fn lhs_numbers(chunk: Seq<DifftLine>) -> Seq<u32>
    decreases chunk.len(),
{
    if chunk.len() == 0 {
        Seq::empty()
    } else {
        let rest = lhs_numbers(chunk.drop_last());
        match chunk.last().lhs {
            Some(side) => rest.push(side.line_number),
            None => rest,
        }
    }
}

/// The right-hand line numbers of a chunk, in order.
pub open spec fn rhs_numbers(chunk: Seq<DifftLine>) -> Seq<u32>
    decreases chunk.len(),
{
    if chunk.len() == 0 {
        Seq::empty()
    } else {
        let rest = rhs_numbers(chunk.drop_last());
        match chunk.last().rhs {
            Some(side) => rest.push(side.line_number),
            None => rest,
        }
    }
}

/// Whether the line numbers of one side span a count that can be written:
/// the last is not before the first, and the count of lines from the first
/// to the last fits the number type.
pub open spec fn span_fits(numbers: Seq<u32>) -> bool {
    numbers.len() > 0 ==> numbers.first() <= numbers.last() && numbers.last() - numbers.first()
        < u32::MAX
}

/// A first line and the count of lines up to a last line, as a hunk header
/// writes them.
pub open spec fn span_text(first: u32, last: u32) -> Seq<char> {
    decimal(first as nat) + ","@ + decimal((last - first + 1) as nat)
}

/// The start line and line count of one side, as a hunk header writes them.
pub open spec fn range_text(numbers: Seq<u32>) -> Seq<char> {
    span_text(numbers.first(), numbers.last())
}

/// The title of the hunk at index `hunk_idx` of a file.
pub open spec fn hunk_title(chunk: Seq<DifftLine>, hunk_idx: nat) -> Seq<char> {
    let l = lhs_numbers(chunk);
    let r = rhs_numbers(chunk);
    let head = "Hunk "@ + decimal(hunk_idx + 1);
    if l.len() > 0 && r.len() > 0 {
        head + " (@@ -"@ + range_text(l) + " +"@ + range_text(r) + " @@)"@
    } else if l.len() > 0 {
        head + " (deletion @@ -"@ + range_text(l) + " @@)"@
    } else if r.len() > 0 {
        head + " (addition @@ +"@ + range_text(r) + " @@)"@
    } else {
        head
    }
}

/// The contents of the changes of one side, one after the other.
pub open spec fn side_text(changes: Seq<DifftChange>) -> Seq<char>
    decreases changes.len(),
{
    if changes.len() == 0 {
        Seq::empty()
    } else {
        side_text(changes.drop_last()) + changes.last().content@
    }
}

/// One side of a line as the hunk text shows it: a sign, the line number,
/// a colon and a space, the text, a line feed.
pub open spec fn side_line(sign: Seq<char>, side: DifftSide) -> Seq<char> {
    sign + decimal(side.line_number as nat) + ": "@ + side_text(side.changes@) + "\n"@
}

/// One line of a chunk as the hunk text shows it.
pub open spec fn line_text(line: DifftLine) -> Seq<char> {
    match (line.lhs, line.rhs) {
        (Some(l), Some(r)) => side_line("-"@, l) + side_line("+"@, r),
        (Some(l), None) => side_line("-"@, l),
        (None, Some(r)) => side_line("+"@, r),
        (None, None) => " \n"@,
    }
}

/// The text of a hunk: its lines, one after the other.
pub open spec fn hunk_content(chunk: Seq<DifftLine>) -> Seq<char>
    decreases chunk.len(),
{
    if chunk.len() == 0 {
        Seq::empty()
    } else {
        hunk_content(chunk.drop_last()) + line_text(chunk.last())
    }
}

/// The section that stands for one chunk of a diff: a second-level section
/// of one line, without a place in the hierarchy and without buffered text.
pub fn create_chunk_section(
    file_path: &str,
    title: String,
    line_num: i64,
    column_start: i64,
    column_end: i64,
    chunk_type: ChunkType,
    lhs_text: Option<String>,
    rhs_text: Option<String>,
) -> (s: Section)
    requires
        line_num < i64::MAX,
    ensures
        s.title == title,
        s.level == 2,
        s.line_start == line_num,
        s.line_end == line_num + 1,
        s.column_start == column_start,
        s.column_end == column_end,
        s.byte_start == 0,
        s.byte_end == 0,
        s.file_path@ == file_path@,
        s.parent_index is None,
        s.children_indices@.len() == 0,
        s.doc_comment is None,
        s.chunk_type == Some(chunk_type),
        s.lhs_content == lhs_text,
        s.rhs_content == rhs_text,
{
    Section {
        title,
        level: 2,
        line_start: line_num,
        line_end: line_num + 1,
        column_start,
        column_end,
        byte_start: 0,
        byte_end: 0,
        file_path: file_path.to_owned(),
        parent_index: None,
        children_indices: Vec::new(),
        doc_comment: None,
        chunk_type: Some(chunk_type),
        lhs_content: lhs_text,
        rhs_content: rhs_text,
    }
}

/// The first and last left-hand line numbers of a chunk, if it has any.
fn lhs_bounds(chunk: &[DifftLine]) -> (r: Option<(u32, u32)>)
    ensures
        r is Some <==> lhs_numbers(chunk@).len() > 0,
        r matches Some((a, b)) ==> a == lhs_numbers(chunk@).first() && b == lhs_numbers(
            chunk@,
        ).last(),
{
    let mut r: Option<(u32, u32)> = None;
    let mut i: usize = 0;
    while i < chunk.len()
        invariant
            i <= chunk.len(),
            r is Some <==> lhs_numbers(chunk@.take(i as int)).len() > 0,
            r matches Some((a, b)) ==> a == lhs_numbers(chunk@.take(i as int)).first() && b
                == lhs_numbers(chunk@.take(i as int)).last(),
        decreases chunk.len() - i,
    {
        proof {
            assert(chunk@.take(i + 1).drop_last() =~= chunk@.take(i as int));
            assert(chunk@.take(i + 1).last() == chunk@[i as int]);
        }
        if let Some(side) = &chunk[i].lhs {
            r = match r {
                Some((a, _)) => Some((a, side.line_number)),
                None => Some((side.line_number, side.line_number)),
            };
        }
        i += 1;
    }
    assert(chunk@.take(chunk.len() as int) =~= chunk@);
    r
}

/// The first and last right-hand line numbers of a chunk, if it has any.
fn rhs_bounds(chunk: &[DifftLine]) -> (r: Option<(u32, u32)>)
    ensures
        r is Some <==> rhs_numbers(chunk@).len() > 0,
        r matches Some((a, b)) ==> a == rhs_numbers(chunk@).first() && b == rhs_numbers(
            chunk@,
        ).last(),
{
    let mut r: Option<(u32, u32)> = None;
    let mut i: usize = 0;
    while i < chunk.len()
        invariant
            i <= chunk.len(),
            r is Some <==> rhs_numbers(chunk@.take(i as int)).len() > 0,
            r matches Some((a, b)) ==> a == rhs_numbers(chunk@.take(i as int)).first() && b
                == rhs_numbers(chunk@.take(i as int)).last(),
        decreases chunk.len() - i,
    {
        proof {
            assert(chunk@.take(i + 1).drop_last() =~= chunk@.take(i as int));
            assert(chunk@.take(i + 1).last() == chunk@[i as int]);
        }
        if let Some(side) = &chunk[i].rhs {
            r = match r {
                Some((a, _)) => Some((a, side.line_number)),
                None => Some((side.line_number, side.line_number)),
            };
        }
        i += 1;
    }
    assert(chunk@.take(chunk.len() as int) =~= chunk@);
    r
}

/// Whether both sides of a chunk span a count of lines that can be written.
pub fn spans_fit(chunk: &[DifftLine]) -> (r: bool)
    ensures
        r == (span_fits(lhs_numbers(chunk@)) && span_fits(rhs_numbers(chunk@))),
{
    let l = match lhs_bounds(chunk) {
        Some((a, b)) => a <= b && b - a < u32::MAX,
        None => true,
    };
    let r = match rhs_bounds(chunk) {
        Some((a, b)) => a <= b && b - a < u32::MAX,
        None => true,
    };
    l && r
}

/// Appends the start line and line count of one side to `out`.
fn push_range(out: &mut String, first: u32, last: u32)
    requires
        first <= last,
        last - first < u32::MAX,
    ensures
        final(out)@ == old(out)@ + span_text(first, last),
{
    let ghost start = out@;
    out.append(decimal_string(first as u64).as_str());
    out.append(",");
    out.append(decimal_string((last - first + 1) as u64).as_str());
    assert(out@ =~= start + span_text(first, last));
}

/// Format a hunk title showing line number range.
pub fn format_hunk_title(chunk: &[DifftLine], hunk_idx: usize) -> (r: String)
    requires
        hunk_idx < usize::MAX,
        span_fits(lhs_numbers(chunk@)),
        span_fits(rhs_numbers(chunk@)),
    ensures
        r@ == hunk_title(chunk@, hunk_idx as nat),
{
    let lhs = lhs_bounds(chunk);
    let rhs = rhs_bounds(chunk);
    let mut r = String::from_str("Hunk ");
    r.append(decimal_string((hunk_idx + 1) as u64).as_str());
    match (lhs, rhs) {
        (Some((ls, le)), Some((rs, re))) => {
            r.append(" (@@ -");
            push_range(&mut r, ls, le);
            r.append(" +");
            push_range(&mut r, rs, re);
            r.append(" @@)");
        },
        (Some((ls, le)), None) => {
            r.append(" (deletion @@ -");
            push_range(&mut r, ls, le);
            r.append(" @@)");
        },
        (None, Some((rs, re))) => {
            r.append(" (addition @@ +");
            push_range(&mut r, rs, re);
            r.append(" @@)");
        },
        (None, None) => {},
    }
    r
}

/// Appends one side of a line to `out`.
fn push_side(out: &mut String, sign: &str, side: &DifftSide)
    ensures
        final(out)@ == old(out)@ + side_line(sign@, *side),
{
    let ghost start = out@;
    out.append(sign);
    out.append(decimal_string(side.line_number as u64).as_str());
    out.append(": ");
    let ghost head = out@;
    let mut i: usize = 0;
    while i < side.changes.len()
        invariant
            i <= side.changes.len(),
            out@ == head + side_text(side.changes@.take(i as int)),
        decreases side.changes.len() - i,
    {
        proof {
            assert(side.changes@.take(i + 1).drop_last() =~= side.changes@.take(i as int));
            assert(side.changes@.take(i + 1).last() == side.changes@[i as int]);
        }
        out.append(side.changes[i].content.as_str());
        assert(out@ =~= head + side_text(side.changes@.take(i + 1)));
        i += 1;
    }
    assert(side.changes@.take(side.changes.len() as int) =~= side.changes@);
    out.append("\n");
    assert(out@ =~= start + side_line(sign@, *side));
}

/// Format hunk content for display.
pub fn format_hunk_content(chunk: &[DifftLine]) -> (r: String)
    ensures
        r@ == hunk_content(chunk@),
{
    let mut output = String::new();
    let mut i: usize = 0;
    while i < chunk.len()
        invariant
            i <= chunk.len(),
            output@ == hunk_content(chunk@.take(i as int)),
        decreases chunk.len() - i,
    {
        proof {
            assert(chunk@.take(i + 1).drop_last() =~= chunk@.take(i as int));
            assert(chunk@.take(i + 1).last() == chunk@[i as int]);
        }
        let ghost before = output@;
        match (&chunk[i].lhs, &chunk[i].rhs) {
            (Some(lhs), Some(rhs)) => {
                push_side(&mut output, "-", lhs);
                push_side(&mut output, "+", rhs);
            },
            (Some(lhs), None) => {
                push_side(&mut output, "-", lhs);
            },
            (None, Some(rhs)) => {
                push_side(&mut output, "+", rhs);
            },
            (None, None) => {
                output.append(" \n");
            },
        }
        assert(output@ =~= before + line_text(chunk@[i as int]));
        i += 1;
    }
    assert(chunk@.take(chunk.len() as int) =~= chunk@);
    output
}

/// Why a diff could not be turned into sections.
#[derive(Clone, Copy, Debug, PartialEq, Eq, Structural)]
pub enum DiffError {
    /// The line numbers of one side of this hunk of this file run
    /// backwards, or span more lines than can be counted.
    SpanOverflow { file: usize, hunk: usize },
    /// The sections hold more lines than can be numbered.
    LineOverflow,
}

/// Whether a file shows in the list of hunks: unchanged files do not.
pub open spec fn is_changed(file: DifftFile) -> bool {
    file.status@ != "unchanged"@
}

/// Whether a file without hunks still gets a section that tells its
/// status: files that were created or deleted do.
pub open spec fn has_status_section(file: DifftFile) -> bool {
    file.status@ == "created"@ || file.status@ == "deleted"@
}

/// The number of lines that the text of a hunk takes.
pub open spec fn hunk_lines(chunk: Seq<DifftLine>) -> int {
    lines_of(hunk_content(chunk)).len() as int
}

/// A top-level section without coordinates in a file, holding `content`
/// as its only buffered line.
pub open spec fn diff_section(
    path: Seq<char>,
    title: Seq<char>,
    content: Seq<char>,
    line_start: int,
    line_end: int,
) -> SectionView {
    SectionView {
        title,
        level: 1,
        line_start,
        line_end,
        column_start: 0,
        column_end: 0,
        byte_start: 0,
        byte_end: 0,
        file_path: path,
        parent_index: None,
        children_indices: Seq::empty(),
        doc_comment: Some(seq![content]),
        chunk_type: None,
        lhs_content: None,
        rhs_content: None,
    }
}

/// The section of the hunk at index `idx` of a file, whose text starts at
/// line `start` of the list.
pub open spec fn hunk_section(path: Seq<char>, chunk: Seq<DifftLine>, idx: nat, start: int)
    -> SectionView {
    diff_section(
        path,
        hunk_title(chunk, idx),
        hunk_content(chunk),
        start,
        start + hunk_lines(chunk),
    )
}

/// The section that tells the status of a file without hunks.
pub open spec fn status_section(file: DifftFile, start: int) -> SectionView {
    diff_section(
        file.path@,
        "File "@ + file.status@ + " (no detailed diff available)"@,
        "File was "@ + file.status@,
        start,
        start + 1,
    )
}

/// The line at which the hunk behind the first `n` hunks starts: each hunk
/// takes its lines and one line more.
pub open spec fn hunks_end(chunks: Seq<Vec<DifftLine>>, n: int, start: int) -> int
    decreases n,
{
    if n <= 0 {
        start
    } else {
        hunks_end(chunks, n - 1, start) + hunk_lines(chunks[n - 1]@) + 1
    }
}

/// The sections of the first `n` hunks of a file.
pub open spec fn hunks_upto(path: Seq<char>, chunks: Seq<Vec<DifftLine>>, n: int, start: int)
    -> Seq<SectionView>
    decreases n,
{
    if n <= 0 {
        Seq::empty()
    } else {
        hunks_upto(path, chunks, n - 1, start).push(
            hunk_section(path, chunks[n - 1]@, (n - 1) as nat, hunks_end(chunks, n - 1, start)),
        )
    }
}

/// The line at which the sections of the next file start, where those of
/// `file` start at `start`.
pub open spec fn file_end(file: DifftFile, start: int) -> int {
    if !is_changed(file) {
        start
    } else {
        match file.chunks {
            Some(chunks) => hunks_end(chunks@, chunks@.len() as int, start),
            None => if has_status_section(file) {
                start + 2
            } else {
                start
            },
        }
    }
}

/// The sections of one file, starting at line `start`: none for an
/// unchanged file, one for each hunk, or one that tells the status of a
/// created or deleted file without hunks.
pub open spec fn file_hunks(file: DifftFile, start: int) -> Seq<SectionView> {
    if !is_changed(file) {
        Seq::empty()
    } else {
        match file.chunks {
            Some(chunks) => hunks_upto(file.path@, chunks@, chunks@.len() as int, start),
            None => if has_status_section(file) {
                seq![status_section(file, start)]
            } else {
                Seq::empty()
            },
        }
    }
}

/// The line at which the sections of the file behind the first `n` files
/// start.
pub open spec fn files_end(files: Seq<DifftFile>, n: int) -> int
    decreases n,
{
    if n <= 0 {
        0
    } else {
        file_end(files[n - 1], files_end(files, n - 1))
    }
}

/// The sections of the first `n` files.
pub open spec fn files_upto(files: Seq<DifftFile>, n: int) -> Seq<SectionView>
    decreases n,
{
    if n <= 0 {
        Seq::empty()
    } else {
        files_upto(files, n - 1) + file_hunks(files[n - 1], files_end(files, n - 1))
    }
}

/// Whether the hunk `h` of file `f` is one whose title is written.
pub open spec fn is_hunk(files: Seq<DifftFile>, f: int, h: int) -> bool {
    &&& 0 <= f < files.len()
    &&& is_changed(files[f])
    &&& files[f].chunks matches Some(chunks) && 0 <= h < chunks@.len()
}

/// Whether both sides of the hunk `h` of file `f` span a count of lines
/// that can be written.
pub open spec fn hunk_fits(files: Seq<DifftFile>, f: int, h: int) -> bool {
    let chunk = files[f].chunks->0@[h]@;
    span_fits(lhs_numbers(chunk)) && span_fits(rhs_numbers(chunk))
}

/// Whether the title of every hunk can be written.
pub open spec fn all_hunks_fit(files: Seq<DifftFile>) -> bool {
    forall|f: int, h: int| #[trigger] is_hunk(files, f, h) ==> hunk_fits(files, f, h)
}

/// The start of the hunks never goes back.
pub proof fn lemma_hunks_end_grows(chunks: Seq<Vec<DifftLine>>, k: int, n: int, start: int)
    requires
        0 <= k <= n,
    ensures
        hunks_end(chunks, k, start) <= hunks_end(chunks, n, start),
    decreases n - k,
{
    if k < n {
        lemma_hunks_end_grows(chunks, k, n - 1, start);
    }
}

/// The sections of a file end at or behind the line at which they start.
pub proof fn lemma_file_end_grows(file: DifftFile, start: int)
    ensures
        start <= file_end(file, start),
{
    match file.chunks {
        Some(chunks) => {
            lemma_hunks_end_grows(chunks@, 0, chunks@.len() as int, start);
        },
        None => {},
    }
}

/// The start of the files never goes back, and never lies before line 0.
pub proof fn lemma_files_end_grows(files: Seq<DifftFile>, k: int, n: int)
    requires
        0 <= k <= n,
    ensures
        0 <= files_end(files, k) <= files_end(files, n),
    decreases n,
{
    if n > 0 {
        lemma_file_end_grows(files[n - 1], files_end(files, n - 1));
        if k < n {
            lemma_files_end_grows(files, k, n - 1);
        } else {
            lemma_files_end_grows(files, n - 1, n - 1);
        }
    }
}

/// The section that holds `content` as its only buffered line.
fn make_diff_section(path: &str, title: String, content: String, line_start: i64, line_end: i64)
    -> (r: Section)
    ensures
        r@ == diff_section(path@, title@, content@, line_start as int, line_end as int),
{
    let mut lines: Vec<String> = Vec::new();
    lines.push(content);
    let r = Section {
        title,
        level: 1,
        line_start,
        line_end,
        column_start: 0,
        column_end: 0,
        byte_start: 0,
        byte_end: 0,
        file_path: path.to_owned(),
        parent_index: None,
        children_indices: Vec::new(),
        doc_comment: Some(lines),
        chunk_type: None,
        lhs_content: None,
        rhs_content: None,
    };
    proof {
        assert(r@.children_indices =~= Seq::<nat>::empty());
        assert(r@.doc_comment->0 =~= seq![content@]);
    }
    r
}

/// The first hunk whose title cannot be written, if there is one.
fn find_unfit_hunk(files: &Vec<DifftFile>) -> (r: Option<(usize, usize)>)
    ensures
        match r {
            Some((f, h)) => is_hunk(files@, f as int, h as int) && !hunk_fits(
                files@,
                f as int,
                h as int,
            ),
            None => all_hunks_fit(files@),
        },
{
    let mut f: usize = 0;
    while f < files.len()
        invariant
            f <= files.len(),
            forall|a: int, h: int|
                0 <= a < f && #[trigger] is_hunk(files@, a, h) ==> hunk_fits(files@, a, h),
        decreases files.len() - f,
    {
        let file = &files[f];
        if !str_eq(file.status.as_str(), "unchanged") {
            if let Some(chunks) = &file.chunks {
                let mut h: usize = 0;
                while h < chunks.len()
                    invariant
                        h <= chunks.len(),
                        f < files.len(),
                        is_changed(files@[f as int]),
                        files@[f as int].chunks == Some(*chunks),
                        forall|b: int| 0 <= b < h ==> hunk_fits(files@, f as int, b),
                    decreases chunks.len() - h,
                {
                    if !spans_fit(chunks[h].as_slice()) {
                        assert(is_hunk(files@, f as int, h as int));
                        return Some((f, h));
                    }
                    h += 1;
                }
            }
        }
        f += 1;
    }
    None
}

/// The sections of a diff, one for each hunk of each changed file.
///
/// Unchanged files give nothing. A file with hunks gives one top-level
/// section for each, titled by its line ranges and holding its text as its
/// only buffered line; a created or deleted file without hunks gives one
/// section that tells its status. The sections are numbered through as if
/// their texts stood one after the other with a line between them.
///
/// It fails where the title of a hunk cannot be written, and where the
/// lines cannot be numbered.
pub fn hunk_sections(files: &Vec<DifftFile>) -> (r: Result<Vec<Section>, DiffError>)
    ensures
        match r {
            Ok(sections) => all_hunks_fit(files@) && files_end(files@, files@.len() as int)
                <= i64::MAX && section_views(sections@) == files_upto(
                files@,
                files@.len() as int,
            ),
            Err(DiffError::SpanOverflow { file, hunk }) => is_hunk(
                files@,
                file as int,
                hunk as int,
            ) && !hunk_fits(files@, file as int, hunk as int),
            Err(DiffError::LineOverflow) => all_hunks_fit(files@) && files_end(
                files@,
                files@.len() as int,
            ) > i64::MAX,
        },
{
    if let Some((file, hunk)) = find_unfit_hunk(files) {
        return Err(DiffError::SpanOverflow { file, hunk });
    }
    let mut sections: Vec<Section> = Vec::new();
    let mut line: i64 = 0;
    let mut f: usize = 0;
    while f < files.len()
        invariant
            f <= files.len(),
            all_hunks_fit(files@),
            line == files_end(files@, f as int),
            line >= 0,
            section_views(sections@) == files_upto(files@, f as int),
        decreases files.len() - f,
    {
        let file = &files[f];
        let ghost start = line as int;
        let ghost before = section_views(sections@);
        proof {
            lemma_files_end_grows(files@, f + 1, files@.len() as int);
        }
        if !str_eq(file.status.as_str(), "unchanged") {
            if let Some(chunks) = &file.chunks {
                let mut h: usize = 0;
                while h < chunks.len()
                    invariant
                        h <= chunks.len(),
                        f < files.len(),
                        all_hunks_fit(files@),
                        is_changed(files@[f as int]),
                        files@[f as int].chunks == Some(*chunks),
                        *file == files@[f as int],
                        start == files_end(files@, f as int),
                        start >= 0,
                        line == hunks_end(chunks@, h as int, start),
                        line >= 0,
                        files_end(files@, f + 1) <= files_end(files@, files@.len() as int),
                        section_views(sections@) == before + hunks_upto(
                            file.path@,
                            chunks@,
                            h as int,
                            start,
                        ),
                    decreases chunks.len() - h,
                {
                    let chunk = chunks[h].as_slice();
                    proof {
                        assert(is_hunk(files@, f as int, h as int));
                        assert(hunk_fits(files@, f as int, h as int));
                        lemma_hunks_end_grows(chunks@, h + 1, chunks@.len() as int, start);
                    }
                    let title = format_hunk_title(chunk, h);
                    let content = format_hunk_content(chunk);
                    let count = text_lines(content.as_str()).len();
                    if line == i64::MAX || count as u64 > (i64::MAX - 1 - line) as u64 {
                        return Err(DiffError::LineOverflow);
                    }
                    let end = line + count as i64;
                    let ghost old_views = section_views(sections@);
                    let section = make_diff_section(file.path.as_str(), title, content, line, end);
                    sections.push(section);
                    proof {
                        assert(section_views(sections@) =~= old_views.push(section@));
                        assert(section@ == hunk_section(
                            file.path@,
                            chunks@[h as int]@,
                            h as nat,
                            line as int,
                        ));
                        assert(old_views.push(section@) =~= before + hunks_upto(
                            file.path@,
                            chunks@,
                            h + 1,
                            start,
                        ));
                    }
                    line = end + 1;
                    h += 1;
                }
                assert(section_views(sections@) =~= files_upto(files@, f + 1));
            } else if str_eq(file.status.as_str(), "created") || str_eq(
                file.status.as_str(),
                "deleted",
            ) {
                if line >= i64::MAX - 1 {
                    return Err(DiffError::LineOverflow);
                }
                let mut title = String::from_str("File ");
                title.append(file.status.as_str());
                title.append(" (no detailed diff available)");
                let mut content = String::from_str("File was ");
                content.append(file.status.as_str());
                let ghost old_views = section_views(sections@);
                let section = make_diff_section(
                    file.path.as_str(),
                    title,
                    content,
                    line,
                    line + 1,
                );
                sections.push(section);
                proof {
                    assert(section_views(sections@) =~= old_views.push(section@));
                    assert(section@ == status_section(*file, line as int));
                    assert(old_views.push(section@) =~= files_upto(files@, f + 1));
                }
                line = line + 2;
            } else {
                assert(section_views(sections@) =~= files_upto(files@, f + 1));
            }
        } else {
            assert(section_views(sections@) =~= files_upto(files@, f + 1));
        }
        f += 1;
    }
    Ok(sections)
}

/// Whether two changes are the same in every field.
pub open spec fn same_change(a: DifftChange, b: DifftChange) -> bool {
    a.start == b.start && a.end == b.end && a.content@ == b.content@ && a.highlight@
        == b.highlight@
}

/// Whether two sides of a line are the same: the same line number and the
/// same changes.
pub open spec fn same_side(a: DifftSide, b: DifftSide) -> bool {
    &&& a.line_number == b.line_number
    &&& a.changes@.len() == b.changes@.len()
    &&& forall|i: int|
        0 <= i < a.changes@.len() ==> same_change(#[trigger] a.changes@[i], b.changes@[i])
}

/// How the two sides of a line compare, for a line that has a side.
pub open spec fn chunk_type_of(line: DifftLine) -> ChunkType {
    match (line.lhs, line.rhs) {
        (Some(_), None) => ChunkType::Deleted,
        (None, Some(_)) => ChunkType::Added,
        (Some(l), Some(r)) => if same_side(l, r) {
            ChunkType::Unchanged
        } else {
            ChunkType::Modified
        },
        (None, None) => ChunkType::Unchanged,
    }
}

/// The side by which a line is placed: the left one where there is one.
pub open spec fn leading_side(line: DifftLine) -> DifftSide {
    match line.lhs {
        Some(l) => l,
        None => line.rhs->0,
    }
}

/// The column at which the changes of a side begin; 0 without changes.
pub open spec fn first_column(side: DifftSide) -> int {
    if side.changes@.len() > 0 {
        side.changes@.first().start as int
    } else {
        0
    }
}

/// The column at which the changes of a side end; 0 without changes.
pub open spec fn last_column(side: DifftSide) -> int {
    if side.changes@.len() > 0 {
        side.changes@.last().end as int
    } else {
        0
    }
}

/// The text of a side, if the line has that side.
pub open spec fn side_content(side: Option<DifftSide>) -> Option<Seq<char>> {
    match side {
        Some(s) => Some(side_text(s.changes@)),
        None => None,
    }
}

/// The title of the section of a line.
pub open spec fn chunk_title(path: Seq<char>, line_number: nat) -> Seq<char> {
    "Chunk @@ "@ + path + ":"@ + decimal(line_number) + " @@"@
}

/// The section that stands for one line of a chunk that has a side.
pub open spec fn line_section(path: Seq<char>, line: DifftLine) -> SectionView {
    let side = leading_side(line);
    SectionView {
        title: chunk_title(path, side.line_number as nat),
        level: 2,
        line_start: side.line_number as int,
        line_end: side.line_number + 1,
        column_start: first_column(side),
        column_end: last_column(side),
        byte_start: 0,
        byte_end: 0,
        file_path: path,
        parent_index: None,
        children_indices: Seq::empty(),
        doc_comment: None,
        chunk_type: Some(chunk_type_of(line)),
        lhs_content: side_content(line.lhs),
        rhs_content: side_content(line.rhs),
    }
}

/// The sections of the first `n` lines of a chunk: one for each line that
/// has a side.
pub open spec fn lines_upto(path: Seq<char>, chunk: Seq<DifftLine>, n: int) -> Seq<SectionView>
    decreases n,
{
    if n <= 0 {
        Seq::empty()
    } else {
        let rest = lines_upto(path, chunk, n - 1);
        if chunk[n - 1].lhs is None && chunk[n - 1].rhs is None {
            rest
        } else {
            rest.push(line_section(path, chunk[n - 1]))
        }
    }
}

/// The sections of the lines of the first `n` chunks of a file.
pub open spec fn chunks_upto(path: Seq<char>, chunks: Seq<Vec<DifftLine>>, n: int) -> Seq<
    SectionView,
>
    decreases n,
{
    if n <= 0 {
        Seq::empty()
    } else {
        chunks_upto(path, chunks, n - 1) + lines_upto(
            path,
            chunks[n - 1]@,
            chunks[n - 1]@.len() as int,
        )
    }
}

/// The sections of the lines of one file.
pub open spec fn file_chunks(file: DifftFile) -> Seq<SectionView> {
    match file.chunks {
        Some(chunks) => chunks_upto(file.path@, chunks@, chunks@.len() as int),
        None => Seq::empty(),
    }
}

/// The sections of the lines of the first `n` files.
pub open spec fn file_chunks_upto(files: Seq<DifftFile>, n: int) -> Seq<SectionView>
    decreases n,
{
    if n <= 0 {
        Seq::empty()
    } else {
        file_chunks_upto(files, n - 1) + file_chunks(files[n - 1])
    }
}

/// Whether two sides of a line are the same.
pub fn sides_equal(a: &DifftSide, b: &DifftSide) -> (r: bool)
    ensures
        r == same_side(*a, *b),
{
    if a.line_number != b.line_number || a.changes.len() != b.changes.len() {
        return false;
    }
    let mut i: usize = 0;
    while i < a.changes.len()
        invariant
            i <= a.changes.len() == b.changes.len(),
            a.line_number == b.line_number,
            forall|k: int| 0 <= k < i ==> same_change(#[trigger] a.changes@[k], b.changes@[k]),
        decreases a.changes.len() - i,
    {
        let x = &a.changes[i];
        let y = &b.changes[i];
        if x.start != y.start || x.end != y.end || !str_eq(x.content.as_str(), y.content.as_str())
            || !str_eq(x.highlight.as_str(), y.highlight.as_str()) {
            assert(!same_change(a.changes@[i as int], b.changes@[i as int]));
            return false;
        }
        i += 1;
    }
    true
}

/// The text of a side: the contents of its changes, one after the other.
pub fn side_string(side: &DifftSide) -> (r: String)
    ensures
        r@ == side_text(side.changes@),
{
    let mut out = String::new();
    let mut i: usize = 0;
    while i < side.changes.len()
        invariant
            i <= side.changes.len(),
            out@ == side_text(side.changes@.take(i as int)),
        decreases side.changes.len() - i,
    {
        proof {
            assert(side.changes@.take(i + 1).drop_last() =~= side.changes@.take(i as int));
            assert(side.changes@.take(i + 1).last() == side.changes@[i as int]);
        }
        out.append(side.changes[i].content.as_str());
        i += 1;
    }
    assert(side.changes@.take(side.changes.len() as int) =~= side.changes@);
    out
}

/// The section that stands for one line of a chunk, or nothing for a line
/// without sides.
pub fn chunk_section(path: &str, line: &DifftLine) -> (r: Option<Section>)
    ensures
        match r {
            Some(section) => (line.lhs is Some || line.rhs is Some) && section@ == line_section(
                path@,
                *line,
            ),
            None => line.lhs is None && line.rhs is None,
        },
{
    let chunk_type = match (&line.lhs, &line.rhs) {
        (Some(_), None) => ChunkType::Deleted,
        (None, Some(_)) => ChunkType::Added,
        (Some(l), Some(r)) => if sides_equal(l, r) {
            ChunkType::Unchanged
        } else {
            ChunkType::Modified
        },
        (None, None) => {
            return None;
        },
    };
    let side = match &line.lhs {
        Some(l) => l,
        None => match &line.rhs {
            Some(r) => r,
            None => {
                return None;
            },
        },
    };
    let count = side.changes.len();
    let column_start: i64 = if count > 0 {
        side.changes[0].start as i64
    } else {
        0
    };
    let column_end: i64 = if count > 0 {
        side.changes[count - 1].end as i64
    } else {
        0
    };
    let mut title = String::from_str("Chunk @@ ");
    title.append(path);
    title.append(":");
    title.append(decimal_string(side.line_number as u64).as_str());
    title.append(" @@");
    let lhs_text = match &line.lhs {
        Some(l) => Some(side_string(l)),
        None => None,
    };
    let rhs_text = match &line.rhs {
        Some(r) => Some(side_string(r)),
        None => None,
    };
    let section = create_chunk_section(
        path,
        title,
        side.line_number as i64,
        column_start,
        column_end,
        chunk_type,
        lhs_text,
        rhs_text,
    );
    proof {
        assert(section@.children_indices =~= Seq::<nat>::empty());
        assert(section@.doc_comment == None::<Seq<Seq<char>>>);
    }
    Some(section)
}

/// The sections of a diff, one for each line of each chunk that has a
/// side: where the line stands, which columns its changes span, how its
/// sides compare, and the text of each side.
pub fn chunk_sections(files: &Vec<DifftFile>) -> (sections: Vec<Section>)
    ensures
        section_views(sections@) == file_chunks_upto(files@, files@.len() as int),
{
    let mut sections: Vec<Section> = Vec::new();
    let mut f: usize = 0;
    while f < files.len()
        invariant
            f <= files.len(),
            section_views(sections@) == file_chunks_upto(files@, f as int),
        decreases files.len() - f,
    {
        let file = &files[f];
        let ghost before = section_views(sections@);
        if let Some(chunks) = &file.chunks {
            let mut c: usize = 0;
            assert(section_views(sections@) =~= before + chunks_upto(file.path@, chunks@, 0));
            while c < chunks.len()
                invariant
                    c <= chunks.len(),
                    section_views(sections@) == before + chunks_upto(
                        file.path@,
                        chunks@,
                        c as int,
                    ),
                decreases chunks.len() - c,
            {
                let chunk = &chunks[c];
                let ghost head = section_views(sections@);
                let mut l: usize = 0;
                assert(section_views(sections@) =~= head + lines_upto(file.path@, chunk@, 0));
                while l < chunk.len()
                    invariant
                        l <= chunk.len(),
                        section_views(sections@) == head + lines_upto(
                            file.path@,
                            chunk@,
                            l as int,
                        ),
                    decreases chunk.len() - l,
                {
                    let ghost old_views = section_views(sections@);
                    if let Some(section) = chunk_section(file.path.as_str(), &chunk[l]) {
                        sections.push(section);
                        assert(section_views(sections@) =~= old_views.push(section@));
                    }
                    assert(section_views(sections@) =~= head + lines_upto(
                        file.path@,
                        chunk@,
                        l + 1,
                    ));
                    l += 1;
                }
                assert(head + lines_upto(file.path@, chunk@, chunk@.len() as int) =~= before
                    + chunks_upto(file.path@, chunks@, c + 1));
                c += 1;
            }
            assert(section_views(sections@) =~= file_chunks_upto(files@, f + 1));
        } else {
            assert(section_views(sections@) =~= file_chunks_upto(files@, f + 1));
        }
        f += 1;
    }
    sections
}

} // verus!
