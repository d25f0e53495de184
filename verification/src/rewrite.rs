//! The format in which the sections of a file are written after a reorder:
//! for each section a heading line, a blank line, and, unless the section
//! is blank, its trimmed text and another blank line.

use crate::section::SectionView;
use crate::text::{lemma_split_nonempty, push_char, repeated, split_lines, trim, utf8_lossy};
use vstd::prelude::*;

verus! {

/// The text of a section as a rewrite of its file takes it from the bytes
/// of the file: what lies between its byte offsets, or nothing where the
/// offsets do not lie within the file.
pub open spec fn stored_text(bytes: Seq<u8>, start: int, end: int) -> Seq<char> {
    if start < bytes.len() && end <= bytes.len() && start <= end {
        utf8_lossy(bytes.subrange(start, end))
    } else {
        Seq::empty()
    }
}

/// A heading line: one marker for each level, a space, the title.
pub open spec fn heading(level: nat, title: Seq<char>) -> Seq<char> {
    repeated('#', level) + " "@ + title
}

/// What a rewrite writes for one section: its heading, a blank line, and,
/// unless the section holds nothing but whitespace, its trimmed text and
/// another blank line.
pub open spec fn section_block(bytes: Seq<u8>, section: SectionView) -> Seq<char> {
    let body = trim(stored_text(bytes, section.byte_start as int, section.byte_end as int));
    heading(section.level, section.title) + "\n\n"@ + if body.len() > 0 {
        body + "\n\n"@
    } else {
        Seq::empty()
    }
}

/// The new content of the file `path`: the blocks of its sections in list
/// order. `bytes` is what the file holds now.
pub open spec fn rewritten(bytes: Seq<u8>, sections: Seq<SectionView>, path: Seq<char>) -> Seq<
    char,
>
    decreases sections.len(),
{
    if sections.len() == 0 {
        Seq::empty()
    } else {
        rewritten(bytes, sections.drop_last(), path) + if sections.last().file_path == path {
            section_block(bytes, sections.last())
        } else {
            Seq::empty()
        }
    }
}

/// The rewrite of a file starts with the block of the first section in the
/// list, where that section belongs to the file.
pub proof fn lemma_rewritten_front(
    bytes: Seq<u8>,
    first: SectionView,
    rest: Seq<SectionView>,
    path: Seq<char>,
)
    ensures
        rewritten(bytes, seq![first] + rest, path) == if first.file_path == path {
            section_block(bytes, first)
        } else {
            Seq::empty()
        } + rewritten(bytes, rest, path),
    decreases rest.len(),
{
    let all = seq![first] + rest;
    if rest.len() == 0 {
        assert(all.drop_last() =~= Seq::<SectionView>::empty());
        assert(all.last() == first);
        assert(rewritten(bytes, all.drop_last(), path) =~= Seq::<char>::empty());
        assert(rewritten(bytes, all, path) =~= if first.file_path == path {
            section_block(bytes, first)
        } else {
            Seq::empty()
        } + rewritten(bytes, rest, path));
    } else {
        lemma_rewritten_front(bytes, first, rest.drop_last(), path);
        assert(all.drop_last() =~= seq![first] + rest.drop_last());
        assert(all.last() == rest.last());
        let head = if first.file_path == path {
            section_block(bytes, first)
        } else {
            Seq::empty()
        };
        let tail = if rest.last().file_path == path {
            section_block(bytes, rest.last())
        } else {
            Seq::empty()
        };
        assert(rewritten(bytes, all, path) =~= head + (rewritten(bytes, rest.drop_last(), path)
            + tail));
    }
}

/// The number of `#` markers with which a line begins.
pub open spec fn marker_count(line: Seq<char>) -> nat
    decreases line.len(),
{
    if line.len() > 0 && line[0] == '#' {
        1 + marker_count(line.drop_first())
    } else {
        0
    }
}

/// The level and title of a heading line: a line that begins with at
/// least one marker, followed by a space; the title is what follows the
/// space. Other lines are no headings.
pub open spec fn heading_of(line: Seq<char>) -> Option<(nat, Seq<char>)> {
    let k = marker_count(line);
    if k >= 1 && line.len() > k && line[k as int] == ' ' {
        Some((k, line.skip(k as int + 1)))
    } else {
        None
    }
}

/// The headings among `lines`, in order.
pub open spec fn headings_among(lines: Seq<Seq<char>>) -> Seq<(nat, Seq<char>)>
    decreases lines.len(),
{
    if lines.len() == 0 {
        Seq::empty()
    } else {
        let rest = headings_among(lines.drop_last());
        match heading_of(lines.last()) {
            Some(h) => rest.push(h),
            None => rest,
        }
    }
}

/// The headings that stand in a text, in order.
pub open spec fn headings_in(text: Seq<char>) -> Seq<(nat, Seq<char>)> {
    headings_among(split_lines(text))
}

/// The levels and titles of the sections of the file `path`, in list
/// order.
pub open spec fn headings_for(sections: Seq<SectionView>, path: Seq<char>) -> Seq<
    (nat, Seq<char>),
>
    decreases sections.len(),
{
    if sections.len() == 0 {
        Seq::empty()
    } else {
        let rest = headings_for(sections.drop_last(), path);
        if sections.last().file_path == path {
            rest.push((sections.last().level, sections.last().title))
        } else {
            rest
        }
    }
}

/// Whether a text holds no line feed.
pub open spec fn single_line(text: Seq<char>) -> bool {
    forall|i: int| 0 <= i < text.len() ==> #[trigger] text[i] != '\n'
}

/// Whether no line of a text is a heading line.
pub open spec fn no_headings(text: Seq<char>) -> bool {
    forall|k: int|
        0 <= k < split_lines(text).len() ==> heading_of(#[trigger] split_lines(text)[k]) is None
}

/// Whether a section can be told apart again in the rewrite of its file:
/// it has a level, its title stands on one line, and no line of its text
/// looks like a heading.
pub open spec fn readable(bytes: Seq<u8>, section: SectionView) -> bool {
    &&& section.level >= 1
    &&& single_line(section.title)
    &&& no_headings(trim(stored_text(bytes, section.byte_start as int, section.byte_end as int)))
}

/// The lines of two texts, one behind the other, where the first ends a
/// line: the lines of the first without its empty last line, then the
/// lines of the second.
pub proof fn lemma_split_concat(a: Seq<char>, b: Seq<char>)
    requires
        a.len() == 0 || a.last() == '\n',
    ensures
        split_lines(a + b) == split_lines(a).drop_last() + split_lines(b),
    decreases b.len(),
{
    lemma_split_nonempty(a);
    lemma_split_nonempty(b);
    if b.len() == 0 {
        assert(a + b =~= a);
        assert(split_lines(a).last() =~= Seq::<char>::empty());
        assert(split_lines(a) =~= split_lines(a).drop_last() + seq![Seq::<char>::empty()]);
    } else {
        let front = b.drop_last();
        lemma_split_concat(a, front);
        lemma_split_nonempty(front);
        assert((a + b).drop_last() =~= a + front);
        assert((a + b).last() == b.last());
        let x = split_lines(a).drop_last();
        let y = split_lines(front);
        assert(push_char(x + y, b.last()) =~= x + push_char(y, b.last())) by {
            if b.last() == '\n' {
            } else {
                assert((x + y).drop_last() =~= x + y.drop_last());
                assert((x + y).last() == y.last());
            }
        }
    }
}

/// A text without a line feed is one line.
pub proof fn lemma_split_single(text: Seq<char>)
    requires
        single_line(text),
    ensures
        split_lines(text) == seq![text],
    decreases text.len(),
{
    if text.len() == 0 {
        assert(text =~= Seq::<char>::empty());
    } else {
        let front = text.drop_last();
        assert(single_line(front)) by {
            assert forall|i: int| 0 <= i < front.len() implies #[trigger] front[i] != '\n' by {
                assert(front[i] == text[i]);
            }
        }
        lemma_split_single(front);
        assert(text.last() == text[text.len() - 1]);
        assert(seq![front].drop_last().push(front.push(text.last())) =~= seq![text]) by {
            assert(front.push(text.last()) =~= text);
        }
    }
}

/// The headings among two runs of lines are those of the first and then
/// those of the second.
pub proof fn lemma_headings_among_concat(x: Seq<Seq<char>>, y: Seq<Seq<char>>)
    ensures
        headings_among(x + y) == headings_among(x) + headings_among(y),
    decreases y.len(),
{
    if y.len() == 0 {
        assert(x + y =~= x);
        assert(headings_among(x) + headings_among(y) =~= headings_among(x));
    } else {
        lemma_headings_among_concat(x, y.drop_last());
        assert((x + y).drop_last() =~= x + y.drop_last());
        assert((x + y).last() == y.last());
        match heading_of(y.last()) {
            Some(h) => {
                assert((headings_among(x) + headings_among(y.drop_last())).push(h)
                    =~= headings_among(x) + headings_among(y.drop_last()).push(h));
            },
            None => {},
        }
    }
}

/// The headings in two texts, one behind the other, where the first ends a
/// line, are those of the first and then those of the second.
pub proof fn lemma_headings_concat(a: Seq<char>, b: Seq<char>)
    requires
        a.len() == 0 || a.last() == '\n',
    ensures
        headings_in(a + b) == headings_in(a) + headings_in(b),
{
    lemma_split_concat(a, b);
    lemma_split_nonempty(a);
    let x = split_lines(a).drop_last();
    lemma_headings_among_concat(x, split_lines(b));
    assert(split_lines(a).last() =~= Seq::<char>::empty());
    assert(heading_of(Seq::<char>::empty()) is None);
    assert(headings_among(split_lines(a)) == headings_among(x));
}

/// A line that begins with `n` markers and goes on with something that
/// is no marker begins with exactly `n` markers.
pub proof fn lemma_marker_count(n: nat, rest: Seq<char>)
    requires
        rest.len() == 0 || rest[0] != '#',
    ensures
        marker_count(repeated('#', n) + rest) == n,
    decreases n,
{
    let line = repeated('#', n) + rest;
    if n == 0 {
        assert(line =~= rest);
    } else {
        assert(line[0] == '#');
        assert(line.drop_first() =~= repeated('#', (n - 1) as nat) + rest);
        lemma_marker_count((n - 1) as nat, rest);
    }
}

/// In a text without heading lines no heading stands, and none stands in
/// it with a line feed behind it.
pub proof fn lemma_no_headings(text: Seq<char>)
    requires
        no_headings(text),
    ensures
        headings_in(text) == Seq::<(nat, Seq<char>)>::empty(),
        headings_in(text + seq!['\n']) == Seq::<(nat, Seq<char>)>::empty(),
{
    lemma_none_among(split_lines(text));
    let more = text + seq!['\n'];
    assert(more.drop_last() =~= text);
    assert(more.last() == '\n');
    assert(split_lines(more) == split_lines(text).push(Seq::empty()));
    assert(split_lines(more).drop_last() =~= split_lines(text));
    assert(heading_of(Seq::<char>::empty()) is None);
}

/// Among lines none of which is a heading line, no heading stands.
pub proof fn lemma_none_among(lines: Seq<Seq<char>>)
    requires
        forall|k: int| 0 <= k < lines.len() ==> heading_of(#[trigger] lines[k]) is None,
    ensures
        headings_among(lines) == Seq::<(nat, Seq<char>)>::empty(),
    decreases lines.len(),
{
    if lines.len() > 0 {
        let front = lines.drop_last();
        assert forall|k: int| 0 <= k < front.len() implies heading_of(#[trigger] front[k])
            is None by {
            assert(front[k] == lines[k]);
        }
        lemma_none_among(front);
        assert(lines.last() == lines[lines.len() - 1]);
    }
}

/// The headings among a single line.
pub proof fn lemma_headings_one(line: Seq<char>)
    ensures
        headings_among(seq![line]) == match heading_of(line) {
            Some(h) => seq![h],
            None => Seq::empty(),
        },
{
    let one = seq![line];
    let none = Seq::<Seq<char>>::empty();
    assert(one.drop_last() =~= none);
    assert(one.last() == line);
    assert(headings_among(none) =~= Seq::<(nat, Seq<char>)>::empty());
    match heading_of(line) {
        Some(h) => {
            assert(headings_among(none).push(h) =~= seq![h]);
        },
        None => {},
    }
}

/// The only heading in the block of a readable section is its own.
pub proof fn lemma_block_heading(bytes: Seq<u8>, section: SectionView)
    requires
        readable(bytes, section),
    ensures
        headings_in(section_block(bytes, section)) == seq![(section.level, section.title)],
        section_block(bytes, section).len() > 0,
        section_block(bytes, section).last() == '\n',
{
    reveal_strlit(" ");
    reveal_strlit("\n\n");
    let nl = seq!['\n'];
    let space = seq![' '];
    assert(" "@ =~= space);
    assert("\n\n"@ =~= nl + nl);
    let line = heading(section.level, section.title);
    let body = trim(stored_text(bytes, section.byte_start as int, section.byte_end as int));
    let block = section_block(bytes, section);
    // The heading line is one line, and it is a heading.
    assert(single_line(line)) by {
        assert forall|i: int| 0 <= i < line.len() implies #[trigger] line[i] != '\n' by {
            if i > section.level {
                assert(line[i] == section.title[i - section.level - 1]);
            }
        }
    }
    lemma_split_single(line);
    assert(line =~= repeated('#', section.level) + (space + section.title));
    lemma_marker_count(section.level, space + section.title);
    assert(line[section.level as int] == ' ');
    assert(line.skip(section.level as int + 1) =~= section.title);
    assert(heading_of(line) == Some((section.level, section.title)));
    let head = line + nl;
    assert(head.drop_last() =~= line);
    assert(head.last() == '\n');
    assert(split_lines(head) == seq![line].push(Seq::empty()));
    assert(split_lines(head).drop_last() =~= seq![line]);
    assert(heading_of(Seq::<char>::empty()) is None);
    lemma_headings_one(line);
    assert(headings_in(head) =~= seq![(section.level, section.title)]);
    // A blank line holds no heading.
    assert(no_headings(Seq::<char>::empty())) by {
        assert(split_lines(Seq::<char>::empty()) =~= seq![Seq::<char>::empty()]);
    }
    lemma_no_headings(Seq::<char>::empty());
    assert(Seq::<char>::empty() + nl =~= nl);
    assert(headings_in(nl) =~= Seq::<(nat, Seq<char>)>::empty());
    lemma_headings_concat(head, nl);
    let top = head + nl;
    assert(headings_in(top) =~= seq![(section.level, section.title)]);
    if body.len() > 0 {
        lemma_no_headings(body);
        lemma_headings_concat(top, body + nl);
        lemma_headings_concat(top + (body + nl), nl);
        assert(block =~= top + (body + nl) + nl);
        assert(headings_in(block) =~= seq![(section.level, section.title)]);
    } else {
        assert(block =~= top);
    }
}

/// The rewrite of a file ends a line, unless it is empty.
pub proof fn lemma_rewritten_ends_line(
    bytes: Seq<u8>,
    sections: Seq<SectionView>,
    path: Seq<char>,
)
    ensures
        rewritten(bytes, sections, path).len() == 0 || rewritten(bytes, sections, path).last()
            == '\n',
    decreases sections.len(),
{
    if sections.len() > 0 {
        lemma_rewritten_ends_line(bytes, sections.drop_last(), path);
        if sections.last().file_path == path {
            reveal_strlit("\n\n");
            let block = section_block(bytes, sections.last());
            assert(block.last() == '\n');
        } else {
            assert(rewritten(bytes, sections, path) =~= rewritten(
                bytes,
                sections.drop_last(),
                path,
            ));
        }
    }
}

/// The headings that stand in the rewrite of a file are those of its
/// sections, level and title, in list order: whoever reads the file anew
/// line by line finds the sections in the order in which the list held
/// them. This holds where every section of the file is readable.
pub proof fn lemma_rewrite_keeps_order(
    bytes: Seq<u8>,
    sections: Seq<SectionView>,
    path: Seq<char>,
)
    requires
        forall|i: int|
            0 <= i < sections.len() && (#[trigger] sections[i]).file_path == path ==> readable(
                bytes,
                sections[i],
            ),
    ensures
        headings_in(rewritten(bytes, sections, path)) == headings_for(sections, path),
    decreases sections.len(),
{
    if sections.len() == 0 {
        assert(split_lines(Seq::<char>::empty()) =~= seq![Seq::<char>::empty()]);
        assert(heading_of(Seq::<char>::empty()) is None);
        lemma_headings_one(Seq::<char>::empty());
    } else {
        let front = sections.drop_last();
        assert forall|i: int|
            0 <= i < front.len() && (#[trigger] front[i]).file_path == path implies readable(
            bytes,
            front[i],
        ) by {
            assert(front[i] == sections[i]);
        }
        lemma_rewrite_keeps_order(bytes, front, path);
        let last = sections.last();
        assert(last == sections[sections.len() - 1]);
        let before = rewritten(bytes, front, path);
        if last.file_path == path {
            lemma_rewritten_ends_line(bytes, front, path);
            lemma_block_heading(bytes, last);
            lemma_headings_concat(before, section_block(bytes, last));
        } else {
            assert(rewritten(bytes, sections, path) =~= before);
        }
    }
}

} // verus!
