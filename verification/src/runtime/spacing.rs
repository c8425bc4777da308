//! White space in requests: line ends, blank lines and runs of spaces.
use vstd::prelude::*;
use crate::contents;
use crate::runtime::spans;
use crate::text;
use crate::runtime::typos;

verus! {

broadcast use crate::contents::group_contents;

/// The state of [`collapse_plain_spaces`] after the given items.
pub open spec fn spec_spaces_collapsed(items: Seq<char>) -> (Seq<char>, bool)
    decreases items.len(),
{
    if items.len() == 0 {
        (Seq::<char>::empty(), false)
    } else {
        let (compacted, previous_space) = spec_spaces_collapsed(items.drop_last());
        let c = items.last();
        if c == ' ' || c == '\t' {
            if !previous_space {
                let compacted = compacted.push(' ');
                let previous_space = true;
                (compacted, previous_space)
            } else {
                (compacted, previous_space)
            }
        } else {
            let compacted = compacted.push(c);
            let previous_space = false;
            (compacted, previous_space)
        }
    }
}

/// Value of [`collapse_plain_spaces`].
pub open spec fn spec_collapse_plain_spaces(text: Seq<char>) -> Seq<char> {
    let (compacted, previous_space) = spec_spaces_collapsed(text);
    compacted
}

/// The text with every run of spaces and tabs made one space.
pub fn collapse_plain_spaces(text: &str) -> (r: String)
    ensures
        r@ == spec_collapse_plain_spaces(text@),
{
    let mut compacted: String = String::new();
    let mut previous_space: bool = false;
    let characters: Vec<char> = text::to_chars(text);
    let mut i: usize = 0;
    while i < characters.len()
        invariant
            i <= characters@.len(),
            (compacted@, previous_space) == spec_spaces_collapsed(characters@.take(i as int)),
        decreases characters@.len() - i,
    {
        assert(characters@.take(i + 1).drop_last() =~= characters@.take(i as int));
        let c: char = characters[i];
        i = i + 1;
        if c == ' ' || c == '\t' {
            if !previous_space {
                compacted.push(' ');
                previous_space = true;
            }
            continue;
        }
        compacted.push(c);
        previous_space = false;
    }
    assert(characters@.take(characters@.len() as int) =~= characters@);
    compacted
}

/// Value of [`collapse_inline_spaces`].
#[verifier::opaque]
pub open spec fn spec_collapse_inline_spaces(text: Seq<char>) -> Seq<char> {
    spans::spec_map_unquoted_spans(text, |s: Seq<char>| spec_collapse_plain_spaces(s))
}

/// The text with runs of spaces outside quoted literals made one space.
pub fn collapse_inline_spaces(text: &str) -> (r: String)
    ensures
        r@ == spec_collapse_inline_spaces(text@),
{
    proof {
        reveal(spec_collapse_inline_spaces);
    }
    spans::map_unquoted_spans(
        text,
        collapse_plain_spaces,
        Ghost(|s: Seq<char>| spec_collapse_plain_spaces(s)),
    )
}

/// Value of [`compacted_line`].
#[verifier::opaque]
pub open spec fn spec_compacted_line(line: Seq<char>) -> Seq<char> {
    if typos::spec_should_preserve_line_spacing(line) {
        text::spec_trim_end(line)
    } else {
        spec_collapse_inline_spaces(text::spec_trim(line))
    }
}

/// A line trimmed at its end where its spacing means something, else trimmed at both ends and
/// with runs of spaces made one.
pub fn compacted_line(line: &str) -> (r: String)
    ensures
        r@ == spec_compacted_line(line@),
{
    proof {
        reveal(spec_compacted_line);
    }
    if typos::should_preserve_line_spacing(line) {
        return text::trim_end(line);
    }
    collapse_inline_spaces(&text::trim(line))
}

/// The state of [`compacted_lines`] after the given items.
pub open spec fn spec_lines_compacted(items: Seq<Seq<char>>) -> (Seq<Seq<char>>, bool)
    decreases items.len(),
{
    if items.len() == 0 {
        (Seq::<Seq<char>>::empty(), false)
    } else {
        let (kept, previous_blank) = spec_lines_compacted(items.drop_last());
        let line = items.last();
        let compacted = spec_compacted_line(line);
        if compacted.len() == 0 {
            if !previous_blank && kept.len() > 0 {
                let kept = kept.push(Seq::<char>::empty());
                let previous_blank = true;
                (kept, previous_blank)
            } else {
                (kept, previous_blank)
            }
        } else {
            let kept = kept.push(compacted);
            let previous_blank = false;
            (kept, previous_blank)
        }
    }
}

/// Value of [`compacted_lines`].
#[verifier::opaque]
pub open spec fn spec_compacted_lines(source: Seq<Seq<char>>) -> Seq<Seq<char>> {
    let (kept, previous_blank) = spec_lines_compacted(source);
    kept
}

/// The compacted lines, without blank ones at the start and with every run of blank ones made
/// one.
pub fn compacted_lines(source: &Vec<String>) -> (r: Vec<String>)
    ensures
        contents::views(r@) == spec_compacted_lines(contents::views(source@)),
{
    proof {
        reveal(spec_compacted_lines);
    }
    let mut kept: Vec<String> = Vec::new();
    let mut previous_blank: bool = false;
    let mut i: usize = 0;
    while i < source.len()
        invariant
            i <= source@.len(),
            (contents::views(kept@), previous_blank) == spec_lines_compacted(
                contents::views(source@).take(i as int),
            ),
        decreases source@.len() - i,
    {
        assert(contents::views(source@).take(i + 1).drop_last()
            =~= contents::views(source@).take(i as int));
        let line: &str = &source[i];
        i = i + 1;
        let compacted: String = compacted_line(line);
        if text::char_count(&compacted) == 0 {
            if !previous_blank && kept.len() > 0 {
                kept.push(String::new());
                previous_blank = true;
            }
            continue;
        }
        kept.push(compacted);
        previous_blank = false;
    }
    assert(contents::views(source@).take(source@.len() as int) =~= contents::views(source@));
    kept
}

/// The list without the empty texts at its end.
pub open spec fn spec_without_trailing_blanks(list: Seq<Seq<char>>) -> Seq<Seq<char>>
    decreases list.len(),
{
    if list.len() > 0 && list.last().len() == 0 {
        spec_without_trailing_blanks(list.drop_last())
    } else {
        list
    }
}

/// The list without the empty texts at its end.
pub fn without_trailing_blanks(list: Vec<String>) -> (r: Vec<String>)
    ensures
        contents::views(r@) == spec_without_trailing_blanks(contents::views(list@)),
{
    let mut kept: Vec<String> = list;
    while kept.len() > 0 && text::char_count(&kept[kept.len() - 1]) == 0
        invariant
            spec_without_trailing_blanks(contents::views(list@)) == spec_without_trailing_blanks(
                contents::views(kept@),
            ),
        decreases kept@.len(),
    {
        assert(contents::views(kept@).last() == kept@.last()@);
        let ghost before = kept@;
        kept.pop();
        assert(contents::views(kept@) =~= contents::views(before).drop_last());
    }
    assert(kept@.len() > 0 ==> contents::views(kept@).last() == kept@.last()@);
    kept
}

/// Value of [`normalize_input_whitespace`].
#[verifier::opaque]
pub open spec fn spec_normalize_input_whitespace(input: Seq<char>) -> Seq<char> {
    let unix_lines = text::spec_replace(
        text::spec_replace(input, "\r\n"@, "\n"@),
        "\r"@,
        "\n"@,
    );
    let normalized = text::spec_replace(unix_lines, "\u{3000}"@, " "@);
    text::spec_join(
        spec_without_trailing_blanks(spec_compacted_lines(text::spec_lines(normalized))),
        "\n"@,
    )
}

/// Normalizes line ends and wide spaces, compacts every line whose spacing means nothing, and
/// leaves at most one blank line between two others.
pub fn normalize_input_whitespace(input: &str) -> (r: String)
    ensures
        r@ == spec_normalize_input_whitespace(input@),
{
    proof {
        reveal(spec_normalize_input_whitespace);
    }
    let unix_lines: String = text::replace(
        &text::replace(input, "\r\n", "\n"),
        "\r",
        "\n",
    );
    let normalized: String = text::replace(&unix_lines, "\u{3000}", " ");
    text::join(&without_trailing_blanks(compacted_lines(&text::lines(&normalized))), "\n")
}

/// What the collapsing of spaces has made after the given text.
proof fn spaces_stand_alone(text: Seq<char>)
    ensures
        ({
            let (compacted, previous_space) = spec_spaces_collapsed(text);
            &&& previous_space == (compacted.len() > 0 && compacted.last() == ' ')
            &&& forall|i: int| 0 <= i < compacted.len() ==> #[trigger] compacted[i] != '\t'
            &&& forall|i: int|
                0 <= i < compacted.len() - 1 && #[trigger] compacted[i] == ' ' ==> compacted[i + 1]
                    != ' '
        }),
    decreases text.len(),
{
    if text.len() > 0 {
        spaces_stand_alone(text.drop_last());
    }
}

/// Collapsed spaces stand alone: no tab is left, and no two spaces stand side by side.
pub proof fn collapsed_spaces_stand_alone(text: Seq<char>)
    ensures
        ({
            let compacted = spec_collapse_plain_spaces(text);
            &&& forall|i: int| 0 <= i < compacted.len() ==> #[trigger] compacted[i] != '\t'
            &&& forall|i: int|
                0 <= i < compacted.len() - 1 && #[trigger] compacted[i] == ' ' ==> compacted[i + 1]
                    != ' '
        }),
{
    spaces_stand_alone(text);
}

/// What the compacting of lines has made after the given lines.
proof fn blank_lines_stand_alone(source: Seq<Seq<char>>)
    ensures
        ({
            let (kept, previous_blank) = spec_lines_compacted(source);
            &&& previous_blank == (kept.len() > 0 && kept.last().len() == 0)
            &&& kept.len() > 0 ==> kept[0].len() > 0
            &&& forall|i: int|
                0 <= i < kept.len() - 1 && (#[trigger] kept[i]).len() == 0 ==> kept[i + 1].len() > 0
        }),
    decreases source.len(),
{
    if source.len() > 0 {
        blank_lines_stand_alone(source.drop_last());
    }
}

/// Compacted lines do not begin with a blank one, and no two blank ones follow each other.
pub proof fn compacted_lines_are_set_apart_once(source: Seq<Seq<char>>)
    ensures
        ({
            let kept = spec_compacted_lines(source);
            &&& kept.len() > 0 ==> kept[0].len() > 0
            &&& forall|i: int|
                0 <= i < kept.len() - 1 && (#[trigger] kept[i]).len() == 0 ==> kept[i + 1].len() > 0
        }),
{
    reveal(spec_compacted_lines);
    blank_lines_stand_alone(source);
}

/// Collapsing spaces a second time changes nothing.
proof fn collapsed_spaces_stay(text: Seq<char>)
    ensures
        spec_spaces_collapsed(spec_spaces_collapsed(text).0) == spec_spaces_collapsed(text),
    decreases text.len(),
{
    if text.len() > 0 {
        let earlier = text.drop_last();
        collapsed_spaces_stay(earlier);
        spaces_stand_alone(text);
        let before = spec_spaces_collapsed(earlier).0;
        let after = spec_spaces_collapsed(text).0;
        if after != before {
            assert(after.drop_last() =~= before);
        }
    }
}

/// The spans with the spaces of the plain ones collapsed.
spec fn collapsed_spans(spans: Seq<(bool, Seq<char>)>) -> Seq<(bool, Seq<char>)> {
    spans.map_values(
        |span: (bool, Seq<char>)|
            (
                span.0,
                if span.0 {
                    span.1
                } else {
                    spec_collapse_plain_spaces(span.1)
                },
            ),
    )
}

/// The plain spans of a line, rewritten.
spec fn collapsed_head(spans: Seq<(bool, Seq<char>)>) -> Seq<char> {
    spans::rewritten_spans(spans, |s: Seq<char>| spec_collapse_plain_spaces(s))
}

/// One more span adds itself, collapsed where it is plain.
proof fn span_is_added(spans: Seq<(bool, Seq<char>)>, literal: bool, piece: Seq<char>)
    ensures
        collapsed_head(spans.push((literal, piece))) == collapsed_head(spans) + (if literal {
            piece
        } else {
            spec_collapse_plain_spaces(piece)
        }),
        collapsed_spans(spans.push((literal, piece))) == collapsed_spans(spans).push(
            (
                literal,
                if literal {
                    piece
                } else {
                    spec_collapse_plain_spaces(piece)
                },
            ),
        ),
{
    let more = spans.push((literal, piece));
    assert(more.drop_last() =~= spans);
    assert(more.last() == (literal, piece));
    assert(collapsed_spans(more) =~= collapsed_spans(spans).push(
        (
            literal,
            if literal {
                piece
            } else {
                spec_collapse_plain_spaces(piece)
            },
        ),
    ));
}

/// The span that is being read as it stands in the collapsed form.
spec fn open_piece(scan: spans::SpanScan) -> Seq<char> {
    if scan.closer is Some {
        scan.piece
    } else {
        spec_collapse_plain_spaces(scan.piece)
    }
}

/// The collapsed form of a line: its spans, and the one that is being read at its end.
proof fn collapsed_form(line: Seq<char>)
    ensures
        ({
            let scan = spans::scan_spans(line);
            spec_collapse_inline_spaces(line) == collapsed_head(scan.spans) + open_piece(scan)
        }),
{
    reveal(spec_collapse_inline_spaces);
    reveal(spans::spec_map_unquoted_spans);
    let scan = spans::scan_spans(line);
    span_is_added(scan.spans, scan.closer is Some, scan.piece);
}

/// The collapsed form of a line may be one with one more character: that character, or a space, or
/// nothing after a space.
spec fn may_follow(short: Seq<char>, before: Seq<char>, c: char) -> bool {
    ||| short == before.push(c)
    ||| (c == ' ' || c == '\t') && short == before.push(' ')
    ||| (c == ' ' || c == '\t') && short == before && before.len() > 0 && before.last() == ' '
}

/// One more character of a line changes its collapsed form by that character, by a space, or not
/// at all where a space stands before it.
proof fn collapsed_line_grows(line: Seq<char>)
    requires
        line.len() > 0,
    ensures
        may_follow(
            spec_collapse_inline_spaces(line),
            spec_collapse_inline_spaces(line.drop_last()),
            line.last(),
        ),
{
    let earlier = line.drop_last();
    let c = line.last();
    let scan = spans::scan_spans(line);
    let last = spans::scan_spans(earlier);
    let short = spec_collapse_inline_spaces(line);
    let before = spec_collapse_inline_spaces(earlier);
    collapsed_form(line);
    collapsed_form(earlier);
    assert(spec_collapse_plain_spaces(Seq::empty()) =~= Seq::empty());
    assert(scan == spans::scan_step(last, c));
    let head = collapsed_head(last.spans);
    match last.closer {
        Some(closer) => {
            if scan.closer is None {
                span_is_added(last.spans, true, last.piece.push(c));
                assert(short =~= head + last.piece.push(c));
            }
            assert(short =~= before.push(c));
        },
        None => {
            if scan.closer is Some {
                span_is_added(last.spans, false, last.piece);
                assert(short =~= before.push(c));
            } else {
                assert(scan.piece.drop_last() =~= last.piece);
                spaces_stand_alone(last.piece);
                let (compacted, previous_space) = spec_spaces_collapsed(last.piece);
                if (c == ' ' || c == '\t') && previous_space {
                    assert(before.last() == compacted.last());
                } else if c == ' ' || c == '\t' {
                    assert(short =~= before.push(' '));
                } else {
                    assert(short =~= before.push(c));
                }
            }
        },
    }
}

/// Quoted literals are read in the collapsed form of a line as in the line.
proof fn collapsing_keeps_the_scan(line: Seq<char>)
    ensures
        ({
            let scan = spans::scan_spans(line);
            spans::scan_spans(spec_collapse_inline_spaces(line)) == (spans::SpanScan {
                spans: collapsed_spans(scan.spans),
                piece: open_piece(scan),
                closer: scan.closer,
                escaped: scan.escaped,
            })
        }),
    decreases line.len(),
{
    let scan = spans::scan_spans(line);
    let short = spec_collapse_inline_spaces(line);
    collapsed_form(line);
    assert(spec_collapse_plain_spaces(Seq::empty()) =~= Seq::empty());
    if line.len() == 0 {
        assert(short =~= Seq::empty());
        assert(collapsed_spans(scan.spans) =~= Seq::empty());
    } else {
        let earlier = line.drop_last();
        let c = line.last();
        let last = spans::scan_spans(earlier);
        let before = spec_collapse_inline_spaces(earlier);
        collapsing_keeps_the_scan(earlier);
        collapsed_form(earlier);
        assert(scan == spans::scan_step(last, c));
        let short_scan = spans::scan_spans(before);
        let head = collapsed_head(last.spans);
        match last.closer {
            Some(closer) => {
                if scan.closer is None {
                    span_is_added(last.spans, true, last.piece.push(c));
                    assert(short =~= head + last.piece.push(c));
                }
                assert(short =~= before.push(c));
                assert(short.drop_last() =~= before);
                assert(spans::scan_spans(short) == spans::scan_step(short_scan, c));
            },
            None => {
                if scan.closer is Some {
                    span_is_added(last.spans, false, last.piece);
                    assert(short =~= before.push(c));
                    assert(short.drop_last() =~= before);
                    assert(spans::scan_spans(short) == spans::scan_step(short_scan, c));
                } else {
                    assert(scan.piece.drop_last() =~= last.piece);
                    let (compacted, previous_space) = spec_spaces_collapsed(last.piece);
                    if (c == ' ' || c == '\t') && previous_space {
                        assert(short =~= before);
                    } else {
                        let pushed = if c == '\t' {
                            ' '
                        } else {
                            c
                        };
                        assert(short =~= before.push(pushed));
                        assert(short.drop_last() =~= before);
                        assert(spans::scan_spans(short) == spans::scan_step(short_scan, pushed));
                    }
                }
            },
        }
    }
}

/// Collapsing the spaces of a line a second time changes nothing.
proof fn collapsed_line_stays(line: Seq<char>)
    ensures
        spec_collapse_inline_spaces(spec_collapse_inline_spaces(line))
            == spec_collapse_inline_spaces(line),
{
    reveal(spec_collapse_inline_spaces);
    reveal(spans::spec_map_unquoted_spans);
    collapsing_keeps_the_scan(line);
    let all = spans::spec_quoted_spans(line);
    let short = spec_collapse_inline_spaces(line);
    assert(spans::spec_quoted_spans(short) =~= collapsed_spans(all));
    rewriting_collapsed_spans(all);
}

/// Rewriting spans that are collapsed gives what rewriting them gave.
proof fn rewriting_collapsed_spans(spans: Seq<(bool, Seq<char>)>)
    ensures
        spans::rewritten_spans(
            collapsed_spans(spans),
            |s: Seq<char>| spec_collapse_plain_spaces(s),
        ) == spans::rewritten_spans(spans, |s: Seq<char>| spec_collapse_plain_spaces(s)),
    decreases spans.len(),
{
    if spans.len() > 0 {
        rewriting_collapsed_spans(spans.drop_last());
        assert(collapsed_spans(spans).drop_last() =~= collapsed_spans(spans.drop_last()));
        collapsed_spaces_stay(spans.last().1);
    } else {
        assert(collapsed_spans(spans) =~= spans);
    }
}

/// An empty line stays empty.
proof fn nothing_collapses_to_nothing()
    ensures
        spec_collapse_inline_spaces(Seq::empty()) == Seq::<char>::empty(),
{
    collapsed_form(Seq::empty());
    assert(spec_collapse_inline_spaces(Seq::empty()) =~= Seq::<char>::empty());
}

/// A line whose collapsed form holds no space is its collapsed form.
proof fn line_without_spaces_stays(line: Seq<char>)
    requires
        text::lacks(spec_collapse_inline_spaces(line), ' '),
    ensures
        spec_collapse_inline_spaces(line) == line,
    decreases line.len(),
{
    let short = spec_collapse_inline_spaces(line);
    if line.len() > 0 {
        collapsed_line_grows(line);
        let earlier = line.drop_last();
        let before = spec_collapse_inline_spaces(earlier);
        let c = line.last();
        assert(short == before.push(c)) by {
            if short == before.push(' ') {
                assert(short[short.len() - 1] == ' ');
            } else if short == before && before.len() > 0 {
                assert(before.last() == ' ' ==> short[short.len() - 1] == ' ');
            }
        }
        assert forall|i: int| 0 <= i < before.len() implies #[trigger] before[i] != ' ' by {
            assert(before[i] == short[i]);
        }
        line_without_spaces_stays(earlier);
        assert(earlier.push(c) =~= line);
    } else {
        assert(line =~= Seq::empty());
        nothing_collapses_to_nothing();
    }
}

/// A line begins with what its collapsed form begins with, where that holds no space.
proof fn collapsed_start_is_the_start(line: Seq<char>, start: Seq<char>)
    requires
        text::spec_starts_with(spec_collapse_inline_spaces(line), start),
        text::lacks(start, ' '),
    ensures
        text::spec_starts_with(line, start),
    decreases line.len(),
{
    let short = spec_collapse_inline_spaces(line);
    let n = start.len() as int;
    if line.len() == 0 {
        nothing_collapses_to_nothing();
        assert(line =~= Seq::empty());
        assert(line.subrange(0, 0) =~= start);
    } else {
        collapsed_line_grows(line);
        let earlier = line.drop_last();
        let before = spec_collapse_inline_spaces(earlier);
        if before.len() >= n {
            assert(before.subrange(0, n) =~= short.subrange(0, n));
            collapsed_start_is_the_start(earlier, start);
            assert(line.subrange(0, n) =~= earlier.subrange(0, n));
        } else {
            assert(short =~= short.subrange(0, n));
            line_without_spaces_stays(line);
        }
    }
}

/// The collapsed form of a line that neither begins nor ends with white space begins and ends with
/// the same characters, and brings no character but a space.
proof fn collapsed_line_keeps_its_ends(line: Seq<char>, c: char)
    requires
        line.len() > 0,
        !text::spec_is_whitespace(line[0]),
        !text::spec_is_whitespace(line.last()),
        c != ' ',
        text::lacks(line, c),
    ensures
        ({
            let short = spec_collapse_inline_spaces(line);
            &&& short.len() > 0
            &&& short[0] == line[0]
            &&& short.last() == line.last()
            &&& text::lacks(short, c)
        }),
{
    collapsed_line_grows(line);
    collapsed_line_begins_alike(line);
    collapsing_adds_spaces_only(line, c);
}

/// The collapsed form of a line that begins with no white space begins with the same character.
proof fn collapsed_line_begins_alike(line: Seq<char>)
    requires
        line.len() > 0,
        !text::spec_is_whitespace(line[0]),
    ensures
        spec_collapse_inline_spaces(line).len() > 0,
        spec_collapse_inline_spaces(line)[0] == line[0],
    decreases line.len(),
{
    collapsed_line_grows(line);
    let earlier = line.drop_last();
    if earlier.len() == 0 {
        assert(earlier =~= Seq::empty());
        nothing_collapses_to_nothing();
    } else {
        assert(earlier[0] == line[0]);
        collapsed_line_begins_alike(earlier);
    }
}

/// Collapsing brings no character but a space.
proof fn collapsing_adds_spaces_only(line: Seq<char>, c: char)
    requires
        c != ' ',
        text::lacks(line, c),
    ensures
        text::lacks(spec_collapse_inline_spaces(line), c),
    decreases line.len(),
{
    if line.len() == 0 {
        assert(line =~= Seq::empty());
        nothing_collapses_to_nothing();
    } else {
        collapsed_line_grows(line);
        let earlier = line.drop_last();
        assert forall|i: int| 0 <= i < earlier.len() implies #[trigger] earlier[i] != c by {
            assert(earlier[i] == line[i]);
        }
        collapsing_adds_spaces_only(earlier, c);
        assert(line[line.len() - 1] != c);
    }
}

/// A text that begins with no white space stays as it is when it is trimmed at its start.
proof fn nothing_is_trimmed(text: Seq<char>)
    requires
        text.len() == 0 || !text::spec_is_whitespace(text[0]),
        text.len() == 0 || !text::spec_is_whitespace(text.last()),
    ensures
        text::spec_trim_start(text) == text,
        text::spec_trim_end(text) == text,
        text::spec_trim(text) == text,
{
}

/// A compacted line ends with no white space, stays as it is when it is compacted again, and holds
/// no character but spaces that the line did not hold.
proof fn compacted_line_stays(line: Seq<char>, c: char)
    requires
        c != ' ',
        text::lacks(line, c),
    ensures
        ({
            let short = spec_compacted_line(line);
            &&& short.len() > 0 ==> !text::spec_is_whitespace(short.last())
            &&& spec_compacted_line(short) == short
            &&& text::lacks(short, c)
        }),
{
    reveal(spec_compacted_line);
    reveal_strlit(" ");
    reveal_strlit("\t");
    reveal_strlit("```");
    reveal_strlit("|");
    reveal_strlit(">");
    let short = spec_compacted_line(line);
    if typos::spec_should_preserve_line_spacing(line) {
        preserved_line_stays(line);
        text::trim_end_of(line);
        assert forall|i: int| 0 <= i < short.len() implies #[trigger] short[i] != c by {
            assert(short[i] == line[i]);
        }
    } else {
        let begun = text::spec_trim_start(line);
        let trimmed = text::spec_trim(line);
        text::trim_start_of(line);
        text::trim_end_of(begun);
        assert forall|i: int| 0 <= i < trimmed.len() implies #[trigger] trimmed[i] != c by {
            assert(trimmed[i] == begun[i]);
            assert(begun[i] == line[line.len() - begun.len() + i]);
        }
        if trimmed.len() == 0 {
            assert(trimmed =~= Seq::empty());
            nothing_collapses_to_nothing();
            nothing_is_trimmed(short);
            assert(!typos::spec_should_preserve_line_spacing(short));
        } else {
            assert(trimmed[0] == begun[0]);
            collapsed_line_keeps_its_ends(trimmed, c);
            nothing_is_trimmed(short);
            assert(!typos::spec_should_preserve_line_spacing(short)) by {
                collapsed_start_is_kept(line, "```"@);
                collapsed_start_is_kept(line, "|"@);
                collapsed_start_is_kept(line, ">"@);
                assert(" "@[0] == ' ' && "\t"@[0] == '\t');
                if text::spec_starts_with(short, " "@) {
                    assert(short.subrange(0, 1)[0] == short[0]);
                }
                if text::spec_starts_with(short, "\t"@) {
                    assert(short.subrange(0, 1)[0] == short[0]);
                }
            }
            collapsed_line_stays(trimmed);
        }
    }
}

/// What the collapsed form of a trimmed line begins with, where that holds no space, is what the
/// line begins with after white space.
proof fn collapsed_start_is_kept(line: Seq<char>, start: Seq<char>)
    requires
        text::lacks(start, ' '),
    ensures
        text::spec_starts_with(spec_collapse_inline_spaces(text::spec_trim(line)), start)
            ==> text::spec_starts_with(text::spec_trim_start(line), start),
{
    let begun = text::spec_trim_start(line);
    let trimmed = text::spec_trim(line);
    text::trim_end_of(begun);
    if text::spec_starts_with(spec_collapse_inline_spaces(trimmed), start) {
        collapsed_start_is_the_start(trimmed, start);
        let n = start.len() as int;
        assert(begun.subrange(0, n) =~= trimmed.subrange(0, n));
    }
}

/// A line whose spacing means something keeps it when it is compacted, and is such a line still.
proof fn preserved_line_stays(line: Seq<char>)
    requires
        typos::spec_should_preserve_line_spacing(line),
    ensures
        ({
            let short = text::spec_trim_end(line);
            &&& text::spec_trim_end(short) == short
            &&& spec_compacted_line(short) == short
        }),
{
    reveal(spec_compacted_line);
    reveal_strlit(" ");
    reveal_strlit("\t");
    reveal_strlit("```");
    reveal_strlit("|");
    reveal_strlit(">");
    let short = text::spec_trim_end(line);
    text::trim_end_of(line);
    text::trim_end_of(short);
    assert(text::spec_trim_end(short) == short);
    if short.len() == 0 {
        assert(short =~= Seq::empty());
        nothing_collapses_to_nothing();
        assert(text::spec_trim(short) =~= Seq::empty());
    } else {
        assert(typos::spec_should_preserve_line_spacing(short)) by {
            if text::spec_starts_with(line, " "@) {
                assert(line.subrange(0, 1)[0] == line[0]);
                assert(short.subrange(0, 1) =~= " "@);
            } else if text::spec_starts_with(line, "\t"@) {
                assert(line.subrange(0, 1)[0] == line[0]);
                assert(short.subrange(0, 1) =~= "\t"@);
            } else if text::spec_starts_with(text::spec_trim_start(line), "```"@) {
                start_is_kept(line, "```"@);
            } else if text::spec_starts_with(text::spec_trim_start(line), "|"@) {
                start_is_kept(line, "|"@);
            } else {
                start_is_kept(line, ">"@);
            }
        }
    }
}

/// What a line begins with after white space stays when the line is trimmed at its end, where it
/// ends with no white space itself.
proof fn start_is_kept(line: Seq<char>, start: Seq<char>)
    requires
        start.len() > 0,
        !text::spec_is_whitespace(start.last()),
        text::spec_starts_with(text::spec_trim_start(line), start),
    ensures
        text::spec_starts_with(text::spec_trim_start(text::spec_trim_end(line)), start),
    decreases line.len(),
{
    if line.len() > 0 && text::spec_is_whitespace(line.last()) {
        start_survives_one_drop(line, start);
        start_is_kept(line.drop_last(), start);
    }
}

/// What a line begins with after white space stays when one character of white space is dropped at
/// its end.
proof fn start_survives_one_drop(line: Seq<char>, start: Seq<char>)
    requires
        line.len() > 0,
        text::spec_is_whitespace(line.last()),
        start.len() > 0,
        !text::spec_is_whitespace(start.last()),
        text::spec_starts_with(text::spec_trim_start(line), start),
    ensures
        text::spec_starts_with(text::spec_trim_start(line.drop_last()), start),
    decreases line.len(),
{
    let n = start.len() as int;
    let shorter = line.drop_last();
    if text::spec_is_whitespace(line[0]) {
        if line.len() > 1 {
            assert(line.drop_first().drop_last() =~= shorter.drop_first());
            assert(line.drop_first().last() == line.last());
            assert(shorter.first() == line.first());
            start_survives_one_drop(line.drop_first(), start);
        } else {
            assert(text::spec_trim_start(line) == text::spec_trim_start(line.drop_first()));
            assert(text::spec_trim_start(line.drop_first()).len() == 0);
        }
    } else {
        assert(text::spec_trim_start(line) == line);
        assert(line.subrange(0, n) == start);
        assert(line.subrange(0, n)[n - 1] == line[n - 1]);
        assert(n - 1 != line.len() - 1);
        assert(shorter.len() > 0 && shorter[0] == line[0]);
        assert(shorter.subrange(0, n) =~= start);
    }
}

/// The lines hold no character but spaces that their source did not hold, stay as they are when
/// they are compacted again, and end with no white space.
spec fn lines_are_settled(lines: Seq<Seq<char>>) -> bool {
    &&& forall|k: int|
        0 <= k < lines.len() ==> spec_compacted_line(#[trigger] lines[k]) == lines[k]
    &&& forall|k: int|
        0 <= k < lines.len() ==> (#[trigger] lines[k]).len() == 0 || !text::spec_is_whitespace(
            lines[k].last(),
        )
}

/// Compacted lines are settled, and lack what their source lacks.
proof fn compacted_lines_are_settled(source: Seq<Seq<char>>, c: char)
    requires
        c != ' ',
        text::all_lack(source, c),
    ensures
        lines_are_settled(spec_lines_compacted(source).0),
        text::all_lack(spec_lines_compacted(source).0, c),
    decreases source.len(),
{
    if source.len() > 0 {
        let earlier = source.drop_last();
        let line = source.last();
        assert forall|k: int| 0 <= k < earlier.len() implies text::lacks(
            #[trigger] earlier[k],
            c,
        ) by {
            assert(earlier[k] == source[k]);
        }
        compacted_lines_are_settled(earlier, c);
        assert(text::lacks(source[source.len() - 1], c));
        compacted_line_stays(line, c);
        blank_line_stays();
        let before = spec_lines_compacted(earlier).0;
        let kept = spec_lines_compacted(source).0;
        assert forall|k: int| 0 <= k < kept.len() implies text::lacks(#[trigger] kept[k], c)
            && spec_compacted_line(kept[k]) == kept[k] && (kept[k].len() == 0
            || !text::spec_is_whitespace(kept[k].last())) by {
            if k < before.len() {
                assert(kept[k] == before[k]);
            }
        }
    }
}

/// A blank line stays blank.
proof fn blank_line_stays()
    ensures
        spec_compacted_line(Seq::empty()) == Seq::<char>::empty(),
{
    assert(text::lacks(Seq::empty(), '\n'));
    compacted_line_stays(Seq::empty(), '\n');
    reveal(spec_compacted_line);
    nothing_collapses_to_nothing();
    assert(text::spec_trim_end(Seq::empty()) =~= Seq::<char>::empty());
    assert(text::spec_trim(Seq::empty()) =~= Seq::<char>::empty());
}

/// A list without the empty texts at its end is a beginning of it, and its last text is not empty.
proof fn trailing_blanks_are_dropped(list: Seq<Seq<char>>)
    ensures
        spec_without_trailing_blanks(list).is_prefix_of(list),
        spec_without_trailing_blanks(list).len() > 0 ==> spec_without_trailing_blanks(
            list,
        ).last().len() > 0,
    decreases list.len(),
{
    if list.len() > 0 && list.last().len() == 0 {
        trailing_blanks_are_dropped(list.drop_last());
        let kept = spec_without_trailing_blanks(list.drop_last());
        assert(kept =~= list.subrange(0, kept.len() as int)) by {
            assert(kept =~= list.drop_last().subrange(0, kept.len() as int));
        }
    } else {
        assert(list =~= list.subrange(0, list.len() as int));
    }
}

/// The lines of a normalized text: there is at most one blank line between two others, none at
/// either end, and compacting the lines again changes nothing.
spec fn is_normal(lines: Seq<Seq<char>>) -> bool {
    &&& lines_are_settled(lines)
    &&& lines.len() > 0 ==> lines[0].len() > 0 && lines.last().len() > 0
    &&& forall|k: int|
        0 <= k < lines.len() - 1 && (#[trigger] lines[k]).len() == 0 ==> lines[k + 1].len() > 0
}

/// Normal lines stay as they are when they are compacted again.
proof fn normal_lines_stay(lines: Seq<Seq<char>>, n: int)
    requires
        is_normal(lines),
        0 <= n <= lines.len(),
    ensures
        spec_lines_compacted(lines.take(n)) == (
            lines.take(n),
            n > 0 && lines[n - 1].len() == 0,
        ),
    decreases n,
{
    if n > 0 {
        normal_lines_stay(lines, n - 1);
        assert(lines.take(n).drop_last() =~= lines.take(n - 1));
        assert(lines.take(n).last() == lines[n - 1]);
        assert(spec_compacted_line(lines[n - 1]) == lines[n - 1]);
        assert(lines.take(n - 1).push(lines[n - 1]) =~= lines.take(n));
        if lines[n - 1].len() == 0 {
            assert(lines[n - 1] =~= Seq::empty());
            if n > 1 && lines[n - 2].len() == 0 {
                assert(lines[n - 1].len() > 0);
            }
        }
    } else {
        assert(lines.take(0) =~= Seq::empty());
    }
}

/// The lines of which a normalized text is made.
spec fn normal_lines(input: Seq<char>) -> Seq<Seq<char>> {
    let unix_lines = text::spec_replace(
        text::spec_replace(input, "\r\n"@, "\n"@),
        "\r"@,
        "\n"@,
    );
    spec_without_trailing_blanks(
        spec_compacted_lines(
            text::spec_lines(text::spec_replace(unix_lines, "\u{3000}"@, " "@)),
        ),
    )
}

/// The lines of a normalized text are normal, and hold no end of a line and no wide space.
proof fn normalized_lines_are_normal(input: Seq<char>)
    ensures
        is_normal(normal_lines(input)),
        text::all_lack(normal_lines(input), '\n'),
        text::all_lack(normal_lines(input), '\r'),
        text::all_lack(normal_lines(input), '\u{3000}'),
{
    reveal_strlit("\r\n");
    reveal_strlit("\r");
    reveal_strlit("\n");
    reveal_strlit("\u{3000}");
    reveal_strlit(" ");
    let unix_lines = text::spec_replace(
        text::spec_replace(input, "\r\n"@, "\n"@),
        "\r"@,
        "\n"@,
    );
    let normalized = text::spec_replace(unix_lines, "\u{3000}"@, " "@);
    text::replaced_character_is_gone(
        text::spec_replace(input, "\r\n"@, "\n"@),
        "\r"@,
        "\n"@,
        0,
    );
    text::replacing_adds_nothing(unix_lines, "\u{3000}"@, " "@, 0, '\r');
    text::replaced_character_is_gone(unix_lines, "\u{3000}"@, " "@, 0);
    let source = text::spec_lines(normalized);
    lines_lack(normalized, '\n');
    lines_lack(normalized, '\r');
    lines_lack(normalized, '\u{3000}');
    reveal(spec_compacted_lines);
    compacted_lines_are_settled(source, '\n');
    compacted_lines_are_settled(source, '\r');
    compacted_lines_are_settled(source, '\u{3000}');
    compacted_lines_are_set_apart_once(source);
    let all = spec_compacted_lines(source);
    let kept = spec_without_trailing_blanks(all);
    trailing_blanks_are_dropped(all);
    assert forall|k: int| 0 <= k < kept.len() implies #[trigger] kept[k] == all[k] by {
        assert(kept =~= all.subrange(0, kept.len() as int));
    }
}

/// The lines of a text without carriage returns lack line feeds and what the text lacks.
proof fn lines_lack(text: Seq<char>, c: char)
    requires
        text::lacks(text, '\r'),
        c == '\n' || text::lacks(text, c),
    ensures
        text::all_lack(text::spec_lines(text), c),
{
    text::lines_without_returns(text);
    text::lemma_split_any_len(text, seq!['\n']);
    assert(seq!['\n'][0] == '\n');
    text::pieces_lack(text, seq!['\n'], c);
    let pieces = text::spec_split_any(text, seq!['\n']);
    let lines = text::spec_lines(text);
    assert forall|k: int| 0 <= k < lines.len() implies text::lacks(#[trigger] lines[k], c) by {
        assert(lines[k] == pieces[k]);
    }
}

/// A text that is made of normal lines has them as its lines.
proof fn joined_lines_are_the_lines(lines: Seq<Seq<char>>)
    requires
        is_normal(lines),
        text::all_lack(lines, '\n'),
        text::all_lack(lines, '\r'),
    ensures
        text::spec_lines(text::spec_join(lines, seq!['\n'])) == lines,
{
    let joined = text::spec_join(lines, seq!['\n']);
    text::joined_text_lacks(lines, seq!['\n'], '\r');
    text::lines_without_returns(joined);
    if lines.len() > 0 {
        text::joined_texts_are_the_pieces(lines, '\n');
    } else {
        assert(text::spec_split_any(joined, seq!['\n']).drop_last() =~= lines);
    }
}

/// Normalizing the white space of a request a second time changes nothing.
pub proof fn normalized_input_stays(input: Seq<char>)
    ensures
        spec_normalize_input_whitespace(spec_normalize_input_whitespace(input))
            == spec_normalize_input_whitespace(input),
{
    reveal(spec_normalize_input_whitespace);
    reveal(spec_compacted_lines);
    reveal_strlit("\r\n");
    reveal_strlit("\r");
    reveal_strlit("\n");
    reveal_strlit("\u{3000}");
    normalized_lines_are_normal(input);
    let lines = normal_lines(input);
    let joined = text::spec_join(lines, "\n"@);
    assert("\n"@ =~= seq!['\n']);
    text::joined_text_lacks(lines, "\n"@, '\r');
    text::joined_text_lacks(lines, "\n"@, '\u{3000}');
    text::nothing_is_replaced(joined, "\r\n"@, "\n"@, 0);
    text::nothing_is_replaced(joined, "\r"@, "\n"@, 0);
    text::nothing_is_replaced(joined, "\u{3000}"@, " "@, 0);
    assert(joined.skip(0) =~= joined);
    joined_lines_are_the_lines(lines);
    normal_lines_stay(lines, lines.len() as int);
    assert(lines.take(lines.len() as int) =~= lines);
    assert(spec_without_trailing_blanks(lines) == lines);
}

/// A text of normal lines has no three line feeds in a row, and ends with one only after a blank
/// line.
proof fn line_feeds_stand_apart(lines: Seq<Seq<char>>, n: int)
    requires
        is_normal(lines),
        text::all_lack(lines, '\n'),
        0 < n <= lines.len(),
    ensures
        ({
            let joined = text::spec_join(lines.take(n), seq!['\n']);
            &&& joined.len() > 0
            &&& joined[0] != '\n'
            &&& lines[n - 1].len() > 0 ==> joined.last() != '\n'
            &&& lines[n - 1].len() == 0 ==> joined.len() > 1 && joined[joined.len() - 2] != '\n'
            &&& forall|i: int|
                0 <= i < joined.len() - 2 && #[trigger] joined[i] == '\n' && joined[i + 1] == '\n'
                    ==> joined[i + 2] != '\n'
        }),
    decreases n,
{
    let joined = text::spec_join(lines.take(n), seq!['\n']);
    let line = lines[n - 1];
    assert(text::lacks(lines[n - 1], '\n'));
    if n == 1 {
        assert(lines.take(1)[0] == line);
        assert(joined == line);
        assert(joined[0] != '\n' && joined[joined.len() - 1] != '\n');
    } else {
        line_feeds_stand_apart(lines, n - 1);
        let before = text::spec_join(lines.take(n - 1), seq!['\n']);
        assert(lines.take(n).drop_last() =~= lines.take(n - 1));
        assert(lines.take(n).last() == line);
        assert(joined == before + seq!['\n'] + line);
        let cut = before.len() as int;
        assert(joined[cut] == '\n');
        if line.len() > 0 {
            assert(joined.last() == line[line.len() - 1]);
        } else {
            assert(lines[n - 2].len() > 0) by {
                if lines[n - 2].len() == 0 {
                    assert(lines[n - 1].len() > 0);
                }
            }
            assert(joined[joined.len() - 2] == before.last());
        }
        assert forall|i: int|
            0 <= i < joined.len() - 2 && #[trigger] joined[i] == '\n' && joined[i + 1]
                == '\n' implies joined[i + 2] != '\n' by {
            if i + 2 < cut {
                assert(before[i] == joined[i] && before[i + 1] == joined[i + 1]);
                assert(before[i + 2] == joined[i + 2]);
            } else if i + 2 == cut {
                assert(before[cut - 1] == '\n' && before[cut - 2] == '\n');
            } else {
                assert(joined[i + 2] == line[i + 2 - cut - 1]);
            }
        }
    }
}

/// The normalized form of a request holds no carriage return and no wide space, begins and ends
/// with no line feed, has no three line feeds in a row, and no line of it ends with white space.
pub proof fn normalized_input_is_tidy(input: Seq<char>)
    ensures
        ({
            let tidy = spec_normalize_input_whitespace(input);
            let lines = text::spec_lines(tidy);
            &&& text::lacks(tidy, '\r')
            &&& text::lacks(tidy, '\u{3000}')
            &&& tidy.len() > 0 ==> tidy[0] != '\n' && tidy.last() != '\n'
            &&& forall|i: int|
                0 <= i < tidy.len() - 2 && #[trigger] tidy[i] == '\n' && tidy[i + 1] == '\n'
                    ==> tidy[i + 2] != '\n'
            &&& forall|k: int|
                0 <= k < lines.len() ==> (#[trigger] lines[k]).len() == 0
                    || !text::spec_is_whitespace(lines[k].last())
        }),
{
    reveal(spec_normalize_input_whitespace);
    reveal_strlit("\n");
    normalized_lines_are_normal(input);
    let lines = normal_lines(input);
    assert("\n"@ =~= seq!['\n']);
    text::joined_text_lacks(lines, "\n"@, '\r');
    text::joined_text_lacks(lines, "\n"@, '\u{3000}');
    joined_lines_are_the_lines(lines);
    if lines.len() > 0 {
        line_feeds_stand_apart(lines, lines.len() as int);
        assert(lines.take(lines.len() as int) =~= lines);
    }
}

/// Dropping white space goes part by part.
proof fn dropped_part_by_part(a: Seq<char>, b: Seq<char>)
    ensures
        text::spec_compact_all_whitespace(a + b) == text::spec_compact_all_whitespace(a)
            + text::spec_compact_all_whitespace(b),
{
    Seq::filter_distributes_over_add(a, b, |c: char| !text::spec_is_whitespace(c));
}

/// White space alone is dropped altogether.
proof fn blank_is_dropped(blank: Seq<char>)
    requires
        text::is_white_between(blank, 0, blank.len() as int),
    ensures
        text::spec_compact_all_whitespace(blank) == Seq::<char>::empty(),
    decreases blank.len(),
{
    reveal(Seq::filter);
    if blank.len() > 0 {
        let before = blank.drop_last();
        assert forall|i: int| 0 <= i < before.len() implies text::spec_is_whitespace(
            #[trigger] before[i],
        ) by {
            assert(before[i] == blank[i]);
        }
        blank_is_dropped(before);
        assert(text::spec_is_whitespace(blank[blank.len() - 1]));
    } else {
        assert(text::spec_compact_all_whitespace(blank) =~= Seq::empty());
    }
}

/// A character alone is dropped where it is white space.
proof fn one_character(c: char)
    ensures
        text::spec_compact_all_whitespace(seq![c]) == if text::spec_is_whitespace(c) {
            Seq::empty()
        } else {
            seq![c]
        },
{
    reveal(Seq::filter);
    assert(seq![c].drop_last() =~= Seq::empty());
    assert(text::spec_compact_all_whitespace(Seq::empty()) =~= Seq::empty());
    if text::spec_is_whitespace(c) {
        assert(text::spec_compact_all_whitespace(seq![c]) =~= Seq::empty());
    } else {
        assert(text::spec_compact_all_whitespace(seq![c]) =~= seq![c]);
    }
}

/// A trimmed text holds the same beside white space.
proof fn trimming_drops_white_space(text: Seq<char>)
    ensures
        text::spec_compact_all_whitespace(text::spec_trim(text))
            == text::spec_compact_all_whitespace(text),
        text::spec_compact_all_whitespace(text::spec_trim_end(text))
            == text::spec_compact_all_whitespace(text),
{
    let (low, high) = text::trimmed_texts_are_parts(text);
    let size = text.len() as int;
    let first = text.subrange(0, low);
    let last = text.subrange(high, size);
    assert(text =~= first + text.subrange(low, high) + last);
    assert forall|i: int| 0 <= i < first.len() implies text::spec_is_whitespace(
        #[trigger] first[i],
    ) by {
        assert(first[i] == text[i]);
    }
    assert forall|i: int| 0 <= i < last.len() implies text::spec_is_whitespace(
        #[trigger] last[i],
    ) by {
        assert(last[i] == text[high + i]);
    }
    blank_is_dropped(first);
    blank_is_dropped(last);
    dropped_part_by_part(first + text.subrange(low, high), last);
    dropped_part_by_part(first, text.subrange(low, high));
    assert(text::spec_compact_all_whitespace(text) =~= text::spec_compact_all_whitespace(
        text::spec_trim(text),
    ));
    end_is_white(text);
}

/// A text trimmed at its end holds the same beside white space.
proof fn end_is_white(text: Seq<char>)
    ensures
        text::spec_compact_all_whitespace(text::spec_trim_end(text))
            == text::spec_compact_all_whitespace(text),
    decreases text.len(),
{
    if text.len() > 0 && text::spec_is_whitespace(text.last()) {
        let before = text.drop_last();
        end_is_white(before);
        one_character(text.last());
        dropped_part_by_part(before, seq![text.last()]);
        assert(text =~= before + seq![text.last()]);
        assert(text::spec_compact_all_whitespace(text) =~= text::spec_compact_all_whitespace(
            before,
        ));
    }
}

/// Collapsed spaces leave the rest as it is.
proof fn collapsing_drops_white_space(text: Seq<char>)
    ensures
        text::spec_compact_all_whitespace(spec_spaces_collapsed(text).0)
            == text::spec_compact_all_whitespace(text),
    decreases text.len(),
{
    if text.len() > 0 {
        let before = text.drop_last();
        let c = text.last();
        collapsing_drops_white_space(before);
        let compacted = spec_spaces_collapsed(before).0;
        assert(text =~= before + seq![c]);
        dropped_part_by_part(before, seq![c]);
        one_character(c);
        one_character(' ');
        dropped_part_by_part(compacted, seq![c]);
        dropped_part_by_part(compacted, seq![' ']);
        assert(compacted.push(c) =~= compacted + seq![c]);
        assert(compacted.push(' ') =~= compacted + seq![' ']);
        let rest = text::spec_compact_all_whitespace(before);
        assert(rest + Seq::<char>::empty() =~= rest);
    } else {
        assert(spec_spaces_collapsed(text).0 =~= text);
    }
}

/// Spans whose spaces are collapsed hold the same beside white space.
proof fn spans_keep_their_characters(spans: Seq<(bool, Seq<char>)>)
    ensures
        text::spec_compact_all_whitespace(
            spans::rewritten_spans(spans, |s: Seq<char>| spec_collapse_plain_spaces(s)),
        ) == text::spec_compact_all_whitespace(spans::spans_text(spans)),
    decreases spans.len(),
{
    if spans.len() > 0 {
        let before = spans.drop_last();
        spans_keep_their_characters(before);
        let rewrite = |s: Seq<char>| spec_collapse_plain_spaces(s);
        let last = spans.last();
        collapsing_drops_white_space(last.1);
        dropped_part_by_part(spans::rewritten_spans(before, rewrite), last.1);
        dropped_part_by_part(
            spans::rewritten_spans(before, rewrite),
            spec_collapse_plain_spaces(last.1),
        );
        dropped_part_by_part(spans::spans_text(before), last.1);
    }
}

/// A compacted line holds the same beside white space.
proof fn lines_keep_their_characters(line: Seq<char>)
    ensures
        text::spec_compact_all_whitespace(spec_compacted_line(line))
            == text::spec_compact_all_whitespace(line),
{
    reveal(spec_compacted_line);
    reveal(spec_collapse_inline_spaces);
    reveal(spans::spec_map_unquoted_spans);
    trimming_drops_white_space(line);
    let trimmed = text::spec_trim(line);
    spans_keep_their_characters(spans::spec_quoted_spans(trimmed));
    spans::spans_cover_text(trimmed);
}

/// What the lines hold beside white space, one after the other.
spec fn held_by_lines(lines: Seq<Seq<char>>) -> Seq<char>
    decreases lines.len(),
{
    if lines.len() == 0 {
        Seq::empty()
    } else {
        held_by_lines(lines.drop_last()) + text::spec_compact_all_whitespace(lines.last())
    }
}

/// Joined lines hold what the lines hold.
proof fn joined_lines_hold_the_same(lines: Seq<Seq<char>>)
    ensures
        text::spec_compact_all_whitespace(text::spec_join(lines, "\n"@)) == held_by_lines(lines),
    decreases lines.len(),
{
    reveal_strlit("\n");
    if lines.len() == 0 {
        reveal(Seq::filter);
        assert(text::spec_compact_all_whitespace(Seq::empty()) =~= Seq::empty());
    } else if lines.len() == 1 {
        assert(lines.drop_last() =~= Seq::empty());
        assert(held_by_lines(Seq::empty()) =~= Seq::empty());
        assert(held_by_lines(lines) =~= text::spec_compact_all_whitespace(lines[0]));
    } else {
        let before = lines.drop_last();
        joined_lines_hold_the_same(before);
        let joined = text::spec_join(before, "\n"@);
        assert("\n"@[0] == '\n');
        blank_is_dropped("\n"@);
        dropped_part_by_part(joined + "\n"@, lines.last());
        dropped_part_by_part(joined, "\n"@);
        let held = held_by_lines(before);
        assert(held + Seq::<char>::empty() =~= held);
    }
}

/// One line more holds what it holds.
proof fn one_line_more(lines: Seq<Seq<char>>, line: Seq<char>)
    ensures
        held_by_lines(lines.push(line)) == held_by_lines(lines) + text::spec_compact_all_whitespace(
            line,
        ),
{
    assert(lines.push(line).drop_last() =~= lines);
}

/// Compacted lines hold what the lines hold.
proof fn compacted_lines_hold_the_same(lines: Seq<Seq<char>>)
    ensures
        held_by_lines(spec_lines_compacted(lines).0) == held_by_lines(lines),
    decreases lines.len(),
{
    if lines.len() > 0 {
        let before = lines.drop_last();
        let line = lines.last();
        compacted_lines_hold_the_same(before);
        lines_keep_their_characters(line);
        let kept = spec_lines_compacted(before).0;
        one_line_more(kept, spec_compacted_line(line));
        one_line_more(kept, Seq::empty());
        reveal(Seq::filter);
        assert(text::spec_compact_all_whitespace(Seq::empty()) =~= Seq::empty());
        if spec_compacted_line(line).len() == 0 {
            assert(spec_compacted_line(line) =~= Seq::empty());
        }
        let held = held_by_lines(kept);
        assert(held + Seq::<char>::empty() =~= held);
    } else {
        assert(spec_lines_compacted(lines).0 =~= lines);
    }
}

/// Blank lines at the end hold nothing.
proof fn trailing_blanks_hold_nothing(lines: Seq<Seq<char>>)
    ensures
        held_by_lines(spec_without_trailing_blanks(lines)) == held_by_lines(lines),
    decreases lines.len(),
{
    if lines.len() > 0 && lines.last().len() == 0 {
        trailing_blanks_hold_nothing(lines.drop_last());
        reveal(Seq::filter);
        assert(lines.last() =~= Seq::empty());
        assert(text::spec_compact_all_whitespace(Seq::empty()) =~= Seq::empty());
        let held = held_by_lines(lines.drop_last());
        assert(held + Seq::<char>::empty() =~= held);
    }
}

/// The pieces between the ends of lines hold what the text holds.
proof fn pieces_hold_the_same(text: Seq<char>)
    ensures
        held_by_lines(text::spec_split_any(text, seq!['\n'])) == text::spec_compact_all_whitespace(
            text,
        ),
    decreases text.len(),
{
    let set = seq!['\n'];
    let pieces = text::spec_split_any(text, set);
    text::pieces_join_to_the_text(text, '\n');
    reveal_strlit("\n");
    assert("\n"@ =~= set);
    joined_lines_hold_the_same(pieces);
}

/// Lines without the carriage returns at their ends hold the same.
proof fn returns_hold_nothing(lines: Seq<Seq<char>>)
    ensures
        held_by_lines(text::spec_strip_returns(lines)) == held_by_lines(lines),
    decreases lines.len(),
{
    let stripped = text::spec_strip_returns(lines);
    if lines.len() > 0 {
        let before = lines.drop_last();
        let line = lines.last();
        returns_hold_nothing(before);
        assert(stripped.drop_last() =~= text::spec_strip_returns(before));
        if line.len() > 0 && line.last() == '\r' {
            let rest = line.drop_last();
            one_character('\r');
            dropped_part_by_part(rest, seq!['\r']);
            assert(line =~= rest + seq!['\r']);
            let held = text::spec_compact_all_whitespace(rest);
            assert(held + Seq::<char>::empty() =~= held);
        }
    } else {
        assert(stripped =~= lines);
    }
}

/// The lines of a text hold what the text holds.
proof fn lines_hold_the_same(text: Seq<char>)
    ensures
        held_by_lines(text::spec_lines(text)) == text::spec_compact_all_whitespace(text),
{
    let pieces = text::spec_split_any(text, seq!['\n']);
    text::lemma_split_any_len(text, seq!['\n']);
    pieces_hold_the_same(text);
    returns_hold_nothing(pieces.drop_last());
    one_line_more(text::spec_strip_returns(pieces.drop_last()), pieces.last());
    if pieces.last().len() == 0 {
        reveal(Seq::filter);
        assert(pieces.last() =~= Seq::empty());
        assert(text::spec_compact_all_whitespace(Seq::empty()) =~= Seq::empty());
        let held = held_by_lines(pieces.drop_last());
        assert(held + Seq::<char>::empty() =~= held);
    }
}

/// White space that comes for white space changes nothing else.
proof fn white_space_comes_for_white_space(
    text: Seq<char>,
    pattern: Seq<char>,
    replacement: Seq<char>,
    i: int,
)
    requires
        0 <= i <= text.len(),
        pattern.len() > 0,
        text::is_white_between(pattern, 0, pattern.len() as int),
        text::is_white_between(replacement, 0, replacement.len() as int),
    ensures
        text::spec_compact_all_whitespace(text::replaced_from(text, pattern, replacement, i))
            == text::spec_compact_all_whitespace(text.skip(i)),
    decreases text.len() - i,
{
    if i < text.len() {
        if text::occurs_at(text, pattern, i) {
            let next = i + pattern.len();
            white_space_comes_for_white_space(text, pattern, replacement, next);
            let after = text::replaced_from(text, pattern, replacement, next);
            assert(text.skip(i) =~= pattern + text.skip(next)) by {
                assert(text.subrange(i, next) == pattern);
                assert(text.skip(i) =~= text.subrange(i, next) + text.skip(next));
            }
            blank_is_dropped(pattern);
            blank_is_dropped(replacement);
            dropped_part_by_part(pattern, text.skip(next));
            dropped_part_by_part(replacement, after);
        } else {
            white_space_comes_for_white_space(text, pattern, replacement, i + 1);
            let after = text::replaced_from(text, pattern, replacement, i + 1);
            assert(text.skip(i) =~= seq![text[i]] + text.skip(i + 1));
            dropped_part_by_part(seq![text[i]], text.skip(i + 1));
            dropped_part_by_part(seq![text[i]], after);
        }
    }
}

/// A request whose white space is put in order holds the same characters beside it, in the same
/// order.
pub proof fn only_white_space_is_put_in_order(input: Seq<char>)
    ensures
        text::spec_compact_all_whitespace(spec_normalize_input_whitespace(input))
            == text::spec_compact_all_whitespace(input),
{
    reveal(spec_normalize_input_whitespace);
    reveal(spec_compacted_lines);
    reveal_strlit("\r\n");
    reveal_strlit("\r");
    reveal_strlit("\n");
    reveal_strlit("\u{3000}");
    reveal_strlit(" ");
    let first = text::spec_replace(input, "\r\n"@, "\n"@);
    let second = text::spec_replace(first, "\r"@, "\n"@);
    let third = text::spec_replace(second, "\u{3000}"@, " "@);
    white_space_comes_for_white_space(input, "\r\n"@, "\n"@, 0);
    white_space_comes_for_white_space(first, "\r"@, "\n"@, 0);
    white_space_comes_for_white_space(second, "\u{3000}"@, " "@, 0);
    assert(input.skip(0) =~= input);
    assert(first.skip(0) =~= first);
    assert(second.skip(0) =~= second);
    let lines = text::spec_lines(third);
    lines_hold_the_same(third);
    compacted_lines_hold_the_same(lines);
    let compacted = spec_compacted_lines(lines);
    trailing_blanks_hold_nothing(compacted);
    joined_lines_hold_the_same(spec_without_trailing_blanks(compacted));
}

} // verus!
