//! Quoted literals in text: the spans between quotation marks, which no rewriting may touch,
//! and the plain spans around them.
use vstd::prelude::*;
use crate::runtime::matching;
use crate::text;

verus! {

/// A stretch of text: a quoted literal with its quotation marks, or what stands between two.
pub struct Span {
    pub literal: bool,
    pub text: String,
}

impl View for Span {
    type V = (bool, Seq<char>);

    open spec fn view(&self) -> (bool, Seq<char>) {
        (self.literal, self.text@)
    }
}

/// What a list of spans holds.
pub open spec fn span_views(spans: Seq<Span>) -> Seq<(bool, Seq<char>)> {
    spans.map_values(|span: Span| span@)
}

/// Appending a span appends what it holds.
pub proof fn lemma_span_views_push(spans: Seq<Span>, span: Span)
    ensures
        span_views(spans.push(span)) == span_views(spans).push(span@),
{
    assert(span_views(spans.push(span)) =~= span_views(spans).push(span@));
}

/// The quotation mark that ends a literal begun with the given one.
pub open spec fn spec_literal_closer(c: char) -> Option<char> {
    if c == '"' || c == '\'' || c == '`' {
        Some(c)
    } else if c == '「' {
        Some('」')
    } else if c == '『' {
        Some('』')
    } else {
        None
    }
}

/// The quotation mark that ends a literal begun with the given one.
pub fn literal_closer(c: char) -> (r: Option<char>)
    ensures
        r == spec_literal_closer(c),
{
    if c == '"' || c == '\'' || c == '`' {
        Some(c)
    } else if c == '「' {
        Some('」')
    } else if c == '『' {
        Some('』')
    } else {
        None
    }
}

/// A backslash escapes the next character only between these marks.
pub open spec fn spec_honours_escapes(closer: char) -> bool {
    closer == '"' || closer == '\'' || closer == '`'
}

/// How far a scan for literals has come: the spans that are complete, the span that is being
/// read, the mark that will end it where it is a literal, and whether an escape is open.
pub struct SpanScan {
    pub spans: Seq<(bool, Seq<char>)>,
    pub piece: Seq<char>,
    pub closer: Option<char>,
    pub escaped: bool,
}

/// The scan after one more character.
pub open spec fn scan_step(scan: SpanScan, c: char) -> SpanScan {
    match scan.closer {
        Some(closer) => {
            if spec_honours_escapes(closer) && c == '\\' && !scan.escaped {
                SpanScan { piece: scan.piece.push(c), escaped: true, ..scan }
            } else if c == closer && !scan.escaped {
                SpanScan {
                    spans: scan.spans.push((true, scan.piece.push(c))),
                    piece: Seq::empty(),
                    closer: None,
                    escaped: false,
                }
            } else {
                SpanScan { piece: scan.piece.push(c), escaped: false, ..scan }
            }
        },
        None => match spec_literal_closer(c) {
            Some(closer) => SpanScan {
                spans: scan.spans.push((false, scan.piece)),
                piece: seq![c],
                closer: Some(closer),
                escaped: false,
            },
            None => SpanScan { piece: scan.piece.push(c), ..scan },
        },
    }
}

/// The scan of a whole text.
pub open spec fn scan_spans(text: Seq<char>) -> SpanScan
    decreases text.len(),
{
    if text.len() == 0 {
        SpanScan { spans: Seq::empty(), piece: Seq::empty(), closer: None, escaped: false }
    } else {
        scan_step(scan_spans(text.drop_last()), text.last())
    }
}

/// The spans of a text: plain ones and quoted literals by turns. A literal that is not closed
/// reaches to the end.
pub open spec fn spec_quoted_spans(text: Seq<char>) -> Seq<(bool, Seq<char>)> {
    let scan = scan_spans(text);
    scan.spans.push((scan.closer is Some, scan.piece))
}

/// Divides a text into plain spans and quoted literals.
pub fn quoted_spans(text: &str) -> (r: Vec<Span>)
    ensures
        span_views(r@) == spec_quoted_spans(text@),
{
    let chars: Vec<char> = text::to_chars(text);
    let mut spans: Vec<Span> = Vec::new();
    let mut piece: String = String::new();
    let mut closer: Option<char> = None;
    let mut escaped: bool = false;
    assert(span_views(spans@) =~= scan_spans(text@.take(0)).spans);
    let mut i: usize = 0;
    while i < chars.len()
        invariant
            chars@ == text@,
            i <= chars@.len(),
            (SpanScan { spans: span_views(spans@), piece: piece@, closer, escaped }) == scan_spans(
                text@.take(i as int),
            ),
        decreases chars@.len() - i,
    {
        let c: char = chars[i];
        assert(text@.take(i + 1).drop_last() =~= text@.take(i as int));
        assert(text@.take(i + 1).last() == c);
        i = i + 1;
        match closer {
            Some(mark) => {
                let honours_escapes: bool = mark == '"' || mark == '\'' || mark == '`';
                if honours_escapes && c == '\\' && !escaped {
                    piece.push(c);
                    escaped = true;
                } else if c == mark && !escaped {
                    piece.push(c);
                    let span: Span = Span { literal: true, text: piece };
                    proof {
                        lemma_span_views_push(spans@, span);
                    }
                    spans.push(span);
                    piece = String::new();
                    closer = None;
                    escaped = false;
                } else {
                    piece.push(c);
                    escaped = false;
                }
            },
            None => match literal_closer(c) {
                Some(mark) => {
                    let span: Span = Span { literal: false, text: piece };
                    proof {
                        lemma_span_views_push(spans@, span);
                    }
                    spans.push(span);
                    piece = String::new();
                    piece.push(c);
                    assert(piece@ =~= seq![c]);
                    closer = Some(mark);
                    escaped = false;
                },
                None => {
                    piece.push(c);
                },
            },
        }
    }
    assert(text@.take(chars@.len() as int) =~= text@);
    let last: Span = Span { literal: closer.is_some(), text: piece };
    proof {
        lemma_span_views_push(spans@, last);
    }
    spans.push(last);
    spans
}

/// The spans one after the other, the plain ones rewritten.
pub open spec fn rewritten_spans(
    spans: Seq<(bool, Seq<char>)>,
    rewrite: spec_fn(Seq<char>) -> Seq<char>,
) -> Seq<char>
    decreases spans.len(),
{
    if spans.len() == 0 {
        Seq::empty()
    } else {
        let (literal, text) = spans.last();
        rewritten_spans(spans.drop_last(), rewrite) + (if literal {
            text
        } else {
            rewrite(text)
        })
    }
}

/// The text with every plain span rewritten and every quoted literal kept.
#[verifier::opaque]
pub open spec fn spec_map_unquoted_spans(
    text: Seq<char>,
    rewrite: spec_fn(Seq<char>) -> Seq<char>,
) -> Seq<char> {
    rewritten_spans(spec_quoted_spans(text), rewrite)
}

/// Rewrites every plain span of the text and keeps every quoted literal.
pub fn map_unquoted_spans<F: Fn(&str) -> String>(
    text: &str,
    transform: F,
    Ghost(rewrite): Ghost<spec_fn(Seq<char>) -> Seq<char>>,
) -> (r: String)
    requires
        forall|s: &str| call_requires(transform, (s,)),
        forall|s: &str, out: String|
            #[trigger] call_ensures(transform, (s,), out) ==> out@ == rewrite(s@),
    ensures
        r@ == spec_map_unquoted_spans(text@, rewrite),
{
    proof {
        reveal(spec_map_unquoted_spans);
    }
    let spans: Vec<Span> = quoted_spans(text);
    let mut out: String = String::new();
    let mut i: usize = 0;
    while i < spans.len()
        invariant
            i <= spans@.len(),
            out@ == rewritten_spans(span_views(spans@).take(i as int), rewrite),
            forall|s: &str| call_requires(transform, (s,)),
            forall|s: &str, out: String|
                #[trigger] call_ensures(transform, (s,), out) ==> out@ == rewrite(s@),
        decreases spans@.len() - i,
    {
        assert(span_views(spans@).take(i + 1).drop_last() =~= span_views(spans@).take(i as int));
        assert(span_views(spans@).take(i + 1).last() == spans@[i as int]@);
        if spans[i].literal {
            out.append(&spans[i].text);
        } else {
            let plain: &str = &spans[i].text;
            let rewritten: String = transform(plain);
            assert(rewritten@ == rewrite(plain@));
            out.append(&rewritten);
        }
        i = i + 1;
    }
    assert(span_views(spans@).take(spans@.len() as int) =~= span_views(spans@));
    out
}

/// Some plain span of the text holds one of the markers.
#[verifier::opaque]
pub open spec fn spec_contains_marker_outside_literal_spans(
    value: Seq<char>,
    markers: Seq<&str>,
) -> bool {
    let spans = spec_quoted_spans(value);
    exists|i: int|
        #![trigger spans[i]]
        0 <= i < spans.len() && !spans[i].0 && matching::spec_contains_any_marker(
            spans[i].1,
            markers,
        )
}

/// Whether one of the markers stands in the text outside quoted literals.
pub fn contains_marker_outside_literal_spans(value: &str, markers: &[&str]) -> (r: bool)
    ensures
        r == spec_contains_marker_outside_literal_spans(value@, markers@),
{
    proof {
        reveal(spec_contains_marker_outside_literal_spans);
    }
    let spans: Vec<Span> = quoted_spans(value);
    let mut i: usize = 0;
    while i < spans.len()
        invariant
            i <= spans@.len(),
            span_views(spans@) == spec_quoted_spans(value@),
            forall|j: int|
                #![trigger span_views(spans@)[j]]
                0 <= j < i && !span_views(spans@)[j].0 ==> !matching::spec_contains_any_marker(
                    span_views(spans@)[j].1,
                    markers@,
                ),
        decreases spans@.len() - i,
    {
        assert(span_views(spans@)[i as int] == spans@[i as int]@);
        if !spans[i].literal && matching::contains_any_marker(&spans[i].text, markers) {
            proof {
                reveal(spec_contains_marker_outside_literal_spans);
            }
            return true;
        }
        i = i + 1;
    }
    false
}

/// What the spans hold, one after the other.
pub open spec fn spans_text(spans: Seq<(bool, Seq<char>)>) -> Seq<char>
    decreases spans.len(),
{
    if spans.len() == 0 {
        Seq::empty()
    } else {
        spans_text(spans.drop_last()) + spans.last().1
    }
}

proof fn lemma_scan_covers(text: Seq<char>)
    ensures
        spans_text(scan_spans(text).spans) + scan_spans(text).piece == text,
    decreases text.len(),
{
    if text.len() > 0 {
        let before = scan_spans(text.drop_last());
        let after = scan_spans(text);
        lemma_scan_covers(text.drop_last());
        assert(text.drop_last().push(text.last()) =~= text);
        if after.spans.len() > before.spans.len() {
            assert(after.spans.drop_last() =~= before.spans);
        }
        assert(spans_text(after.spans) + after.piece =~= (spans_text(before.spans)
            + before.piece).push(text.last()));
    }
}

/// The spans of a text, one after the other, are the text: dividing it loses nothing.
pub proof fn spans_cover_text(text: Seq<char>)
    ensures
        spans_text(spec_quoted_spans(text)) == text,
{
    lemma_scan_covers(text);
    let scan = scan_spans(text);
    assert(spec_quoted_spans(text).drop_last() =~= scan.spans);
}

/// Where every plain span is rewritten to itself the text stays as it is.
pub proof fn identity_rewriting_keeps_text(text: Seq<char>)
    ensures
        spec_map_unquoted_spans(text, |s: Seq<char>| s) == text,
{
    reveal(spec_map_unquoted_spans);
    lemma_identity(spec_quoted_spans(text));
    spans_cover_text(text);
}

proof fn lemma_identity(spans: Seq<(bool, Seq<char>)>)
    ensures
        rewritten_spans(spans, |s: Seq<char>| s) == spans_text(spans),
    decreases spans.len(),
{
    if spans.len() > 0 {
        lemma_identity(spans.drop_last());
    }
}

/// A rewriting puts the literals of a text back as they were, in their order, with the
/// rewritten plain spans between them.
pub proof fn rewriting_keeps_literals(
    text: Seq<char>,
    rewrite: spec_fn(Seq<char>) -> Seq<char>,
)
    ensures
        spec_map_unquoted_spans(text, rewrite) == spans_text(
            spec_quoted_spans(text).map_values(
                |span: (bool, Seq<char>)|
                    (
                        span.0,
                        if span.0 {
                            span.1
                        } else {
                            rewrite(span.1)
                        },
                    ),
            ),
        ),
{
    reveal(spec_map_unquoted_spans);
    lemma_rewriting(spec_quoted_spans(text), rewrite);
}

proof fn lemma_rewriting(
    spans: Seq<(bool, Seq<char>)>,
    rewrite: spec_fn(Seq<char>) -> Seq<char>,
)
    ensures
        rewritten_spans(spans, rewrite) == spans_text(
            spans.map_values(
                |span: (bool, Seq<char>)|
                    (
                        span.0,
                        if span.0 {
                            span.1
                        } else {
                            rewrite(span.1)
                        },
                    ),
            ),
        ),
    decreases spans.len(),
{
    let f = |span: (bool, Seq<char>)|
        (
            span.0,
            if span.0 {
                span.1
            } else {
                rewrite(span.1)
            },
        );
    if spans.len() > 0 {
        lemma_rewriting(spans.drop_last(), rewrite);
        assert(spans.map_values(f).drop_last() =~= spans.drop_last().map_values(f));
    }
}

/// A text without marks of quotation is one plain span that is being read.
proof fn plain_text_is_being_read(text: Seq<char>)
    requires
        forall|i: int|
            0 <= i < text.len() ==> spec_literal_closer(#[trigger] text[i]) is None,
    ensures
        scan_spans(text) == (SpanScan {
            spans: Seq::empty(),
            piece: text,
            closer: None,
            escaped: false,
        }),
    decreases text.len(),
{
    if text.len() > 0 {
        let shorter = text.drop_last();
        assert forall|i: int| 0 <= i < shorter.len() implies spec_literal_closer(
            #[trigger] shorter[i],
        ) is None by {
            assert(shorter[i] == text[i]);
        }
        plain_text_is_being_read(shorter);
        assert(text.last() == text[text.len() - 1]);
        assert(shorter.push(text.last()) =~= text);
    } else {
        assert(text =~= Seq::empty());
    }
}

/// The text of a literal is being read up to its closing mark.
proof fn literal_is_being_read(before: Seq<char>, open: char, close: char, inner: Seq<char>)
    requires
        forall|i: int|
            0 <= i < before.len() ==> spec_literal_closer(#[trigger] before[i]) is None,
        spec_literal_closer(open) == Some(close),
        forall|i: int|
            0 <= i < inner.len() ==> #[trigger] inner[i] != close && inner[i] != '\\',
    ensures
        scan_spans(before + seq![open] + inner) == (SpanScan {
            spans: seq![(false, before)],
            piece: seq![open] + inner,
            closer: Some(close),
            escaped: false,
        }),
    decreases inner.len(),
{
    let whole = before + seq![open] + inner;
    if inner.len() == 0 {
        plain_text_is_being_read(before);
        assert(whole.drop_last() =~= before);
        assert(whole.last() == open);
        assert(Seq::<(bool, Seq<char>)>::empty().push((false, before)) =~= seq![(false, before)]);
        assert(seq![open] + inner =~= seq![open]);
    } else {
        let shorter = inner.drop_last();
        assert forall|i: int| 0 <= i < shorter.len() implies #[trigger] shorter[i] != close
            && shorter[i] != '\\' by {
            assert(shorter[i] == inner[i]);
        }
        literal_is_being_read(before, open, close, shorter);
        assert(whole.drop_last() =~= before + seq![open] + shorter);
        assert(whole.last() == inner[inner.len() - 1]);
        assert((seq![open] + shorter).push(inner.last()) =~= seq![open] + inner);
    }
}

/// Spans that were read stay.
proof fn read_spans_stay(text: Seq<char>, more: Seq<char>, k: int)
    requires
        0 <= k < scan_spans(text).spans.len(),
    ensures
        k < scan_spans(text + more).spans.len(),
        scan_spans(text + more).spans[k] == scan_spans(text).spans[k],
    decreases more.len(),
{
    let whole = text + more;
    if more.len() == 0 {
        assert(whole =~= text);
    } else {
        read_spans_stay(text, more.drop_last(), k);
        assert(whole.drop_last() =~= text + more.drop_last());
    }
}

/// What stands between the first mark of quotation of a text and the mark that closes it, with both
/// marks, is a literal of the text, and what stands before it is plain.
pub proof fn quoted_texts_are_literals(
    before: Seq<char>,
    open: char,
    inner: Seq<char>,
    close: char,
    after: Seq<char>,
)
    requires
        forall|i: int|
            0 <= i < before.len() ==> (#[trigger] before[i]) != '"' && before[i] != '\''
                && before[i] != '`' && before[i] != '「' && before[i] != '『',
        (open == '"' && close == '"') || (open == '\'' && close == '\'') || (open == '`' && close
            == '`') || (open == '「' && close == '」') || (open == '『' && close == '』'),
        forall|i: int|
            0 <= i < inner.len() ==> #[trigger] inner[i] != close && inner[i] != '\\',
    ensures
        ({
            let spans = spec_quoted_spans(before + seq![open] + inner + seq![close] + after);
            &&& spans.len() > 2
            &&& spans[0] == (false, before)
            &&& spans[1] == (true, seq![open] + inner + seq![close])
        }),
{
    let quoted = before + seq![open] + inner;
    let closed = quoted + seq![close];
    let whole = before + seq![open] + inner + seq![close] + after;
    literal_is_being_read(before, open, close, inner);
    assert(closed.drop_last() =~= quoted);
    assert(closed.last() == close);
    let literal = (true, (seq![open] + inner).push(close));
    assert(scan_spans(closed).spans =~= seq![(false, before), literal]);
    assert((seq![open] + inner).push(close) =~= seq![open] + inner + seq![close]);
    read_spans_stay(closed, after, 0);
    read_spans_stay(closed, after, 1);
    assert(closed + after =~= whole);
}

/// The text holds no mark that begins a literal.
pub open spec fn is_plain(text: Seq<char>) -> bool {
    forall|i: int|
        0 <= i < text.len() ==> (#[trigger] text[i]) != '"' && text[i] != '\'' && text[i] != '`'
            && text[i] != '「' && text[i] != '『'
}

/// A text without marks of quotation is one plain span.
pub proof fn texts_without_quotes_are_plain(text: Seq<char>)
    requires
        is_plain(text),
    ensures
        spec_quoted_spans(text) == seq![(false, text)],
    decreases text.len(),
{
    if text.len() == 0 {
        assert(text =~= Seq::empty());
        assert(spec_quoted_spans(text) =~= seq![(false, text)]);
    } else {
        let before = text.drop_last();
        assert forall|i: int| 0 <= i < before.len() implies (#[trigger] before[i]) != '"'
            && before[i] != '\'' && before[i] != '`' && before[i] != '「' && before[i] != '『' by {
            assert(before[i] == text[i]);
        }
        texts_without_quotes_are_plain(before);
        let scan = scan_spans(before);
        assert(spec_quoted_spans(before).len() == 1);
        assert(spec_quoted_spans(before)[0] == (false, before));
        assert(scan.spans =~= Seq::empty());
        assert(text[text.len() - 1] == text.last());
        assert(spec_literal_closer(text.last()) is None);
        assert(before.push(text.last()) =~= text);
        assert(spec_quoted_spans(text) =~= seq![(false, text)]);
    }
}

/// A text without marks of quotation is rewritten as a whole.
pub proof fn plain_texts_are_rewritten_whole(
    text: Seq<char>,
    rewrite: spec_fn(Seq<char>) -> Seq<char>,
)
    requires
        is_plain(text),
    ensures
        spec_map_unquoted_spans(text, rewrite) == rewrite(text),
{
    reveal(spec_map_unquoted_spans);
    reveal_with_fuel(rewritten_spans, 2);
    texts_without_quotes_are_plain(text);
    let spans = seq![(false, text)];
    assert(spans.drop_last() =~= Seq::empty());
    assert(rewritten_spans(spans, rewrite) =~= rewrite(text));
}

/// A marker of a text without marks of quotation stands outside literals.
pub proof fn markers_of_plain_texts_count(text: Seq<char>, markers: Seq<&str>)
    requires
        is_plain(text),
    ensures
        spec_contains_marker_outside_literal_spans(text, markers)
            == matching::spec_contains_any_marker(text, markers),
{
    reveal(spec_contains_marker_outside_literal_spans);
    texts_without_quotes_are_plain(text);
    let spans = spec_quoted_spans(text);
    assert(spans[0] == (false, text));
}

/// A marker that stands in a text as nothing but a literal does not count.
pub proof fn markers_in_literals_do_not_count(inner: Seq<char>, markers: Seq<&str>)
    requires
        forall|i: int| 0 <= i < inner.len() ==> (#[trigger] inner[i]) != '」',
        forall|i: int| 0 <= i < markers.len() ==> (#[trigger] markers[i])@.len() > 0,
    ensures
        !spec_contains_marker_outside_literal_spans(seq!['「'] + inner + seq!['」'], markers),
{
    reveal(spec_contains_marker_outside_literal_spans);
    let opened = seq!['「'] + inner;
    let whole = opened + seq!['」'];
    literal_is_open(inner);
    assert(whole.drop_last() =~= opened);
    let spans = spec_quoted_spans(whole);
    assert(spans =~= seq![
        (false, Seq::<char>::empty()),
        (true, opened.push('」')),
        (false, Seq::<char>::empty()),
    ]);
    assert forall|i: int| #![trigger spans[i]] 0 <= i < spans.len() && !spans[i].0 implies
        !matching::spec_contains_any_marker(spans[i].1, markers) by {
        assert(spans[i].1.len() == 0);
        assert forall|k: int| #![trigger markers[k]] 0 <= k < markers.len() implies
            !text::spec_contains(
            text::spec_lowercase(spans[i].1),
            text::spec_lowercase(markers[k]@),
        ) by {
            assert(text::spec_lowercase(markers[k]@).len() == markers[k]@.len());
            assert(text::spec_lowercase(spans[i].1).len() == 0);
        }
    }
}

/// A literal that begins a text is being read until it is closed.
proof fn literal_is_open(inner: Seq<char>)
    requires
        forall|i: int| 0 <= i < inner.len() ==> (#[trigger] inner[i]) != '」',
    ensures
        scan_spans(seq!['「'] + inner) == (SpanScan {
            spans: seq![(false, Seq::empty())],
            piece: seq!['「'] + inner,
            closer: Some('」'),
            escaped: false,
        }),
    decreases inner.len(),
{
    let opened = seq!['「'] + inner;
    if inner.len() == 0 {
        assert(opened =~= seq!['「']);
        assert(opened.drop_last() =~= Seq::empty());
        assert(scan_spans(opened.drop_last()).spans =~= Seq::empty());
        let scan = scan_spans(opened);
        assert(scan.spans =~= seq![(false, Seq::empty())]);
        assert(scan.piece =~= opened);
    } else {
        let before = inner.drop_last();
        assert forall|i: int| 0 <= i < before.len() implies (#[trigger] before[i]) != '」' by {
            assert(before[i] == inner[i]);
        }
        literal_is_open(before);
        assert(opened.drop_last() =~= seq!['「'] + before);
        assert(opened.last() == inner[inner.len() - 1]);
        assert((seq!['「'] + before).push(opened.last()) =~= opened);
    }
}

} // verus!
