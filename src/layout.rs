//! The layout engine: a record turned into gutter-framed lines of styled
//! spans, and those lines turned into terminal text.
use crate::quality::{is_low_quality, is_poor};
use crate::text::{
    dark_green_code, dark_grey_code, decimal, decimal_text, pad_right, pad_text, paint_dark_green,
    paint_dark_grey, paint_red, painted, red_code, vertical_bar, vertical_glyph,
};
use vstd::prelude::*;
use vstd::string::StringSliceAdditionalSpecFns;

verus! {

/// How a span of text is shown.
#[derive(Clone, Copy, Debug, PartialEq, Eq, Structural)]
pub enum Tone {
    /// A read whose average quality is poor (red).
    Warning,
    /// A read whose average quality is acceptable (green).
    Healthy,
    /// Labels and secondary values (dark grey).
    Muted,
    /// Uncoloured text.
    Plain,
}

/// A run of text in one tone.
pub struct Span {
    pub text: String,
    pub tone: Tone,
}

impl View for Span {
    type V = (Seq<char>, Tone);

    open spec fn view(&self) -> (Seq<char>, Tone) {
        (self.text@, self.tone)
    }
}

/// One display line: its gutter, then its spans.
pub struct Line {
    pub gutter: String,
    pub spans: Vec<Span>,
}

impl View for Line {
    type V = (Seq<char>, Seq<(Seq<char>, Tone)>);

    open spec fn view(&self) -> (Seq<char>, Seq<(Seq<char>, Tone)>) {
        (self.gutter@, self.spans@.map_values(|s: Span| s@))
    }
}

/// Why a record cannot be laid out.
#[derive(Clone, Copy, Debug, PartialEq, Eq, Structural)]
pub enum RecordError {
    /// The quality string is empty.
    EmptyQuality,
    /// The quality string and the sequence differ in length.
    LengthMismatch,
}

/// Width of the index field between the two gutter borders.
pub const INDEX_WIDTH: usize = 8;

/// The lines of a block, as values.
pub open spec fn block_view(b: Seq<Line>) -> Seq<(Seq<char>, Seq<(Seq<char>, Tone)>)> {
    b.map_values(|l: Line| l@)
}

/// The texts of a sequence of strings.
pub open spec fn strings_view(v: Seq<String>) -> Seq<Seq<char>> {
    v.map_values(|s: String| s@)
}

/// The concatenation of a sequence of texts.
pub open spec fn joined(parts: Seq<Seq<char>>) -> Seq<char>
    decreases parts.len(),
{
    if parts.len() == 0 {
        Seq::empty()
    } else {
        parts[0] + joined(parts.drop_first())
    }
}

/// The gutter: a border, `label` left-aligned in the index field, a border.
pub open spec fn gutter(label: Seq<char>) -> Seq<char> {
    vertical_bar() + pad_right(label, INDEX_WIDTH as nat) + vertical_bar()
}

/// A printable ASCII character other than the space.
pub open spec fn is_graphic(c: char) -> bool {
    '!' <= c && c <= '~'
}

/// Every character is printable ASCII other than the space.
pub open spec fn all_graphic(s: Seq<char>) -> bool {
    forall|i: int| 0 <= i < s.len() ==> is_graphic(#[trigger] s[i])
}

/// `s` cut into consecutive pieces of `w` characters, the last one shorter.
pub open spec fn hard_wrap(s: Seq<char>, w: nat) -> Seq<Seq<char>>
    decreases s.len(),
{
    if w == 0 || s.len() <= w {
        seq![s]
    } else {
        seq![s.take(w as int)] + hard_wrap(s.skip(w as int), w)
    }
}

/// The lines that textwrap's `wrap` makes of `text` at `width` columns.
pub uninterp spec fn wrap_of(text: Seq<char>, width: usize) -> Seq<Seq<char>>;

/// Relies on `textwrap::wrap`, splitting words at spaces only, without
/// hyphenation, filling lines first-fit. Printable ASCII without spaces is
/// then one word, and every such character is one column wide, so the word
/// is broken every `width` columns and each piece fills a line of its own.
#[verifier::external_body]
fn wrap_text(text: &str, width: usize) -> (r: Vec<String>)
    ensures
        strings_view(r@) == wrap_of(text@, width),
        width >= 1 && all_graphic(text@) ==> strings_view(r@) == hard_wrap(text@, width as nat),
{
    let options = textwrap::Options::new(width)
        .word_separator(textwrap::WordSeparator::AsciiSpace)
        .word_splitter(textwrap::WordSplitter::NoHyphenation)
        .wrap_algorithm(textwrap::WrapAlgorithm::FirstFit);
    textwrap::wrap(text, options).into_iter().map(|l| l.into_owned()).collect()
}

/// `s` is empty or starts with printable ASCII other than the space, which
/// is not whitespace.
pub open spec fn starts_plain(s: Seq<char>) -> bool {
    s.len() == 0 || is_graphic(s[0])
}

/// A character with Unicode's White_Space property.
pub open spec fn is_white_space(c: char) -> bool {
    ('\u{9}' <= c && c <= '\u{d}') || c == ' ' || c == '\u{85}' || c == '\u{a0}' || c == '\u{1680}'
        || ('\u{2000}' <= c && c <= '\u{200a}') || c == '\u{2028}' || c == '\u{2029}' || c
        == '\u{202f}' || c == '\u{205f}' || c == '\u{3000}'
}

/// `s` without its leading whitespace.
pub open spec fn trim_start(s: Seq<char>) -> Seq<char>
    decreases s.len(),
{
    if s.len() > 0 && is_white_space(s[0]) {
        trim_start(s.drop_first())
    } else {
        s
    }
}

fn is_white_space_char(c: char) -> (r: bool)
    ensures
        r == is_white_space(c),
{
    ('\u{9}' <= c && c <= '\u{d}') || c == ' ' || c == '\u{85}' || c == '\u{a0}' || c == '\u{1680}'
        || ('\u{2000}' <= c && c <= '\u{200a}') || c == '\u{2028}' || c == '\u{2029}' || c
        == '\u{202f}' || c == '\u{205f}' || c == '\u{3000}'
}

/// `s` without its leading whitespace.
pub fn trim_leading(s: &str) -> (r: String)
    ensures
        r@ == trim_start(s@),
{
    let n = s.unicode_len();
    let mut i: usize = 0;
    assert(s@.skip(0) =~= s@);
    loop
        invariant
            i <= n,
            n == s@.len(),
            trim_start(s@) == trim_start(s@.skip(i as int)),
        ensures
            i <= n,
            trim_start(s@) == s@.skip(i as int),
        decreases n - i,
    {
        if i == n {
            assert(s@.skip(i as int).len() == 0);
            break;
        }
        let c = s.get_char(i);
        if !is_white_space_char(c) {
            assert(s@.skip(i as int)[0] == c);
            break;
        }
        proof {
            assert(s@.skip(i as int).drop_first() =~= s@.skip(i as int + 1));
        }
        i = i + 1;
    }
    let rest = s.substring_char(i, n);
    assert(rest@ =~= s@.skip(i as int));
    rest.to_owned()
}

/// The wrapped lines that are shown: a final empty line is dropped.
pub open spec fn kept_lines(ls: Seq<Seq<char>>) -> Seq<Seq<char>> {
    if ls.len() > 0 && ls.last().len() == 0 {
        ls.drop_last()
    } else {
        ls
    }
}

/// The display lines of wrapped text: each kept line, without leading
/// whitespace, after a gutter whose index field is blank.
pub open spec fn wrapped_view(wrapped: Seq<Seq<char>>) -> Seq<(Seq<char>, Seq<(Seq<char>, Tone)>)> {
    let kept = kept_lines(wrapped);
    Seq::new(
        kept.len(),
        |i: int| (gutter(Seq::empty()), seq![(trim_start(kept[i]), Tone::Plain)]),
    )
}

/// The tone of a read's name.
pub open spec fn name_tone(poor: bool) -> Tone {
    if poor { Tone::Warning } else { Tone::Healthy }
}

/// The tone of a read's average quality.
pub open spec fn score_tone(poor: bool) -> Tone {
    if poor { Tone::Warning } else { Tone::Muted }
}

/// The summary spans: name, "Length:", length, "| Q:", average quality.
pub open spec fn summary_view(name: Seq<char>, len: nat, avg: Seq<char>, poor: bool) -> Seq<(Seq<char>, Tone)> {
    seq![
        (name, name_tone(poor)),
        (seq![' '], Tone::Plain),
        (seq!['L', 'e', 'n', 'g', 't', 'h', ':'], Tone::Muted),
        (seq![' '], Tone::Plain),
        (decimal(len), Tone::Muted),
        (seq![' '], Tone::Plain),
        (seq!['|', ' ', 'Q', ':'], Tone::Muted),
        (seq![' '], Tone::Plain),
        (avg, score_tone(poor)),
    ]
}

/// A record's block: the indexed summary line, then its wrapped sequence.
pub open spec fn record_view(
    read_num: nat,
    name: Seq<char>,
    seq_len: nat,
    avg: Seq<char>,
    poor: bool,
    wrapped: Seq<Seq<char>>,
) -> Seq<(Seq<char>, Seq<(Seq<char>, Tone)>)> {
    seq![summary_line(read_num, name, seq_len, avg, poor)] + wrapped_view(wrapped)
}

/// A record's first line: the gutter with its index, then the summary.
pub open spec fn summary_line(read_num: nat, name: Seq<char>, seq_len: nat, avg: Seq<char>, poor: bool) -> (
    Seq<char>,
    Seq<(Seq<char>, Tone)>,
) {
    (gutter(decimal(read_num)), summary_view(name, seq_len, avg, poor))
}

/// The gutter with `label` in its index field.
pub fn gutter_text(label: String) -> (r: String)
    ensures
        r@ == gutter(label@),
{
    let bar = vertical_glyph();
    let field = pad_text(label, INDEX_WIDTH);
    let bar2 = vertical_glyph();
    let r = bar.concat(field.as_str()).concat(bar2.as_str());
    assert(r@ =~= gutter(label@));
    r
}

/// Display lines for text that is already wrapped.
pub fn gutter_lines(wrapped: &Vec<String>) -> (r: Vec<Line>)
    ensures
        block_view(r@) == wrapped_view(strings_view(wrapped@)),
{
    let ghost ws = strings_view(wrapped@);
    let mut n: usize = wrapped.len();
    if n > 0 && wrapped[n - 1].as_str().unicode_len() == 0 {
        n = n - 1;
    }
    proof {
        assert(kept_lines(ws).len() == n);
        assert(forall|i: int| 0 <= i < n ==> kept_lines(ws)[i] == wrapped@[i]@);
    }
    let blank = gutter_text(String::new());
    let mut out: Vec<Line> = Vec::new();
    let mut i: usize = 0;
    while i < n
        invariant
            n <= wrapped@.len(),
            i <= n,
            n == kept_lines(ws).len(),
            ws == strings_view(wrapped@),
            forall|k: int| 0 <= k < n ==> kept_lines(ws)[k] == wrapped@[k]@,
            blank@ == gutter(Seq::empty()),
            block_view(out@) =~= wrapped_view(ws).take(i as int),
        decreases n - i,
    {
        let content = trim_leading(wrapped[i].as_str());
        let mut spans: Vec<Span> = Vec::new();
        spans.push(Span { text: content, tone: Tone::Plain });
        let line = Line { gutter: blank.clone(), spans };
        proof {
            assert(line@.1 =~= seq![(trim_start(kept_lines(ws)[i as int]), Tone::Plain)]);
            assert(line@ == wrapped_view(ws)[i as int]);
        }
        let ghost before = out@;
        out.push(line);
        i = i + 1;
        proof {
            assert(out@ == before.push(line));
            assert(block_view(out@) =~= block_view(before).push(line@));
            assert(block_view(out@) =~= wrapped_view(ws).take(i as int));
        }
    }
    assert(wrapped_view(ws).take(n as int) =~= wrapped_view(ws));
    out
}

/// The display lines of `text` hard-wrapped at `w` columns: the k-th holds
/// the k-th piece of `w` characters after a blank gutter; empty text has
/// none.
pub open spec fn hard_lines(text: Seq<char>, w: nat) -> Seq<(Seq<char>, Seq<(Seq<char>, Tone)>)> {
    let kept = kept_lines(hard_wrap(text, w));
    Seq::new(kept.len(), |i: int| (gutter(Seq::empty()), seq![(kept[i], Tone::Plain)]))
}

/// `text` wrapped to `width` columns, as display lines with blank gutters.
/// Printable ASCII without spaces is cut every `width` characters.
pub fn print_wrapped_text(text: &str, width: usize) -> (r: Vec<Line>)
    ensures
        block_view(r@) == wrapped_view(wrap_of(text@, width)),
        width >= 1 && all_graphic(text@) ==> block_view(r@) == hard_lines(text@, width as nat),
        width >= 1 && text@.len() == 0 ==> r@.len() == 0,
        width >= 1 && all_graphic(text@) ==> joined(line_texts(block_view(r@))) == text@,
{
    let wrapped = wrap_text(text, width);
    let r = gutter_lines(&wrapped);
    proof {
        let ws = strings_view(wrapped@);
        let kept = kept_lines(ws);
        if width >= 1 && all_graphic(text@) {
            lemma_hard_wrap_pieces(text@, width as nat);
            assert forall|i: int| 0 <= i < kept.len() implies trim_start(#[trigger] kept[i]) == kept[i] by {
                assert(ws[i].len() > 0 ==> is_graphic(ws[i][0]));
            }
            assert(block_view(r@) =~= hard_lines(text@, width as nat));
        }
        if width >= 1 && text@.len() == 0 {
            assert(all_graphic(text@));
            assert(hard_wrap(text@, width as nat) == seq![text@]);
            assert(kept.len() == 0);
        }
        if width >= 1 && all_graphic(text@) {
            lemma_hard_wrap_joins(text@, width as nat);
            if ws.len() > 0 && ws.last().len() == 0 {
                lemma_joined_push(ws.drop_last(), ws.last());
                assert(ws.drop_last().push(ws.last()) =~= ws);
                assert(joined(kept) =~= joined(ws));
            }
            assert(joined(kept) == text@);
            assert(line_texts(block_view(r@)) =~= kept);
        }
    }
    r
}

/// The text of each line's first span: for wrapped lines, their content.
pub open spec fn line_texts(b: Seq<(Seq<char>, Seq<(Seq<char>, Tone)>)>) -> Seq<Seq<char>> {
    Seq::new(b.len(), |i: int| b[i].1[0].0)
}

proof fn lemma_joined_cons(a: Seq<char>, rest: Seq<Seq<char>>)
    ensures
        joined(seq![a] + rest) == a + joined(rest),
{
    assert((seq![a] + rest)[0] == a);
    assert((seq![a] + rest).drop_first() =~= rest);
}

/// The pieces of a hard wrap of non-empty text are non-empty, and pieces of
/// printable ASCII are printable ASCII.
pub proof fn lemma_hard_wrap_pieces(s: Seq<char>, w: nat)
    requires
        w >= 1,
    ensures
        s.len() > 0 ==> forall|i: int| 0 <= i < hard_wrap(s, w).len() ==> (#[trigger] hard_wrap(s, w)[i]).len() > 0,
        all_graphic(s) ==> forall|i: int| 0 <= i < hard_wrap(s, w).len() ==> all_graphic(#[trigger] hard_wrap(s, w)[i]),
        s.len() > 0 ==> hard_wrap(s, w).len() > 0 && hard_wrap(s, w).last().len() > 0,
    decreases s.len(),
{
    if s.len() > w {
        let rest = s.skip(w as int);
        lemma_hard_wrap_pieces(rest, w);
        let hw = hard_wrap(s, w);
        assert(hw == seq![s.take(w as int)] + hard_wrap(rest, w));
        assert forall|i: int| 0 <= i < hw.len() && i > 0 implies #[trigger] hw[i] == hard_wrap(rest, w)[i - 1] by {}
        if all_graphic(s) {
            assert(all_graphic(rest));
            assert(all_graphic(s.take(w as int)));
            assert forall|i: int| 0 <= i < hw.len() implies all_graphic(#[trigger] hw[i]) by {
                if i > 0 {
                    assert(hw[i] == hard_wrap(rest, w)[i - 1]);
                }
            }
        }
        assert(hw.last() == hard_wrap(rest, w).last());
    }
}

/// End of the k-th piece of a hard wrap at `w` columns of text `n` long.
pub open spec fn piece_end(k: int, w: nat, n: nat) -> int {
    if (k + 1) * w < n { (k + 1) * w } else { n as int }
}

/// The shape of a hard wrap of non-empty text at `w >= 1` columns: as many
/// lines as the text needs, `(count - 1) * w < len <= count * w`; the k-th
/// line holds characters `k * w` up to `min((k + 1) * w, len)`, so each line
/// has 1 to `w` characters.
pub proof fn lemma_hard_wrap_shape(s: Seq<char>, w: nat)
    requires
        w >= 1,
        s.len() > 0,
    ensures
        (hard_wrap(s, w).len() - 1) * w < s.len(),
        s.len() <= hard_wrap(s, w).len() * w,
        forall|k: int|
            0 <= k < hard_wrap(s, w).len() ==> #[trigger] hard_wrap(s, w)[k] == s.subrange(
                k * w,
                piece_end(k, w, s.len()),
            ),
        forall|k: int|
            0 <= k < hard_wrap(s, w).len() ==> 1 <= (#[trigger] hard_wrap(s, w)[k]).len() <= w,
    decreases s.len(),
{
    let hw = hard_wrap(s, w);
    let n = s.len();
    if n <= w {
        assert(hw == seq![s]);
        assert(s.subrange(0, piece_end(0, w, n)) =~= s);
    } else {
        let rest = s.skip(w as int);
        lemma_hard_wrap_shape(rest, w);
        let hr = hard_wrap(rest, w);
        let m = hr.len();
        assert(hw == seq![s.take(w as int)] + hr);
        assert(hw.len() == m + 1);
        lemma_count_step(m as int, w as int, n as int);
        assert forall|k: int| 0 <= k < hw.len() implies #[trigger] hw[k] == s.subrange(
            k * w,
            piece_end(k, w, n),
        ) by {
            if k == 0 {
                assert(hw[0] == s.take(w as int));
                assert(s.take(w as int) =~= s.subrange(0, piece_end(0, w, n)));
            } else {
                assert(hw[k] == hr[k - 1]);
                assert((k - 1) * w <= (m - 1) * w) by (nonlinear_arith)
                    requires
                        k - 1 <= m - 1,
                ;
                assert(hr[k - 1] == rest.subrange((k - 1) * w, piece_end(k - 1, w, rest.len())));
                lemma_piece_shift(s, w, k);
            }
        }
        assert forall|k: int| 0 <= k < hw.len() implies 1 <= (#[trigger] hw[k]).len() <= w by {
            if k == 0 {
                assert(hw[0] == s.take(w as int));
            } else {
                assert(hw[k] == hr[k - 1]);
            }
        }
    }
}

proof fn lemma_count_step(m: int, w: int, n: int)
    requires
        w >= 1,
        n > w,
        (m - 1) * w < n - w,
        n - w <= m * w,
    ensures
        m * w < n,
        n <= (m + 1) * w,
{
    assert(m * w == (m - 1) * w + w) by (nonlinear_arith);
    assert((m + 1) * w == m * w + w) by (nonlinear_arith);
}

/// Piece `k >= 1` of `s` is piece `k - 1` of `s` without its first `w`
/// characters, shifted by `w`.
proof fn lemma_piece_shift(s: Seq<char>, w: nat, k: int)
    requires
        w >= 1,
        s.len() > w,
        1 <= k,
        (k - 1) * w < s.len() - w,
    ensures
        s.skip(w as int).subrange((k - 1) * w, piece_end(k - 1, w, (s.len() - w) as nat)) == s.subrange(
            k * w,
            piece_end(k, w, s.len()),
        ),
{
    let n = s.len();
    let rest = s.skip(w as int);
    assert((k - 1) * w + w == k * w) by (nonlinear_arith);
    assert(k * w + w == (k + 1) * w) by (nonlinear_arith);
    assert(0 <= (k - 1) * w) by (nonlinear_arith)
        requires
            k >= 1,
    ;
    let a = (k - 1) * w;
    let b = piece_end(k - 1, w, (n - w) as nat);
    assert(b + w == piece_end(k, w, n));
    assert(0 <= a <= b <= n - w);
    assert forall|j: int| 0 <= j < b - a implies rest.subrange(a, b)[j] == s.subrange(a + w, b + w)[j] by {
        assert(rest[a + j] == s[a + j + w]);
    }
    assert(rest.subrange(a, b) =~= s.subrange(a + w, b + w));
}

/// Hard wrapping keeps the text: its pieces, joined, give the text back.
pub proof fn lemma_hard_wrap_joins(s: Seq<char>, w: nat)
    requires
        w >= 1,
    ensures
        joined(hard_wrap(s, w)) == s,
    decreases s.len(),
{
    if s.len() <= w {
        lemma_joined_cons(s, Seq::empty());
        assert(seq![s] + Seq::<Seq<char>>::empty() =~= seq![s]);
        assert(s + Seq::<char>::empty() =~= s);
    } else {
        lemma_hard_wrap_joins(s.skip(w as int), w);
        lemma_joined_cons(s.take(w as int), hard_wrap(s.skip(w as int), w));
        assert(s.take(w as int) + s.skip(w as int) =~= s);
    }
}

/// Decimal numerals of values below 10^8 fit the index field.
pub proof fn lemma_decimal_fits(n: nat)
    requires
        n < 100_000_000,
    ensures
        decimal(n).len() <= INDEX_WIDTH,
{
    assert(pow10(8) == 100_000_000) by {
        reveal_with_fuel(pow10, 9);
    }
    lemma_decimal_len(n, 8);
}

pub open spec fn pow10(k: nat) -> nat
    decreases k,
{
    if k == 0 { 1 } else { 10 * pow10((k - 1) as nat) }
}

proof fn lemma_decimal_len(n: nat, k: nat)
    requires
        k >= 1,
        n < pow10(k),
    ensures
        decimal(n).len() <= k,
    decreases k,
{
    if n >= 10 {
        if k == 1 {
            assert(pow10(1) == 10) by {
                assert(pow10(0) == 1);
            }
        } else {
            let k1 = (k - 1) as nat;
            assert(n / 10 < pow10(k1)) by (nonlinear_arith)
                requires
                    n < 10 * pow10(k1),
            ;
            lemma_decimal_len(n / 10, k1);
        }
    }
}

/// Every line of a record's block has a gutter of the same width, one
/// border, the eight-column index field and another border, however many
/// lines the sequence wraps to; read indices up to eight digits fit.
pub proof fn lemma_gutter_width(
    read_num: nat,
    name: Seq<char>,
    seq_len: nat,
    avg: Seq<char>,
    poor: bool,
    wrapped: Seq<Seq<char>>,
)
    requires
        read_num < 100_000_000,
    ensures
        forall|k: int|
            0 <= k < record_view(read_num, name, seq_len, avg, poor, wrapped).len() ==> (#[trigger] record_view(
                read_num,
                name,
                seq_len,
                avg,
                poor,
                wrapped,
            )[k]).0.len() == 2 + INDEX_WIDTH,
{
    lemma_decimal_fits(read_num);
    let b = record_view(read_num, name, seq_len, avg, poor, wrapped);
    assert forall|k: int| 0 <= k < b.len() implies (#[trigger] b[k]).0.len() == 2 + INDEX_WIDTH by {
        if k == 0 {
            assert(b[0].0 == gutter(decimal(read_num)));
        } else {
            assert(b[k] == wrapped_view(wrapped)[k - 1]);
            assert(pad_right(Seq::<char>::empty(), INDEX_WIDTH as nat).len() == INDEX_WIDTH);
        }
    }
}

/// The quality threshold: an average of exactly 20 shows the read as
/// healthy, any average below 20 as a warning.
pub proof fn lemma_quality_threshold(q: Seq<u8>)
    requires
        q.len() > 0,
    ensures
        crate::quality::phred_total(q) >= 20 * q.len() ==> name_tone(is_poor(q)) == Tone::Healthy && score_tone(is_poor(q)) == Tone::Muted,
        crate::quality::phred_total(q) == 20 * q.len() ==> name_tone(is_poor(q)) == Tone::Healthy,
        crate::quality::phred_total(q) < 20 * q.len() ==> name_tone(is_poor(q)) == Tone::Warning && score_tone(is_poor(q)) == Tone::Warning,
{
}

/// A span of `text` in `tone`.
fn span(text: String, tone: Tone) -> (r: Span)
    ensures
        r@ == (text@, tone),
{
    Span { text, tone }
}

/// A single space.
fn space() -> (r: Span)
    ensures
        r@ == (seq![' '], Tone::Plain),
{
    proof {
        reveal_strlit(" ");
    }
    span(" ".to_owned(), Tone::Plain)
}

/// The summary spans of a read.
pub fn summary_spans(name: &str, seq_len: usize, avg_text: &str, poor: bool) -> (r: Vec<Span>)
    ensures
        r@.map_values(|s: Span| s@) == summary_view(name@, seq_len as nat, avg_text@, poor),
{
    proof {
        reveal_strlit("Length:");
        reveal_strlit("| Q:");
    }
    let name_tone = if poor { Tone::Warning } else { Tone::Healthy };
    let score_tone = if poor { Tone::Warning } else { Tone::Muted };
    let mut v: Vec<Span> = Vec::new();
    v.push(span(name.to_owned(), name_tone));
    v.push(space());
    v.push(span("Length:".to_owned(), Tone::Muted));
    v.push(space());
    v.push(span(decimal_text(seq_len as u64), Tone::Muted));
    v.push(space());
    v.push(span("| Q:".to_owned(), Tone::Muted));
    v.push(space());
    v.push(span(avg_text.to_owned(), score_tone));
    assert(v@[2]@.0 =~= seq!['L', 'e', 'n', 'g', 't', 'h', ':']);
    assert(v@[6]@.0 =~= seq!['|', ' ', 'Q', ':']);
    assert(v@[4]@.0 == decimal(seq_len as nat));
    assert(v@.map_values(|s: Span| s@) =~= summary_view(name@, seq_len as nat, avg_text@, poor));
    v
}

/// A record's fields are consistent: a non-empty quality string as long
/// as the sequence, both counted in bytes.
pub open spec fn record_ok(seq_bytes: nat, qual_bytes: nat) -> bool {
    qual_bytes > 0 && qual_bytes == seq_bytes
}

/// The block of record number `read_num`: a line whose gutter holds the
/// index, with name, length and average quality (`avg_text`), then the
/// sequence wrapped to `width` columns. The name and the average are shown
/// as a warning when the average Phred value is below 20.
pub fn format_record(
    read_num: u64,
    name: &str,
    sequence: &str,
    quality: &str,
    avg_text: &str,
    width: usize,
) -> (r: Result<Vec<Line>, RecordError>)
    ensures
        quality.spec_bytes().len() == 0 ==> r == Err::<Vec<Line>, RecordError>(RecordError::EmptyQuality),
        quality.spec_bytes().len() > 0 && quality.spec_bytes().len() != sequence.spec_bytes().len()
            ==> r == Err::<Vec<Line>, RecordError>(RecordError::LengthMismatch),
        record_ok(sequence.spec_bytes().len(), quality.spec_bytes().len()) ==> (r matches Ok(b)
            && block_view(b@) == record_view(
                read_num as nat,
                name@,
                sequence.spec_bytes().len(),
                avg_text@,
                is_poor(quality.spec_bytes()),
                wrap_of(sequence@, width),
            )),
        record_ok(sequence.spec_bytes().len(), quality.spec_bytes().len()) && width >= 1 && all_graphic(
            sequence@,
        ) ==> (r matches Ok(b) && block_view(b@) == seq![
            summary_line(
                read_num as nat,
                name@,
                sequence.spec_bytes().len(),
                avg_text@,
                is_poor(quality.spec_bytes()),
            ),
        ] + hard_lines(sequence@, width as nat)),
{
    let qual = quality.as_bytes();
    let seq_bytes = sequence.as_bytes();
    if qual.len() == 0 {
        return Err(RecordError::EmptyQuality);
    }
    if qual.len() != seq_bytes.len() {
        return Err(RecordError::LengthMismatch);
    }
    let poor = is_low_quality(qual);
    let summary = Line {
        gutter: gutter_text(decimal_text(read_num)),
        spans: summary_spans(name, seq_bytes.len(), avg_text, poor),
    };
    let mut rest = print_wrapped_text(sequence, width);
    let mut block: Vec<Line> = Vec::new();
    block.push(summary);
    let ghost head = block_view(block@);
    let ghost rest_view = block_view(rest@);
    block.append(&mut rest);
    assert(block_view(block@) =~= head + rest_view);
    assert(head =~= seq![(gutter(decimal(read_num as nat)), summary_view(name@, sequence.spec_bytes().len(), avg_text@, poor))]);
    Ok(block)
}

/// `shown` is how `text` in `tone` appears on the terminal: as it is when
/// plain; else warnings in red, healthy reads in dark green and muted text
/// in dark grey.
pub open spec fn shows(text: Seq<char>, tone: Tone, shown: Seq<char>) -> bool {
    match tone {
        Tone::Plain => shown == text,
        Tone::Warning => painted(text, red_code(), shown),
        Tone::Healthy => painted(text, dark_green_code(), shown),
        Tone::Muted => painted(text, dark_grey_code(), shown),
    }
}

/// `out` is how `line` appears: its gutter, each span as `shows` allows,
/// and a line break.
pub open spec fn line_shows(line: (Seq<char>, Seq<(Seq<char>, Tone)>), out: Seq<char>) -> bool {
    exists|parts: Seq<Seq<char>>|
        parts.len() == line.1.len()
        && (forall|k: int| 0 <= k < parts.len() ==> shows(line.1[k].0, line.1[k].1, #[trigger] parts[k]))
        && out == line.0 + joined(parts) + seq!['\n']
}

/// `out` is how the lines of `block` appear, one after another.
pub open spec fn block_shows(block: Seq<(Seq<char>, Seq<(Seq<char>, Tone)>)>, out: Seq<char>) -> bool {
    exists|parts: Seq<Seq<char>>|
        parts.len() == block.len()
        && (forall|k: int| 0 <= k < parts.len() ==> line_shows(block[k], #[trigger] parts[k]))
        && out == joined(parts)
}

proof fn lemma_joined_push(parts: Seq<Seq<char>>, x: Seq<char>)
    ensures
        joined(parts.push(x)) == joined(parts) + x,
    decreases parts.len(),
{
    if parts.len() == 0 {
        assert(parts.push(x).drop_first() =~= Seq::<Seq<char>>::empty());
        assert(parts.push(x)[0] == x);
        assert(joined(parts.push(x).drop_first()) == Seq::<char>::empty());
        assert(joined(parts.push(x)) =~= x);
    } else {
        assert(parts.push(x).drop_first() =~= parts.drop_first().push(x));
        lemma_joined_push(parts.drop_first(), x);
        assert(joined(parts.push(x)) =~= joined(parts) + x);
    }
}

/// A span as terminal text.
fn render_span(s: &Span) -> (r: String)
    ensures
        shows(s.text@, s.tone, r@),
{
    match s.tone {
        Tone::Warning => paint_red(s.text.as_str()),
        Tone::Healthy => paint_dark_green(s.text.as_str()),
        Tone::Muted => paint_dark_grey(s.text.as_str()),
        Tone::Plain => s.text.clone(),
    }
}

/// A line as terminal text: gutter, coloured spans, line break.
pub fn render_line(line: &Line) -> (r: String)
    ensures
        line_shows(line@, r@),
{
    let mut out = line.gutter.clone();
    let ghost mut parts: Seq<Seq<char>> = Seq::empty();
    let mut i: usize = 0;
    while i < line.spans.len()
        invariant
            i <= line.spans@.len(),
            parts.len() == i,
            forall|k: int| 0 <= k < i ==> shows(line@.1[k].0, line@.1[k].1, #[trigger] parts[k]),
            out@ == line.gutter@ + joined(parts),
        decreases line.spans@.len() - i,
    {
        let piece = render_span(&line.spans[i]);
        proof {
            lemma_joined_push(parts, piece@);
            parts = parts.push(piece@);
        }
        out.append(piece.as_str());
        i = i + 1;
        assert(out@ =~= line.gutter@ + joined(parts));
    }
    proof {
        reveal_strlit("\n");
    }
    out.append("\n");
    assert(out@ =~= line@.0 + joined(parts) + seq!['\n']);
    out
}

/// A block as terminal text.
pub fn render_block(block: &Vec<Line>) -> (r: String)
    ensures
        block_shows(block_view(block@), r@),
{
    let mut out = String::new();
    let ghost mut parts: Seq<Seq<char>> = Seq::empty();
    let mut i: usize = 0;
    while i < block.len()
        invariant
            i <= block@.len(),
            parts.len() == i,
            forall|k: int| 0 <= k < i ==> line_shows(block_view(block@)[k], #[trigger] parts[k]),
            out@ == joined(parts),
        decreases block@.len() - i,
    {
        let piece = render_line(&block[i]);
        proof {
            lemma_joined_push(parts, piece@);
            parts = parts.push(piece@);
        }
        out.append(piece.as_str());
        i = i + 1;
    }
    out
}

} // verus!
