//! Plain-text building blocks: decimal numerals, padding, box-drawing glyphs
//! and coloured text.
use crossterm::style::Stylize;
use vstd::prelude::*;

verus! {

/// The light vertical box-drawing glyph.
pub open spec fn vertical_bar() -> Seq<char> {
    seq!['\u{2502}']
}

/// The light horizontal box-drawing glyph.
pub open spec fn horizontal_bar() -> Seq<char> {
    seq!['\u{2500}']
}

/// The light down-and-horizontal (down-tee) box-drawing glyph.
pub open spec fn down_tee_bar() -> Seq<char> {
    seq!['\u{252C}']
}

/// The decimal digit of a value below ten.
pub open spec fn digit_char(d: nat) -> char {
    if d == 0 { '0' }
    else if d == 1 { '1' }
    else if d == 2 { '2' }
    else if d == 3 { '3' }
    else if d == 4 { '4' }
    else if d == 5 { '5' }
    else if d == 6 { '6' }
    else if d == 7 { '7' }
    else if d == 8 { '8' }
    else { '9' }
}

/// The decimal numeral of `n`, without leading zeros.
pub open spec fn decimal(n: nat) -> Seq<char>
    decreases n,
{
    if n < 10 {
        seq![digit_char(n)]
    } else {
        decimal(n / 10) + seq![digit_char(n % 10)]
    }
}

/// `n` spaces.
pub open spec fn spaces(n: nat) -> Seq<char> {
    Seq::new(n, |i: int| ' ')
}

/// `s` left-aligned in a field of `w` columns: padded with spaces on the
/// right, never cut.
pub open spec fn pad_right(s: Seq<char>, w: nat) -> Seq<char> {
    if s.len() >= w {
        s
    } else {
        s + spaces((w - s.len()) as nat)
    }
}

fn digit_text(d: u64) -> (r: &'static str)
    requires
        d < 10,
    ensures
        r@ == seq![digit_char(d as nat)],
{
    proof {
        reveal_strlit("0");
        reveal_strlit("1");
        reveal_strlit("2");
        reveal_strlit("3");
        reveal_strlit("4");
        reveal_strlit("5");
        reveal_strlit("6");
        reveal_strlit("7");
        reveal_strlit("8");
        reveal_strlit("9");
    }
    if d == 0 { "0" }
    else if d == 1 { "1" }
    else if d == 2 { "2" }
    else if d == 3 { "3" }
    else if d == 4 { "4" }
    else if d == 5 { "5" }
    else if d == 6 { "6" }
    else if d == 7 { "7" }
    else if d == 8 { "8" }
    else { "9" }
}

/// The decimal numeral of `n`.
pub fn decimal_text(n: u64) -> (r: String)
    ensures
        r@ == decimal(n as nat),
{
    let mut s = String::new();
    let mut m: u64 = n;
    loop
        invariant_except_break
            m == 0 ==> s@.len() == 0,
        invariant
            decimal(n as nat) == (if m == 0 && s@.len() > 0 {
                Seq::<char>::empty()
            } else {
                decimal(m as nat)
            }) + s@,
        ensures
            decimal(n as nat) == s@,
        decreases m,
    {
        let d = digit_text(m % 10);
        let head = d.to_owned();
        let next = m / 10;
        proof {
            assert(decimal(n as nat) =~= decimal(m as nat) + s@);
            if m >= 10 {
                assert(decimal(m as nat) == decimal(next as nat) + seq![digit_char((m % 10) as nat)]);
                assert(decimal(n as nat) == decimal(next as nat) + (head@ + s@));
            } else {
                assert(decimal(m as nat) == seq![digit_char(m as nat)]);
                assert(decimal(n as nat) =~= head@ + s@);
            }
        }
        s = head.concat(s.as_str());
        m = next;
        if m == 0 {
            assert(decimal(n as nat) =~= Seq::<char>::empty() + s@);
            break;
        }
    }
    s
}

/// `s` padded with spaces on the right to at least `w` characters.
pub fn pad_text(s: String, w: usize) -> (r: String)
    ensures
        r@ == pad_right(s@, w as nat),
{
    let mut out = s;
    let mut n: usize = out.as_str().unicode_len();
    while n < w
        invariant
            n == out@.len(),
            s@.len() >= w ==> out@ == s@,
            s@.len() < w ==> n <= w && out@ == s@ + spaces((n - s@.len()) as nat),
        decreases w - n,
    {
        proof {
            reveal_strlit(" ");
            assert(spaces((n + 1 - s@.len()) as nat) =~= spaces((n - s@.len()) as nat) + seq![' ']);
        }
        out.append(" ");
        n = n + 1;
        proof {
            if s@.len() < w {
                assert(out@ =~= s@ + spaces((n - s@.len()) as nat));
            }
        }
    }
    proof {
        if s@.len() < w {
            assert(n == w);
        }
    }
    out
}

/// Relies on boxy's `Char::vertical(Weight::Normal)`, which displays as the
/// light vertical glyph U+2502.
#[verifier::external_body]
pub(crate) fn vertical_glyph() -> (r: String)
    ensures
        r@ == vertical_bar(),
{
    boxy::Char::vertical(boxy::Weight::Normal).to_string()
}

/// Relies on boxy's `Char::horizontal(Weight::Normal)`, which displays as
/// the light horizontal glyph U+2500.
#[verifier::external_body]
pub(crate) fn horizontal_glyph() -> (r: String)
    ensures
        r@ == horizontal_bar(),
{
    boxy::Char::horizontal(boxy::Weight::Normal).to_string()
}

/// Relies on boxy's `Char::down_tee(Weight::Normal)`, which displays as the
/// light down-and-horizontal glyph U+252C.
#[verifier::external_body]
pub(crate) fn down_tee_glyph() -> (r: String)
    ensures
        r@ == down_tee_bar(),
{
    boxy::Char::down_tee(boxy::Weight::Normal).to_string()
}

/// A control sequence: ESC, '[', `params`, 'm'.
pub open spec fn csi(params: Seq<char>) -> Seq<char> {
    seq!['\u{1b}', '['] + params + seq!['m']
}

/// The 256-colour palette index of red.
pub open spec fn red_code() -> Seq<char> {
    seq!['9']
}

/// The 256-colour palette index of dark green.
pub open spec fn dark_green_code() -> Seq<char> {
    seq!['2']
}

/// The 256-colour palette index of dark grey.
pub open spec fn dark_grey_code() -> Seq<char> {
    seq!['8']
}

/// `r` is `s` in the foreground colour of palette index `code`: the colour
/// code, the text and the foreground reset; or, with colour output turned
/// off (NO_COLOR), the text between two empty control sequences; or, on a
/// Windows console without ANSI support, where the colour is set through
/// the console API instead, nothing.
pub open spec fn painted(s: Seq<char>, code: Seq<char>, r: Seq<char>) -> bool {
    r == csi(seq!['3', '8', ';', '5', ';'] + code) + s + csi(seq!['3', '9'])
        || r == csi(Seq::empty()) + s + csi(Seq::empty())
        || r == Seq::<char>::empty()
}

/// Relies on crossterm's `Stylize::red` shown with `Display`: `ESC[38;5;9m`,
/// the text, `ESC[39m`; with NO_COLOR set, `ESC[m` on each side instead; on
/// a Windows console without ANSI support, nothing.
#[verifier::external_body]
pub(crate) fn paint_red(s: &str) -> (r: String)
    ensures
        painted(s@, red_code(), r@),
{
    s.red().to_string()
}

/// Relies on crossterm's `Stylize::dark_green` shown with `Display`:
/// `ESC[38;5;2m`, the text, `ESC[39m`; with NO_COLOR set, `ESC[m` on each
/// side instead; on a Windows console without ANSI support, nothing.
#[verifier::external_body]
pub(crate) fn paint_dark_green(s: &str) -> (r: String)
    ensures
        painted(s@, dark_green_code(), r@),
{
    s.dark_green().to_string()
}

/// Relies on crossterm's `Stylize::dark_grey` shown with `Display`:
/// `ESC[38;5;8m`, the text, `ESC[39m`; with NO_COLOR set, `ESC[m` on each
/// side instead; on a Windows console without ANSI support, nothing.
#[verifier::external_body]
pub(crate) fn paint_dark_grey(s: &str) -> (r: String)
    ensures
        painted(s@, dark_grey_code(), r@),
{
    s.dark_grey().to_string()
}

} // verus!
