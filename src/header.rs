//! The banner above the records: a rule with the file name, then a rule
//! with junctions over the gutter borders.
use crate::text::{down_tee_bar, down_tee_glyph, horizontal_bar, horizontal_glyph};
use vstd::prelude::*;

verus! {

/// A rule of `w` horizontal glyphs.
pub open spec fn rule(w: nat) -> Seq<char> {
    Seq::new(w, |i: int| horizontal_bar()[0])
}

/// A rule of `w` glyphs with down-tees at columns 0 and 9, above the gutter
/// borders of the records.
pub open spec fn tee_rule(w: nat) -> Seq<char> {
    Seq::new(w, |i: int| if i == 0 || i == 9 { down_tee_bar()[0] } else { horizontal_bar()[0] })
}

/// The banner for `title` at `w` columns.
pub open spec fn banner(title: Seq<char>, w: nat) -> Seq<char> {
    rule(w) + title + seq!['\n'] + tee_rule(w)
}

/// The banner: `h_size` horizontal glyphs followed by `input_file` and a
/// line break, then `h_size` glyphs with down-tees at columns 0 and 9.
pub fn print_header(input_file: &str, h_size: u16) -> (r: String)
    ensures
        r@ == banner(input_file@, h_size as nat),
{
    let top = horizontal_glyph();
    let tee = down_tee_glyph();
    let mut out = String::new();
    let mut i: u16 = 0;
    while i < h_size
        invariant
            i <= h_size,
            top@ == horizontal_bar(),
            out@ =~= rule(i as nat),
        decreases h_size - i,
    {
        out.append(top.as_str());
        i = i + 1;
        assert(out@ =~= rule(i as nat));
    }
    out.append(input_file);
    proof {
        reveal_strlit("\n");
    }
    out.append("\n");
    let ghost first = out@;
    assert(first =~= rule(h_size as nat) + input_file@ + seq!['\n']);
    let mut j: u16 = 0;
    while j < h_size
        invariant
            j <= h_size,
            top@ == horizontal_bar(),
            tee@ == down_tee_bar(),
            out@ =~= first + tee_rule(j as nat),
        decreases h_size - j,
    {
        if j == 0 || j == 9 {
            out.append(tee.as_str());
        } else {
            out.append(top.as_str());
        }
        j = j + 1;
        assert(out@ =~= first + tee_rule(j as nat));
    }
    out
}

} // verus!
