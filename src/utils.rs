use unicode_width::UnicodeWidthStr;
use vstd::prelude::*;

verus! {

/// Number of terminal columns that `unicode_width` gives a string.
pub uninterp spec fn display_width(s: Seq<char>) -> nat;

/// Relies on `UnicodeWidthStr::width` for `str`: the column count is a
/// function of the characters alone, and an empty string takes no column.
#[verifier::external_body]
fn str_width(s: &str) -> (r: usize)
    ensures
        r as nat == display_width(s@),
        s@.len() == 0 ==> r == 0,
{
    s.width()
}

/// `n` space characters.
pub open spec fn spaces(n: nat) -> Seq<char> {
    Seq::new(n, |_i: int| ' ')
}

/// The text padded on the right to `width` columns, given that it takes
/// `shown` columns already.
pub open spec fn padded(s: Seq<char>, shown: nat, width: nat) -> Seq<char> {
    if shown >= width {
        s
    } else {
        s + spaces((width - shown) as nat)
    }
}

/// Pads `s` with spaces on the right so that, taking `shown` columns,
/// it fills `width` columns; text at least that wide is returned as it is.
pub fn pad_to_width(s: &str, shown: usize, width: usize) -> (r: String)
    ensures
        r@ == padded(s@, shown as nat, width as nat),
{
    let mut out = s.to_owned();
    if shown < width {
        let missing: usize = width - shown;
        let mut i: usize = 0;
        while i < missing
            invariant
                i <= missing,
                out@ == s@ + spaces(i as nat),
            decreases missing - i,
        {
            out.append(" ");
            proof {
                reveal_strlit(" ");
                assert(out@ =~= s@ + spaces((i + 1) as nat));
            }
            i = i + 1;
        }
    }
    proof {
        if shown >= width {
            assert(out@ == s@);
        }
    }
    out
}

/// Pads `s` with spaces on the right up to `width` display columns, as a
/// terminal shows it (wide characters take two columns).
pub fn pad_string(s: &str, width: usize) -> (r: String)
    ensures
        r@ == padded(s@, display_width(s@), width as nat),
{
    let shown = str_width(s);
    pad_to_width(s, shown, width)
}

} // verus!
