use vstd::prelude::*;

use vstd::string::StringExecFns;

verus! {

// ---------------------------------------------------------------------------
// Decimal rendering
// ---------------------------------------------------------------------------

pub open spec fn digit_char(d: nat) -> char
    recommends
        d < 10,
{
    if d == 0 {
        '0'
    } else if d == 1 {
        '1'
    } else if d == 2 {
        '2'
    } else if d == 3 {
        '3'
    } else if d == 4 {
        '4'
    } else if d == 5 {
        '5'
    } else if d == 6 {
        '6'
    } else if d == 7 {
        '7'
    } else if d == 8 {
        '8'
    } else {
        '9'
    }
}

/// The decimal representation of `n`, most significant digit first, with no
/// sign and no leading zeros (a single `'0'` for zero).
pub open spec fn dec_rep(n: nat) -> Seq<char>
    decreases n,
{
    if n < 10 {
        seq![digit_char(n)]
    } else {
        dec_rep(n / 10) + seq![digit_char(n % 10)]
    }
}

fn append_digit(out: &mut String, d: u8)
    requires
        d < 10,
    ensures
        final(out)@ == old(out)@ + seq![digit_char(d as nat)],
{
    if d == 0 {
        out.append("0");
        assert(out@ =~= old(out)@ + seq![digit_char(d as nat)]) by {
            reveal_strlit("0");
        }
    } else if d == 1 {
        out.append("1");
        assert(out@ =~= old(out)@ + seq![digit_char(d as nat)]) by {
            reveal_strlit("1");
        }
    } else if d == 2 {
        out.append("2");
        assert(out@ =~= old(out)@ + seq![digit_char(d as nat)]) by {
            reveal_strlit("2");
        }
    } else if d == 3 {
        out.append("3");
        assert(out@ =~= old(out)@ + seq![digit_char(d as nat)]) by {
            reveal_strlit("3");
        }
    } else if d == 4 {
        out.append("4");
        assert(out@ =~= old(out)@ + seq![digit_char(d as nat)]) by {
            reveal_strlit("4");
        }
    } else if d == 5 {
        out.append("5");
        assert(out@ =~= old(out)@ + seq![digit_char(d as nat)]) by {
            reveal_strlit("5");
        }
    } else if d == 6 {
        out.append("6");
        assert(out@ =~= old(out)@ + seq![digit_char(d as nat)]) by {
            reveal_strlit("6");
        }
    } else if d == 7 {
        out.append("7");
        assert(out@ =~= old(out)@ + seq![digit_char(d as nat)]) by {
            reveal_strlit("7");
        }
    } else if d == 8 {
        out.append("8");
        assert(out@ =~= old(out)@ + seq![digit_char(d as nat)]) by {
            reveal_strlit("8");
        }
    } else {
        out.append("9");
        assert(out@ =~= old(out)@ + seq![digit_char(d as nat)]) by {
            reveal_strlit("9");
        }
    }
}

/// Appends the decimal representation of `n` to `out`.
pub fn append_dec(out: &mut String, n: u128)
    ensures
        final(out)@ == old(out)@ + dec_rep(n as nat),
    decreases n,
{
    if n < 10 {
        append_digit(out, n as u8);
    } else {
        append_dec(out, n / 10);
        append_digit(out, (n % 10) as u8);
        assert(out@ =~= old(out)@ + dec_rep(n as nat));
    }
}

// ---------------------------------------------------------------------------
// Runs of spaces
// ---------------------------------------------------------------------------

pub open spec fn spaces(n: nat) -> Seq<char>
    decreases n,
{
    if n == 0 {
        Seq::empty()
    } else {
        spaces((n - 1) as nat) + seq![' ']
    }
}

/// Appends `n` spaces to `out`.
pub fn append_spaces(out: &mut String, n: usize)
    ensures
        final(out)@ == old(out)@ + spaces(n as nat),
{
    let mut i: usize = 0;
    while i < n
        invariant
            i <= n,
            out@ == old(out)@ + spaces(i as nat),
        decreases n - i,
    {
        out.append(" ");
        i = i + 1;
        assert(out@ =~= old(out)@ + spaces(i as nat)) by {
            reveal_strlit(" ");
        }
    }
}

// ---------------------------------------------------------------------------
// Trusted wrappers over std string operations that vstd does not specify
// ---------------------------------------------------------------------------

/// Relies on char's `ToString`: the resulting string holds exactly the one
/// character it was made from.
#[verifier::external_body]
pub fn char_to_string(c: char) -> (s: String)
    ensures
        s@ == seq![c],
{
    c.to_string()
}

/// Relies on str's `PartialEq`: two string slices compare equal exactly when
/// their character sequences are equal.
#[verifier::external_body]
pub fn str_eq(a: &str, b: &str) -> (r: bool)
    ensures
        r == (a@ == b@),
{
    a == b
}

} // verus!
