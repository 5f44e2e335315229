//! Deterministic text rendering of an anchored payload.

use vstd::prelude::*;

verus! {

/// The character of the decimal digit `d` (meaningful for `d < 10`).
pub open spec fn digit_char(d: nat) -> char {
    "0123456789"@[d as int]
}

/// The decimal representation of `n`, most significant digit first,
/// without leading zeros.
pub open spec fn decimal(n: nat) -> Seq<char>
    decreases n,
{
    if n < 10 {
        seq![digit_char(n)]
    } else {
        decimal(n / 10).push(digit_char(n % 10))
    }
}

/// The decimal values of the bytes of `p`, separated by `", "`.
pub open spec fn byte_list(p: Seq<u8>) -> Seq<char>
    decreases p.len(),
{
    if p.len() == 0 {
        Seq::empty()
    } else if p.len() == 1 {
        decimal(p[0] as nat)
    } else {
        byte_list(p.drop_last()) + ", "@ + decimal(p.last() as nat)
    }
}

/// The rendering of a byte sequence: its decimal byte list in brackets.
pub open spec fn rendered_bytes(p: Seq<u8>) -> Seq<char> {
    "["@ + byte_list(p) + "]"@
}

/// The text of the log record that anchors `p`.
pub open spec fn anchor_record(p: Seq<u8>) -> Seq<char> {
    "Record anchored: "@ + rendered_bytes(p)
}

/// The one-character string of the decimal digit `d`.
fn digit_str(d: u8) -> (r: &'static str)
    requires
        d < 10,
    ensures
        r@ == seq![digit_char(d as nat)],
{
    proof {
        reveal_strlit("0123456789");
    }
    match d {
        0 => {
            proof { reveal_strlit("0"); }
            assert("0"@ =~= seq![digit_char(0)]);
            "0"
        },
        1 => {
            proof { reveal_strlit("1"); }
            assert("1"@ =~= seq![digit_char(1)]);
            "1"
        },
        2 => {
            proof { reveal_strlit("2"); }
            assert("2"@ =~= seq![digit_char(2)]);
            "2"
        },
        3 => {
            proof { reveal_strlit("3"); }
            assert("3"@ =~= seq![digit_char(3)]);
            "3"
        },
        4 => {
            proof { reveal_strlit("4"); }
            assert("4"@ =~= seq![digit_char(4)]);
            "4"
        },
        5 => {
            proof { reveal_strlit("5"); }
            assert("5"@ =~= seq![digit_char(5)]);
            "5"
        },
        6 => {
            proof { reveal_strlit("6"); }
            assert("6"@ =~= seq![digit_char(6)]);
            "6"
        },
        7 => {
            proof { reveal_strlit("7"); }
            assert("7"@ =~= seq![digit_char(7)]);
            "7"
        },
        8 => {
            proof { reveal_strlit("8"); }
            assert("8"@ =~= seq![digit_char(8)]);
            "8"
        },
        _ => {
            proof { reveal_strlit("9"); }
            assert("9"@ =~= seq![digit_char(9)]);
            "9"
        },
    }
}

/// Appends the decimal representation of `b` to `out`.
fn push_decimal(out: &mut String, b: u8)
    ensures
        final(out)@ == old(out)@ + decimal(b as nat),
{
    let ghost start = out@;
    if b >= 100 {
        out.append(digit_str(b / 100));
    }
    if b >= 10 {
        out.append(digit_str((b / 10) % 10));
    }
    out.append(digit_str(b % 10));
    proof {
        let n = b as nat;
        if n >= 100 {
            assert(decimal(n / 100) == seq![digit_char(n / 100)]);
            assert((n / 10) / 10 == n / 100);
            assert(decimal(n / 10) == decimal(n / 100).push(digit_char((n / 10) % 10)));
        } else if n >= 10 {
            assert(decimal(n / 10) == seq![digit_char(n / 10)]);
        }
        assert(out@ =~= start + decimal(n));
    }
}

/// Renders `p` as its decimal byte values in brackets, separated by `", "`:
/// `[222, 173, 190, 239]`, and `[]` for the empty payload.
pub fn render_bytes(p: &[u8]) -> (r: String)
    ensures
        r@ == rendered_bytes(p@),
{
    let mut out = String::from_str("[");
    let mut i: usize = 0;
    while i < p.len()
        invariant
            i <= p.len(),
            out@ == "["@ + byte_list(p@.take(i as int)),
        decreases p.len() - i,
    {
        if i > 0 {
            out.append(", ");
        }
        push_decimal(&mut out, p[i]);
        proof {
            let next = p@.take(i + 1);
            assert(next.drop_last() =~= p@.take(i as int));
            assert(next.last() == p@[i as int]);
            assert(out@ =~= "["@ + byte_list(next));
        }
        i += 1;
    }
    out.append("]");
    proof {
        assert(p@.take(p@.len() as int) =~= p@);
    }
    out
}

/// The text of the log record that anchors `p`: `Record anchored: ` followed
/// by the rendering of `p`.
pub fn record_line(p: &[u8]) -> (r: String)
    ensures
        r@ == anchor_record(p@),
{
    let rendered = render_bytes(p);
    let line = String::from_str("Record anchored: ");
    let r = line.concat(rendered.as_str());
    assert(r@ =~= anchor_record(p@));
    r
}

} // verus!
