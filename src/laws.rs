//! Properties of anchor records and of the log they are appended to.

use vstd::prelude::*;

use crate::record::{anchor_record, byte_list, decimal, digit_char};

verus! {

/// Digit characters are pairwise distinct and are neither a comma nor a space.
proof fn lemma_digit_char(d: nat)
    requires
        d < 10,
    ensures
        digit_char(d) != ',',
        digit_char(d) != ' ',
        forall|e: nat| e < 10 && #[trigger] digit_char(e) == digit_char(d) ==> e == d,
{
    reveal_strlit("0123456789");
}

/// A decimal representation is non-empty and holds neither commas nor spaces.
proof fn lemma_decimal_chars(n: nat)
    ensures
        decimal(n).len() >= 1,
        n >= 10 ==> decimal(n).len() >= 2,
        forall|i: int|
            0 <= i < decimal(n).len() ==> #[trigger] decimal(n)[i] != ',' && decimal(n)[i] != ' ',
    decreases n,
{
    if n < 10 {
        lemma_digit_char(n);
    } else {
        lemma_decimal_chars(n / 10);
        lemma_digit_char(n % 10);
    }
}

/// Distinct numbers have distinct decimal representations.
proof fn lemma_decimal_injective(n: nat, m: nat)
    requires
        decimal(n) == decimal(m),
    ensures
        n == m,
    decreases n,
{
    lemma_decimal_chars(n);
    lemma_decimal_chars(m);
    if n < 10 && m < 10 {
        lemma_digit_char(n);
        assert(decimal(m)[0] == digit_char(m));
    } else if n >= 10 && m >= 10 {
        let dn = decimal(n);
        let dm = decimal(m);
        assert(dn.last() == digit_char(n % 10));
        assert(dm.last() == digit_char(m % 10));
        lemma_digit_char(n % 10);
        assert(n % 10 == m % 10);
        assert(decimal(n / 10) =~= dn.drop_last());
        assert(decimal(m / 10) =~= dm.drop_last());
        lemma_decimal_injective(n / 10, m / 10);
    }
}

/// A byte list is empty exactly for the empty sequence, and holds a comma
/// exactly when it lists two bytes or more.
proof fn lemma_byte_list_shape(p: Seq<u8>)
    ensures
        p.len() == 0 <==> byte_list(p).len() == 0,
        p.len() == 1 ==> forall|i: int|
            0 <= i < byte_list(p).len() ==> #[trigger] byte_list(p)[i] != ',',
        p.len() >= 2 ==> byte_list(p)[byte_list(p.drop_last()).len() as int] == ',',
    decreases p.len(),
{
    if p.len() == 1 {
        lemma_decimal_chars(p[0] as nat);
    } else if p.len() >= 2 {
        lemma_byte_list_shape(p.drop_last());
        lemma_decimal_chars(p.last() as nat);
        reveal_strlit(", ");
        let head = byte_list(p.drop_last());
        assert((head + ", "@)[head.len() as int] == ',');
        assert(byte_list(p) == (head + ", "@) + decimal(p.last() as nat));
    }
}

/// Two splittings `a + ", " + d == b + ", " + e` around a comma-free tail
/// agree on both parts.
proof fn lemma_split_at_last_separator(
    a: Seq<char>,
    d: Seq<char>,
    b: Seq<char>,
    e: Seq<char>,
)
    requires
        a + ", "@ + d == b + ", "@ + e,
        forall|i: int| 0 <= i < d.len() ==> #[trigger] d[i] != ',',
        forall|i: int| 0 <= i < e.len() ==> #[trigger] e[i] != ',',
    ensures
        a == b,
        d == e,
{
    reveal_strlit(", ");
    let sep = ", "@;
    let ha = a + sep;
    let hb = b + sep;
    let s = ha + d;
    assert(s == hb + e);
    assert(s.len() == a.len() + 2 + d.len());
    assert(s.len() == b.len() + 2 + e.len());
    assert(sep.len() == 2 && sep[0] == ',' && sep[1] == ' ');
    assert(ha[a.len() as int] == ',');
    assert(hb[b.len() as int] == ',');
    assert(s[a.len() as int] == ',');
    assert(s[b.len() as int] == ',');
    if a.len() < b.len() {
        let k = b.len() - a.len();
        if k >= 2 {
            assert(s[b.len() as int] == d[k - 2]);
        } else {
            assert(s[b.len() as int] == ha[b.len() as int]);
        }
    } else if b.len() < a.len() {
        let k = a.len() - b.len();
        if k >= 2 {
            assert((hb + e)[a.len() as int] == e[k - 2]);
        } else {
            assert(s[a.len() as int] == hb[a.len() as int]);
        }
    }
    assert(a =~= s.subrange(0, a.len() as int));
    assert(b =~= s.subrange(0, b.len() as int));
    assert(d =~= s.subrange(a.len() as int + 2, s.len() as int));
    assert(e =~= s.subrange(b.len() as int + 2, s.len() as int));
}

/// The middle part of a concatenation of three.
proof fn lemma_middle(x: Seq<char>, y: Seq<char>, z: Seq<char>)
    ensures
        (x + y + z).subrange(x.len() as int, x.len() + y.len() as int) == y,
{
    assert((x + y + z).subrange(x.len() as int, x.len() + y.len() as int) =~= y);
}

/// Distinct byte sequences have distinct byte lists.
proof fn lemma_byte_list_injective(p: Seq<u8>, q: Seq<u8>)
    requires
        byte_list(p) == byte_list(q),
    ensures
        p == q,
    decreases p.len(),
{
    lemma_byte_list_shape(p);
    lemma_byte_list_shape(q);
    if p.len() == 0 || q.len() == 0 {
        assert(p.len() == 0 && q.len() == 0);
        assert(p =~= q);
    } else if p.len() == 1 && q.len() == 1 {
        lemma_decimal_injective(p[0] as nat, q[0] as nat);
        assert(p =~= q);
    } else if p.len() >= 2 && q.len() >= 2 {
        lemma_decimal_chars(p.last() as nat);
        lemma_decimal_chars(q.last() as nat);
        lemma_split_at_last_separator(
            byte_list(p.drop_last()),
            decimal(p.last() as nat),
            byte_list(q.drop_last()),
            decimal(q.last() as nat),
        );
        lemma_byte_list_injective(p.drop_last(), q.drop_last());
        lemma_decimal_injective(p.last() as nat, q.last() as nat);
        assert(p =~= p.drop_last().push(p.last()));
        assert(q =~= q.drop_last().push(q.last()));
    } else if p.len() == 1 {
        let k = byte_list(q.drop_last()).len() as int;
        assert(byte_list(q)[k] == ',');
        assert(byte_list(p)[k] != ',');
    } else {
        let k = byte_list(p.drop_last()).len() as int;
        assert(byte_list(p)[k] == ',');
        assert(byte_list(q)[k] != ',');
    }
}

/// An anchor record encodes its payload: two payloads whose records have
/// the same text are the same payload. Together with `anchor_record` being a
/// function of the payload alone, the record text and the payload determine
/// each other.
pub proof fn law_record_determines_payload(p: Seq<u8>, q: Seq<u8>)
    requires
        anchor_record(p) == anchor_record(q),
    ensures
        p == q,
{
    let head = "Record anchored: "@ + "["@;
    let lp = byte_list(p);
    let lq = byte_list(q);
    assert(anchor_record(p) =~= head + lp + "]"@);
    assert(anchor_record(q) =~= head + lq + "]"@);
    lemma_middle(head, lp, "]"@);
    lemma_middle(head, lq, "]"@);
    lemma_byte_list_injective(p, q);
}

/// Anchoring the same payload twice appends two records with the same text:
/// both are kept, side by side, and nothing before them changes.
pub proof fn law_repeated_anchor_same_text(
    p: Seq<u8>,
    before: Seq<Seq<char>>,
    after_first: Seq<Seq<char>>,
    after_second: Seq<Seq<char>>,
)
    requires
        after_first == before.push(anchor_record(p)),
        after_second == after_first.push(anchor_record(p)),
    ensures
        after_second.len() == before.len() + 2,
        after_second.subrange(0, before.len() as int) == before,
        after_second[before.len() as int] == after_second[before.len() as int + 1],
        after_second[before.len() as int] == anchor_record(p),
{
    assert(after_second.subrange(0, before.len() as int) =~= before);
}

} // verus!
