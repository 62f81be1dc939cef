use vstd::prelude::*;

verus! {

/// The ASCII digit for one decimal place.
pub open spec fn digit_byte(d: int) -> u8 {
    (0x30 + d) as u8
}

/// The underscore that joins the identifier's parts.
pub const UNDERSCORE: u8 = 0x5f;

/// The minus sign of a negative decimal spelling.
pub const MINUS: u8 = 0x2d;

/// The decimal spelling of a non-negative number, most significant digit
/// first, as ASCII bytes.
pub open spec fn dec_nat(n: nat) -> Seq<u8>
    decreases n,
{
    if n < 10 {
        seq![digit_byte(n as int)]
    } else {
        dec_nat(n / 10).push(digit_byte((n % 10) as int))
    }
}

/// The decimal spelling of an integer: a leading minus sign for a
/// negative value, digits otherwise.
pub open spec fn dec_int(n: int) -> Seq<u8> {
    if n >= 0 {
        dec_nat(n as nat)
    } else {
        seq![MINUS] + dec_nat((-n) as nat)
    }
}

/// The identifier a session is named by: the vehicle's class index and
/// ordinal in decimal, then the session's sequence number, joined by
/// underscores. The sequence number is what makes identifiers unique
/// per session, not merely per vehicle (see `lemma_ident_unique`); the
/// committer's exclusive-create check still guards names left by
/// earlier runs.
pub open spec fn ident_bytes(class: int, ordinal: int, seq: nat) -> Seq<u8> {
    dec_int(class) + seq![UNDERSCORE] + dec_int(ordinal) + seq![UNDERSCORE] + dec_nat(seq)
}

/// Every byte of the decimal spelling of a non-negative number is a
/// digit, and there is at least one.
pub proof fn lemma_dec_nat_digits(n: nat)
    ensures
        dec_nat(n).len() > 0,
        forall|i: int| 0 <= i < dec_nat(n).len() ==> 0x30 <= #[trigger] dec_nat(n)[i] <= 0x39,
    decreases n,
{
    if n >= 10 {
        lemma_dec_nat_digits(n / 10);
    }
}

/// Every byte of a signed decimal spelling is a digit or the minus
/// sign; in particular none is an underscore.
pub proof fn lemma_dec_int_bytes(n: int)
    ensures
        dec_int(n).len() > 0,
        forall|i: int|
            0 <= i < dec_int(n).len() ==> (0x30 <= #[trigger] dec_int(n)[i] <= 0x39 || dec_int(
                n,
            )[i] == MINUS),
{
    if n >= 0 {
        lemma_dec_nat_digits(n as nat);
    } else {
        lemma_dec_nat_digits((-n) as nat);
    }
}

/// A one-digit spelling means a one-digit number.
proof fn lemma_dec_nat_len(n: nat)
    ensures
        dec_nat(n).len() >= 1,
        n < 10 <==> dec_nat(n).len() == 1,
    decreases n,
{
    if n >= 10 {
        lemma_dec_nat_len(n / 10);
    }
}

/// Decimal spelling is injective: equal spellings mean equal numbers.
proof fn lemma_dec_nat_injective(a: nat, b: nat)
    requires
        dec_nat(a) == dec_nat(b),
    ensures
        a == b,
    decreases a,
{
    lemma_dec_nat_len(a);
    lemma_dec_nat_len(b);
    if a < 10 && b < 10 {
        assert(dec_nat(a)[0] == digit_byte(a as int));
        assert(dec_nat(b)[0] == digit_byte(b as int));
    } else if a >= 10 && b >= 10 {
        assert(dec_nat(a).drop_last() =~= dec_nat(a / 10));
        assert(dec_nat(b).drop_last() =~= dec_nat(b / 10));
        lemma_dec_nat_injective(a / 10, b / 10);
        assert(dec_nat(a).last() == digit_byte((a % 10) as int));
        assert(dec_nat(b).last() == digit_byte((b % 10) as int));
        assert(a % 10 == b % 10);
        assert(a == 10 * (a / 10) + a % 10);
        assert(b == 10 * (b / 10) + b % 10);
    } else {
        // One spelling has one byte, the other at least two.
        assert(false);
    }
}

/// Splitting at the first underscore is unambiguous: if two
/// underscore-free prefixes are joined to tails by an underscore and
/// the results agree, the prefixes agree and the tails agree.
proof fn lemma_token_split(a1: Seq<u8>, t1: Seq<u8>, a2: Seq<u8>, t2: Seq<u8>)
    requires
        forall|i: int| 0 <= i < a1.len() ==> #[trigger] a1[i] != UNDERSCORE,
        forall|i: int| 0 <= i < a2.len() ==> #[trigger] a2[i] != UNDERSCORE,
        a1 + seq![UNDERSCORE] + t1 == a2 + seq![UNDERSCORE] + t2,
    ensures
        a1 == a2,
        t1 == t2,
{
    let s1 = a1 + seq![UNDERSCORE] + t1;
    let s2 = a2 + seq![UNDERSCORE] + t2;
    assert(s1.len() == a1.len() + 1 + t1.len());
    assert(s2.len() == a2.len() + 1 + t2.len());
    if a1.len() < a2.len() {
        assert(s1[a1.len() as int] == UNDERSCORE);
        assert(s2[a1.len() as int] == a2[a1.len() as int]);
        assert(false);
    }
    if a2.len() < a1.len() {
        assert(s2[a2.len() as int] == UNDERSCORE);
        assert(s1[a2.len() as int] == a1[a2.len() as int]);
        assert(false);
    }
    assert forall|i: int| 0 <= i < a1.len() implies a1[i] == a2[i] by {
        assert(s1[i] == a1[i]);
        assert(s2[i] == a2[i]);
    }
    assert(a1 =~= a2);
    assert(t1.len() == t2.len());
    assert forall|i: int| 0 <= i < t1.len() implies t1[i] == t2[i] by {
        assert(s1[a1.len() + 1 + i] == t1[i]);
        assert(s2[a2.len() + 1 + i] == t2[i]);
    }
    assert(t1 =~= t2);
}

/// Identifiers are unique per session: whatever the vehicles, two
/// different session sequence numbers give different identifiers.
pub proof fn lemma_ident_unique(c1: int, o1: int, k1: nat, c2: int, o2: int, k2: nat)
    requires
        k1 != k2,
    ensures
        ident_bytes(c1, o1, k1) != ident_bytes(c2, o2, k2),
{
    if ident_bytes(c1, o1, k1) == ident_bytes(c2, o2, k2) {
        let tail1 = dec_int(o1) + seq![UNDERSCORE] + dec_nat(k1);
        let tail2 = dec_int(o2) + seq![UNDERSCORE] + dec_nat(k2);
        assert(ident_bytes(c1, o1, k1) =~= dec_int(c1) + seq![UNDERSCORE] + tail1);
        assert(ident_bytes(c2, o2, k2) =~= dec_int(c2) + seq![UNDERSCORE] + tail2);
        lemma_dec_int_bytes(c1);
        lemma_dec_int_bytes(c2);
        lemma_token_split(dec_int(c1), tail1, dec_int(c2), tail2);
        lemma_dec_int_bytes(o1);
        lemma_dec_int_bytes(o2);
        lemma_token_split(dec_int(o1), dec_nat(k1), dec_int(o2), dec_nat(k2));
        lemma_dec_nat_injective(k1, k2);
    }
}

/// Appends the decimal digits of `n` to `out`.
pub(crate) fn push_dec_u64(out: &mut Vec<u8>, n: u64)
    ensures
        final(out)@ == old(out)@ + dec_nat(n as nat),
    decreases n,
{
    if n < 10 {
        out.push(0x30 + n as u8);
        assert(out@ =~= old(out)@ + dec_nat(n as nat));
    } else {
        push_dec_u64(out, n / 10);
        out.push(0x30 + (n % 10) as u8);
        assert(out@ =~= old(out)@ + dec_nat(n as nat));
    }
}

/// Appends the decimal spelling of `n`, sign included, to `out`.
pub(crate) fn push_dec_i32(out: &mut Vec<u8>, n: i32)
    ensures
        final(out)@ == old(out)@ + dec_int(n as int),
{
    if n >= 0 {
        push_dec_u64(out, n as u64);
    } else {
        out.push(MINUS);
        let m: u64 = if n == i32::MIN {
            0x8000_0000u64
        } else {
            (-n) as u64
        };
        assert(m as nat == (-(n as int)) as nat);
        push_dec_u64(out, m);
        assert(out@ =~= old(out)@ + dec_int(n as int));
    }
}

/// Derives the identifier of the session with sequence number `seq`
/// whose starting sample drives the given vehicle.
pub fn session_ident(class: i32, ordinal: i32, seq: usize) -> (r: Vec<u8>)
    ensures
        r@ == ident_bytes(class as int, ordinal as int, seq as nat),
{
    let mut out: Vec<u8> = Vec::new();
    push_dec_i32(&mut out, class);
    out.push(UNDERSCORE);
    push_dec_i32(&mut out, ordinal);
    out.push(UNDERSCORE);
    push_dec_u64(&mut out, seq as u64);
    assert(out@ =~= ident_bytes(class as int, ordinal as int, seq as nat));
    out
}

} // verus!
