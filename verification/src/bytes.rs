//! Big-endian numbers in byte strings, and views of vectors.

use vstd::prelude::*;

verus! {

/// The views of the elements of a sequence, in order.
pub open spec fn views<T: View>(s: Seq<T>) -> Seq<T::V> {
    s.map_values(|x: T| x@)
}

/// The number that `s` spells in base 256, most significant byte first.
pub open spec fn be_value(s: Seq<u8>) -> nat
    decreases s.len(),
{
    if s.len() == 0 {
        0
    } else {
        be_value(s.drop_last()) * 256 + s.last() as nat
    }
}

/// The last `width` base-256 digits of `n`, most significant first.
pub open spec fn be_bytes(n: nat, width: nat) -> Seq<u8>
    decreases width,
{
    if width == 0 {
        Seq::empty()
    } else {
        be_bytes(n / 256, (width - 1) as nat).push((n % 256) as u8)
    }
}

/// The first number that does not fit in `width` bytes.
pub open spec fn be_limit(width: nat) -> nat
    decreases width,
{
    if width == 0 {
        1
    } else {
        256 * be_limit((width - 1) as nat)
    }
}

/// A number written in `width` bytes has that length, and reading it back
/// gives the number where it fits.
pub proof fn lemma_be_bytes(n: nat, width: nat)
    ensures
        be_bytes(n, width).len() == width,
        n < be_limit(width) ==> be_value(be_bytes(n, width)) == n,
    decreases width,
{
    if width > 0 {
        lemma_be_bytes(n / 256, (width - 1) as nat);
        assert(be_bytes(n, width).drop_last() =~= be_bytes(n / 256, (width - 1) as nat));
    }
}

/// Writing the value of a byte string gives the byte string back.
pub proof fn lemma_be_value(s: Seq<u8>)
    ensures
        be_value(s) < be_limit(s.len()),
        be_bytes(be_value(s), s.len()) == s,
    decreases s.len(),
{
    if s.len() > 0 {
        lemma_be_value(s.drop_last());
        assert(s.drop_last().push(s.last()) =~= s);
    }
}

/// A number below 65536 in two bytes, the high byte first.
pub open spec fn high_low(n: nat) -> Seq<u8> {
    seq![(n / 256) as u8, (n % 256) as u8]
}

/// Numbers are written and read with the most significant byte first.
pub proof fn law_the_most_significant_byte_is_first(n: nat, a: u8, b: u8, c: u8, d: u8)
    requires
        n < 0x1_0000,
    ensures
        be_bytes(n, 2) == high_low(n),
        be_value(seq![a]) == a,
        be_value(seq![a, b]) == 0x100 * a + b,
        be_value(seq![a, b, c]) == 0x1_0000 * a + 0x100 * b + c,
        be_value(seq![a, b, c, d]) == 0x100_0000 * a + 0x1_0000 * b + 0x100 * c + d,
        be_bytes((0x100 * a + b) as nat, 2) == seq![a, b],
        be_bytes((0x1_0000 * a + 0x100 * b + c) as nat, 3) == seq![a, b, c],
        be_bytes((0x100_0000 * a + 0x1_0000 * b + 0x100 * c + d) as nat, 4) == seq![a, b, c, d],
{
    reveal_with_fuel(be_value, 5);
    reveal_with_fuel(be_bytes, 5);
    assert(seq![a].drop_last() =~= Seq::empty());
    assert(seq![a, b].drop_last() =~= seq![a]);
    assert(seq![a, b, c].drop_last() =~= seq![a, b]);
    assert(seq![a, b, c, d].drop_last() =~= seq![a, b, c]);
    lemma_be_value(seq![a, b]);
    lemma_be_value(seq![a, b, c]);
    lemma_be_value(seq![a, b, c, d]);
    assert((n / 256) % 256 == n / 256);
    assert(be_bytes(n, 2) =~= high_low(n));
}

/// The number that six bytes spell, the most significant first.
pub open spec fn six_bytes_value(s: Seq<u8>) -> nat {
    (0x100_0000_0000 * s[0] + 0x1_0000_0000 * s[1] + 0x100_0000 * s[2] + 0x1_0000 * s[3] + 0x100
        * s[4] + s[5]) as nat
}

/// Numbers of six bytes are written and read with the most significant byte
/// first.
pub proof fn law_six_bytes_are_read_in_order(s: Seq<u8>)
    requires
        s.len() == 6,
    ensures
        be_value(s) == six_bytes_value(s),
        be_bytes(six_bytes_value(s), 6) == s,
{
    reveal_with_fuel(be_value, 7);
    let five = s.drop_last();
    let four = five.drop_last();
    let three = four.drop_last();
    let two = three.drop_last();
    let one = two.drop_last();
    assert(one.drop_last() =~= Seq::empty());
    assert(be_value(one) == s[0]);
    assert(be_value(two) == 0x100 * s[0] + s[1]);
    assert(be_value(three) == 0x1_0000 * s[0] + 0x100 * s[1] + s[2]);
    assert(be_value(four) == 0x100_0000 * s[0] + 0x1_0000 * s[1] + 0x100 * s[2] + s[3]);
    lemma_be_value(s);
}

/// Appends the last `width` base-256 digits of `n`.
pub fn put_be(out: &mut Vec<u8>, n: u64, width: usize)
    ensures
        final(out)@ == old(out)@ + be_bytes(n as nat, width as nat),
    decreases width,
{
    if width > 0 {
        put_be(out, n / 256, width - 1);
        out.push((n % 256) as u8);
    }
}

/// Reads `width` bytes of `s` from `from` on as a big-endian number.
pub fn get_be(s: &[u8], from: usize, width: usize) -> (n: u64)
    requires
        width <= 7,
        from + width <= s@.len(),
    ensures
        n == be_value(s@.subrange(from as int, from + width)),
        n < be_limit(width as nat),
    decreases width,
{
    proof {
        lemma_be_value(s@.subrange(from as int, from + width));
    }
    if width == 0 {
        0
    } else {
        let high: u64 = get_be(s, from, width - 1);
        proof {
            reveal_with_fuel(be_limit, 9);
            assert(s@.subrange(from as int, from + width).drop_last() =~= s@.subrange(
                from as int,
                from + width - 1,
            ));
        }
        assert(from + width <= s.len());
        high * 256 + s[from + width - 1] as u64
    }
}

/// Appends a copy of `more`.
pub fn put_all(out: &mut Vec<u8>, more: &[u8])
    ensures
        final(out)@ == old(out)@ + more@,
{
    let mut i: usize = 0;
    while i < more.len()
        invariant
            i <= more@.len(),
            out@ == old(out)@ + more@.take(i as int),
        decreases more@.len() - i,
    {
        out.push(more[i]);
        i = i + 1;
        assert(more@.take(i as int) =~= more@.take(i - 1).push(more@[i - 1]));
    }
    assert(more@.take(i as int) =~= more@);
}

/// Copies the bytes of `s` from `from` up to `to`.
pub fn copy_range(s: &[u8], from: usize, to: usize) -> (out: Vec<u8>)
    requires
        from <= to <= s@.len(),
    ensures
        out@ == s@.subrange(from as int, to as int),
{
    let mut out: Vec<u8> = Vec::new();
    put_all(&mut out, vstd::slice::slice_subrange(s, from, to));
    out
}

/// Copies all bytes of `s`.
pub fn copy_all(s: &[u8]) -> (out: Vec<u8>)
    ensures
        out@ == s@,
{
    let mut out: Vec<u8> = Vec::new();
    put_all(&mut out, s);
    out
}

/// Whether two byte strings are equal.
pub fn same_bytes(a: &[u8], b: &[u8]) -> (same: bool)
    ensures
        same == (a@ == b@),
{
    if a.len() != b.len() {
        return false;
    }
    let mut i: usize = 0;
    while i < a.len()
        invariant
            i <= a@.len(),
            a@.len() == b@.len(),
            forall|j: int| 0 <= j < i ==> a@[j] == b@[j],
        decreases a@.len() - i,
    {
        if a[i] != b[i] {
            return false;
        }
        i = i + 1;
    }
    assert(a@ =~= b@);
    true
}

} // verus!
