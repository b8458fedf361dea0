//! Fixed-width integers as byte strings.

use vstd::prelude::*;

verus! {

/// 256 to the power `n`: how many values `n` bytes can hold.
pub open spec fn capacity(n: nat) -> nat
    decreases n,
{
    if n == 0 {
        1
    } else {
        256 * capacity((n - 1) as nat)
    }
}

/// The low `n` bytes of `x`, most significant first.
pub open spec fn be_bytes(x: nat, n: nat) -> Seq<u8>
    decreases n,
{
    if n == 0 {
        Seq::empty()
    } else {
        be_bytes(x / 256, (n - 1) as nat).push((x % 256) as u8)
    }
}

/// The low `n` bytes of `x`, least significant first.
pub open spec fn le_bytes(x: nat, n: nat) -> Seq<u8>
    decreases n,
{
    if n == 0 {
        Seq::empty()
    } else {
        seq![(x % 256) as u8] + le_bytes(x / 256, (n - 1) as nat)
    }
}

/// The number that `s` spells, most significant byte first.
pub open spec fn be_value(s: Seq<u8>) -> nat
    decreases s.len(),
{
    if s.len() == 0 {
        0
    } else {
        be_value(s.drop_last()) * 256 + s.last() as nat
    }
}

/// `be_bytes` and `le_bytes` have the width they were asked for.
pub proof fn lemma_widths(x: nat, n: nat)
    ensures
        be_bytes(x, n).len() == n,
        le_bytes(x, n).len() == n,
    decreases n,
{
    if n > 0 {
        lemma_widths(x / 256, (n - 1) as nat);
    }
}

/// Writing a number that fits and reading it back gives the number.
pub proof fn lemma_be_round_trip(x: nat, n: nat)
    requires
        x < capacity(n),
    ensures
        be_value(be_bytes(x, n)) == x,
    decreases n,
{
    if n > 0 {
        lemma_be_round_trip(x / 256, (n - 1) as nat);
        assert(be_bytes(x, n).drop_last() =~= be_bytes(x / 256, (n - 1) as nat));
    }
}

/// Reading a byte string and writing it back at its width gives the string.
pub proof fn lemma_be_value_round_trip(s: Seq<u8>)
    ensures
        be_bytes(be_value(s), s.len()) == s,
    decreases s.len(),
{
    if s.len() > 0 {
        lemma_be_value_round_trip(s.drop_last());
        let x = be_value(s);
        assert(x / 256 == be_value(s.drop_last()) && x % 256 == s.last());
        assert(s =~= s.drop_last().push(s.last()));
    } else {
        assert(be_bytes(be_value(s), 0) =~= s);
    }
}

/// A byte string of width `n` spells a number below `capacity(n)`.
pub proof fn lemma_be_value_bound(s: Seq<u8>)
    ensures
        be_value(s) < capacity(s.len()),
    decreases s.len(),
{
    if s.len() > 0 {
        lemma_be_value_bound(s.drop_last());
    }
}

/// Two different numbers that fit have different little-endian forms.
pub proof fn lemma_le_injective(x: nat, y: nat, n: nat)
    requires
        x < capacity(n),
        y < capacity(n),
        le_bytes(x, n) == le_bytes(y, n),
    ensures
        x == y,
    decreases n,
{
    if n > 0 {
        let (a, b) = (le_bytes(x, n), le_bytes(y, n));
        assert(a[0] == (x % 256) as u8 && b[0] == (y % 256) as u8);
        assert(a.skip(1) =~= le_bytes(x / 256, (n - 1) as nat));
        assert(b.skip(1) =~= le_bytes(y / 256, (n - 1) as nat));
        lemma_le_injective(x / 256, y / 256, (n - 1) as nat);
    }
}

/// The widths in use hold exactly the integer types that are written with them.
pub proof fn lemma_capacities()
    ensures
        capacity(2) == 0x1_0000,
        capacity(4) == 0x1_0000_0000,
        capacity(8) == 0x1_0000_0000_0000_0000,
{
    reveal_with_fuel(capacity, 9);
}

/// Append the low `n` bytes of `x`, most significant first.
pub fn push_be(v: &mut Vec<u8>, x: u64, n: usize)
    ensures
        final(v)@ == old(v)@ + be_bytes(x as nat, n as nat),
    decreases n,
{
    if n > 0 {
        push_be(v, x / 256, n - 1);
        v.push((x % 256) as u8);
    }
}

/// Append the low `n` bytes of `x`, least significant first.
pub fn push_le(v: &mut Vec<u8>, x: u64, n: usize)
    ensures
        final(v)@ == old(v)@ + le_bytes(x as nat, n as nat),
    decreases n,
{
    if n > 0 {
        v.push((x % 256) as u8);
        push_le(v, x / 256, n - 1);
    }
}

/// The number that up to eight bytes spell, most significant first.
pub fn read_be(s: &[u8]) -> (x: u64)
    requires
        s@.len() <= 8,
    ensures
        x == be_value(s@),
{
    let mut x: u64 = 0;
    let mut i: usize = 0;
    assert(s@.take(0) =~= Seq::<u8>::empty());
    while i < s.len()
        invariant
            i <= s@.len() <= 8,
            x == be_value(s@.take(i as int)),
        decreases s@.len() - i,
    {
        proof {
            let t = s@.take(i + 1);
            assert(t.drop_last() =~= s@.take(i as int));
            lemma_be_value_bound(t);
            reveal_with_fuel(capacity, 9);
        }
        x = x * 256 + s[i] as u64;
        i = i + 1;
    }
    assert(s@.take(i as int) =~= s@);
    x
}

/// Append a copy of `s`.
pub fn push_all(v: &mut Vec<u8>, s: &[u8])
    ensures
        final(v)@ == old(v)@ + s@,
{
    v.extend_from_slice(s);
    assert(v@ =~= old(v)@ + s@);
}

/// Whether two byte strings are the same.
pub fn same_bytes(a: &[u8], b: &[u8]) -> (r: bool)
    ensures
        r == (a@ == b@),
{
    if a.len() != b.len() {
        return false;
    }
    let mut i: usize = 0;
    while i < a.len()
        invariant
            a@.len() == b@.len(),
            i <= a@.len(),
            a@.take(i as int) =~= b@.take(i as int),
        decreases a@.len() - i,
    {
        if a[i] != b[i] {
            assert(a@[i as int] != b@[i as int]);
            return false;
        }
        assert(a@.take(i + 1) =~= a@.take(i as int).push(a@[i as int]));
        assert(b@.take(i + 1) =~= b@.take(i as int).push(b@[i as int]));
        i = i + 1;
    }
    assert(a@.take(i as int) =~= a@ && b@.take(i as int) =~= b@);
    true
}

/// Thirty-two bytes as an array.
pub fn array32(s: &[u8]) -> (r: [u8; 32])
    requires
        s@.len() == 32,
    ensures
        r@ == s@,
{
    let mut r: [u8; 32] = [0u8; 32];
    let mut i: usize = 0;
    while i < 32
        invariant
            i <= 32 == s@.len(),
            forall|j: int| 0 <= j < i ==> r@[j] == s@[j],
        decreases 32 - i,
    {
        r[i] = s[i];
        i = i + 1;
    }
    assert(r@ =~= s@);
    r
}

} // verus!
