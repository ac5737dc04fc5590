//! Little-endian integers in byte buffers.

use vstd::prelude::*;

verus! {

/// The `n` low bytes of `x`, least significant first.
pub open spec fn le_bytes(x: nat, n: nat) -> Seq<u8>
    decreases n,
{
    if n == 0 {
        Seq::empty()
    } else {
        seq![(x % 256) as u8] + le_bytes(x / 256, (n - 1) as nat)
    }
}

/// The number whose bytes, least significant first, are `s`.
pub open spec fn le_value(s: Seq<u8>) -> nat
    decreases s.len(),
{
    if s.len() == 0 {
        0
    } else {
        s[0] as nat + 256 * le_value(s.subrange(1, s.len() as int))
    }
}

/// `256` to the power of `n`: how many numbers fit in `n` bytes.
pub open spec fn pow256(n: nat) -> nat
    decreases n,
{
    if n == 0 {
        1
    } else {
        256 * pow256((n - 1) as nat)
    }
}

pub proof fn lemma_pow256()
    ensures
        pow256(1) == 0x100,
        pow256(4) == 0x1_0000_0000,
        pow256(8) == 0x1_0000_0000_0000_0000,
{
    reveal_with_fuel(pow256, 9);
}

pub proof fn lemma_pow256_monotone(a: nat, b: nat)
    requires
        a <= b,
    ensures
        0 < pow256(a) <= pow256(b),
    decreases b,
{
    if b == 0 {
    } else if a == 0 {
        lemma_pow256_monotone(0, (b - 1) as nat);
    } else {
        lemma_pow256_monotone((a - 1) as nat, (b - 1) as nat);
    }
}

pub proof fn lemma_le_bytes_len(x: nat, n: nat)
    ensures
        le_bytes(x, n).len() == n,
    decreases n,
{
    if n > 0 {
        lemma_le_bytes_len(x / 256, (n - 1) as nat);
    }
}

pub proof fn lemma_le_value_bound(s: Seq<u8>)
    ensures
        le_value(s) < pow256(s.len()),
    decreases s.len(),
{
    if s.len() > 0 {
        lemma_le_value_bound(s.subrange(1, s.len() as int));
    }
}

/// Reading the bytes that were written for a number gives that number back.
pub proof fn lemma_le_value_of_bytes(x: nat, n: nat)
    requires
        x < pow256(n),
    ensures
        le_value(le_bytes(x, n)) == x,
    decreases n,
{
    if n > 0 {
        let rest = le_bytes(x / 256, (n - 1) as nat);
        lemma_le_bytes_len(x / 256, (n - 1) as nat);
        lemma_le_value_of_bytes(x / 256, (n - 1) as nat);
        assert(le_bytes(x, n).subrange(1, n as int) =~= rest);
    }
}

/// Writing a number that was read from `s` gives `s` back.
pub proof fn lemma_le_bytes_of_value(s: Seq<u8>)
    ensures
        le_bytes(le_value(s), s.len()) == s,
    decreases s.len(),
{
    if s.len() > 0 {
        let rest = s.subrange(1, s.len() as int);
        lemma_le_bytes_of_value(rest);
        let v = le_value(s);
        assert(v % 256 == s[0] as nat && v / 256 == le_value(rest));
        assert(seq![s[0]] + rest =~= s);
    }
}

/// Appends the `n` low bytes of `x`, least significant first.
pub fn push_le(buf: &mut Vec<u8>, x: u64, n: usize)
    ensures
        final(buf)@ == old(buf)@ + le_bytes(x as nat, n as nat),
{
    let mut rest: u64 = x;
    let mut left: usize = n;
    while left > 0
        invariant
            buf@ + le_bytes(rest as nat, left as nat) == old(buf)@ + le_bytes(x as nat, n as nat),
        decreases left,
    {
        let ghost before = buf@;
        let byte: u8 = (rest % 256) as u8;
        buf.push(byte);
        proof {
            let tail = le_bytes((rest / 256) as nat, (left - 1) as nat);
            assert(buf@ + tail =~= before + (seq![byte] + tail));
        }
        rest = rest / 256;
        left = left - 1;
    }
    assert(buf@ + le_bytes(rest as nat, 0) =~= buf@);
}

/// The number whose `n` bytes stand at `pos`, least significant first.
pub fn read_le(data: &[u8], pos: usize, n: usize) -> (value: u64)
    requires
        pos + n <= data@.len(),
        n <= 8,
    ensures
        value == le_value(data@.subrange(pos as int, pos + n)),
        value < pow256(n as nat),
{
    let total: usize = data.len();
    let mut value: u64 = 0;
    let mut i: usize = n;
    assert(data@.subrange(pos + n, pos + n) =~= Seq::empty());
    while i > 0
        invariant
            i <= n <= 8,
            pos + n <= data@.len() == total,
            value == le_value(data@.subrange(pos + i, pos + n)),
        decreases i,
    {
        let ghost tail = data@.subrange(pos + i, pos + n);
        proof {
            lemma_le_value_bound(tail);
            lemma_pow256_monotone(tail.len(), 7);
            reveal_with_fuel(pow256, 8);
            let whole = data@.subrange(pos + i - 1, pos + n);
            assert(whole.subrange(1, whole.len() as int) =~= tail);
        }
        i = i - 1;
        value = data[pos + i] as u64 + 256 * value;
    }
    proof {
        lemma_le_value_bound(data@.subrange(pos as int, pos + n));
    }
    value
}

/// Appends the bytes of `other`.
pub fn append_bytes(buf: &mut Vec<u8>, other: &[u8])
    ensures
        final(buf)@ == old(buf)@ + other@,
{
    buf.extend_from_slice(other);
    assert(buf@ =~= old(buf)@ + other@);
}

/// Whether two byte slices hold the same bytes.
pub fn same_bytes(a: &[u8], b: &[u8]) -> (same: bool)
    ensures
        same == (a@ == b@),
{
    if a.len() != b.len() {
        return false;
    }
    let mut i: usize = 0;
    while i < a.len()
        invariant
            i <= a@.len(),
            a@.len() == b@.len(),
            forall|j: int| 0 <= j < i ==> a@[j] == b@[j],
        decreases a.len() - i,
    {
        if a[i] != b[i] {
            return false;
        }
        i += 1;
    }
    assert(a@ =~= b@);
    true
}

} // verus!
