use vstd::prelude::*;

verus! {

/// The number that bytes stand for when read little-endian.
pub open spec fn le_value(s: Seq<u8>) -> nat
    decreases s.len(),
{
    if s.len() == 0 {
        0
    } else {
        s[0] as nat + 256 * le_value(s.skip(1))
    }
}

/// `256^n`.
pub open spec fn pow256(n: nat) -> nat
    decreases n,
{
    if n == 0 {
        1
    } else {
        256 * pow256((n - 1) as nat)
    }
}

/// Number of 8-byte groups that cover `n` bytes.
pub open spec fn group_count(n: nat) -> nat {
    (n + 7) / 8
}

/// Group `k` of a label: bytes `8k..8k+8`, cut at the end of the label; the
/// zero bytes that pad it add nothing to its little-endian value.
pub open spec fn group(s: Seq<u8>, k: nat) -> Seq<u8> {
    let lo = 8 * k;
    let hi = if lo + 8 <= s.len() { lo + 8 } else { s.len() as nat };
    s.subrange(lo as int, hi as int)
}

/// The XOR of the little-endian values of the first `n` groups.
pub open spec fn xor_groups(s: Seq<u8>, n: nat) -> u64
    decreases n,
{
    if n == 0 {
        0
    } else {
        xor_groups(s, (n - 1) as nat) ^ (le_value(group(s, (n - 1) as nat)) as u64)
    }
}

/// The id of a label: its bytes cut into 8-byte groups, each read as a
/// little-endian 64-bit word, all XOR-folded together.
pub open spec fn label_id(s: Seq<u8>) -> u64 {
    xor_groups(s, group_count(s.len()))
}

proof fn lemma_le_value_bound(s: Seq<u8>)
    ensures
        le_value(s) < pow256(s.len()),
    decreases s.len(),
{
    if s.len() > 0 {
        lemma_le_value_bound(s.skip(1));
        let r = le_value(s.skip(1));
        let p = pow256((s.len() - 1) as nat);
        assert(s[0] as nat + 256 * r < 256 * p) by (nonlinear_arith)
            requires
                r < p,
                s[0] < 256,
        ;
    }
}

/// Reads the bytes of a group from its last one down to its first.
fn group_value(label: &[u8], lo: usize, hi: usize) -> (r: u64)
    requires
        lo <= hi <= label@.len(),
        hi - lo <= 8,
    ensures
        r as nat == le_value(label@.subrange(lo as int, hi as int)),
{
    let mut k: usize = hi;
    let mut acc: u64 = 0;
    assert(label@.subrange(hi as int, hi as int).len() == 0);
    while k > lo
        invariant
            lo <= k <= hi <= label@.len(),
            hi - lo <= 8,
            acc as nat == le_value(label@.subrange(k as int, hi as int)),
        decreases k - lo,
    {
        let ghost tail = label@.subrange(k as int, hi as int);
        proof {
            lemma_le_value_bound(tail);
            reveal_with_fuel(pow256, 8);
            assert(pow256(7) == 72057594037927936);
            if tail.len() < 7 {
                lemma_pow_mono(tail.len(), 7);
            }
        }
        k = k - 1;
        let ghost next = label@.subrange(k as int, hi as int);
        assert(next.skip(1) =~= tail);
        assert(acc * 256 + 255 < 0x1_0000_0000_0000_0000) by (nonlinear_arith)
            requires
                acc < 72057594037927936,
        ;
        acc = label[k] as u64 + acc * 256;
    }
    acc
}

proof fn lemma_pow_mono(a: nat, b: nat)
    requires
        a <= b,
    ensures
        pow256(a) <= pow256(b),
    decreases b,
{
    if a < b {
        lemma_pow_mono(a, (b - 1) as nat);
    }
}

/// The id of a label, as `label_id` gives it.
pub fn calculate_label_id(label: &[u8]) -> (r: u64)
    ensures
        r == label_id(label@),
{
    let n: usize = label.len();
    let groups: usize = n / 8 + if n % 8 == 0 { 0 } else { 1 };
    assert(groups == group_count(n as nat));
    let mut hash: u64 = 0;
    let mut k: usize = 0;
    while k < groups
        invariant
            n == label@.len(),
            groups == group_count(n as nat),
            k <= groups,
            hash == xor_groups(label@, k as nat),
        decreases groups - k,
    {
        assert(8 * k < n) by (nonlinear_arith)
            requires
                k < groups,
                groups == (n + 7) / 8,
        ;
        let lo: usize = 8 * k;
        let hi: usize = if n - lo >= 8 { lo + 8 } else { n };
        let g = group_value(label, lo, hi);
        hash = hash ^ g;
        k = k + 1;
    }
    hash
}

} // verus!
