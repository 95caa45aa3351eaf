//! Little-endian byte strings read as natural numbers.
//!
//! Every big number of the library (field elements, scalars, hash outputs) is
//! held as bytes, least significant first. This module gives such a string its
//! value, [`le_nat`], and the few executable helpers whose contracts speak of
//! that value.

use vstd::arithmetic::div_mod::*;
use vstd::prelude::*;

verus! {

/// Length in bytes of a number in its fixed-width form.
pub const WIDTH: usize = 57;

/// 256 to the power `n`.
pub open spec fn pow256(n: nat) -> nat
    decreases n,
{
    if n == 0 {
        1
    } else {
        256 * pow256((n - 1) as nat)
    }
}

/// The number that the bytes of `s` from index `i` on spell, least significant first.
pub open spec fn le_from(s: Seq<u8>, i: int) -> nat
    decreases s.len() - i,
{
    if i < 0 || i >= s.len() {
        0
    } else {
        s[i] as nat + 256 * le_from(s, i + 1)
    }
}

/// The number that `s` spells in little-endian order.
pub open spec fn le_nat(s: Seq<u8>) -> nat {
    le_from(s, 0)
}

pub proof fn lemma_pow256_positive(n: nat)
    ensures
        pow256(n) > 0,
    decreases n,
{
    if n > 0 {
        lemma_pow256_positive((n - 1) as nat);
    }
}

pub proof fn lemma_pow256_add(a: nat, b: nat)
    ensures
        pow256(a + b) == pow256(a) * pow256(b),
    decreases a,
{
    if a == 0 {
        assert(1 * pow256(b) == pow256(b));
    } else {
        lemma_pow256_add((a - 1) as nat, b);
        assert((a + b - 1) as nat == (a - 1) as nat + b);
        assert(256 * (pow256((a - 1) as nat) * pow256(b)) == (256 * pow256((a - 1) as nat))
            * pow256(b)) by (nonlinear_arith);
    }
}

pub proof fn lemma_pow256_monotonic(a: nat, b: nat)
    requires
        a <= b,
    ensures
        pow256(a) <= pow256(b),
{
    lemma_pow256_add(a, (b - a) as nat);
    lemma_pow256_positive((b - a) as nat);
    lemma_pow256_positive(a);
    assert(pow256(a) * 1 <= pow256(a) * pow256((b - a) as nat)) by (nonlinear_arith)
        requires
            pow256((b - a) as nat) >= 1,
            pow256(a) > 0,
    ;
}

/// A string of `n` bytes spells a number below `256^n`.
pub proof fn lemma_le_from_bound(s: Seq<u8>, i: int)
    requires
        0 <= i <= s.len(),
    ensures
        le_from(s, i) < pow256((s.len() - i) as nat),
    decreases s.len() - i,
{
    if i < s.len() {
        lemma_le_from_bound(s, i + 1);
        assert((s.len() - i) as nat - 1 == (s.len() - (i + 1)) as nat);
    }
}

pub proof fn lemma_le_nat_bound(s: Seq<u8>)
    ensures
        le_nat(s) < pow256(s.len()),
{
    lemma_le_from_bound(s, 0);
}

/// The bytes below index `k` and those from `k` on add up, the second part
/// shifted by `k` bytes.
pub proof fn lemma_le_from_split(s: Seq<u8>, i: int, k: int)
    requires
        0 <= i <= k <= s.len(),
    ensures
        le_from(s, i) == le_from(s.subrange(0, k), i) + pow256((k - i) as nat) * le_from(s, k),
    decreases k - i,
{
    let head = s.subrange(0, k);
    if i == k {
        assert(le_from(head, i) == 0);
        assert(1 * le_from(s, k) == le_from(s, k));
    } else {
        lemma_le_from_split(s, i + 1, k);
        assert(head[i] == s[i]);
        assert((k - i) as nat - 1 == (k - (i + 1)) as nat);
        let hi = le_from(s, k);
        let pw = pow256((k - (i + 1)) as nat);
        assert(256 * (le_from(head, i + 1) + pw * hi) == 256 * le_from(head, i + 1) + (256 * pw)
            * hi) by (nonlinear_arith);
    }
}

pub proof fn lemma_le_nat_split(s: Seq<u8>, k: int)
    requires
        0 <= k <= s.len(),
    ensures
        le_nat(s) == le_nat(s.subrange(0, k)) + pow256(k as nat) * le_from(s, k),
        le_nat(s.subrange(0, k)) < pow256(k as nat),
{
    lemma_le_from_split(s, 0, k);
    lemma_le_nat_bound(s.subrange(0, k));
}

/// What follows index `i` decides `le_from(s, i)`: a suffix read on its own
/// spells the same number.
pub proof fn lemma_le_from_suffix(s: Seq<u8>, i: int, j: int)
    requires
        0 <= i <= j <= s.len(),
    ensures
        le_from(s, j) == le_from(s.subrange(i, s.len() as int), j - i),
    decreases s.len() - j,
{
    let tail = s.subrange(i, s.len() as int);
    if j < s.len() {
        lemma_le_from_suffix(s, i, j + 1);
        assert(tail[j - i] == s[j]);
    }
}

/// Zero bytes spell zero.
pub proof fn lemma_le_from_zeros(s: Seq<u8>, i: int)
    requires
        0 <= i <= s.len(),
        forall|j: int| i <= j < s.len() ==> s[j] == 0,
    ensures
        le_from(s, i) == 0,
    decreases s.len() - i,
{
    if i < s.len() {
        lemma_le_from_zeros(s, i + 1);
    }
}

/// The value of a concatenation.
pub proof fn lemma_le_nat_concat(a: Seq<u8>, b: Seq<u8>)
    ensures
        le_nat(a + b) == le_nat(a) + pow256(a.len()) * le_nat(b),
{
    let s = a + b;
    lemma_le_nat_split(s, a.len() as int);
    assert(s.subrange(0, a.len() as int) =~= a);
    lemma_le_from_suffix(s, a.len() as int, a.len() as int);
    assert(s.subrange(a.len() as int, s.len() as int) =~= b);
}

/// Two strings of one length that spell the same number are the same string.
pub proof fn lemma_le_nat_injective(a: Seq<u8>, b: Seq<u8>)
    requires
        a.len() == b.len(),
        le_nat(a) == le_nat(b),
    ensures
        a == b,
    decreases a.len(),
{
    if a.len() > 0 {
        let n = a.len() as int;
        let a1 = a.subrange(1, n);
        let b1 = b.subrange(1, n);
        lemma_le_from_suffix(a, 1, 1);
        lemma_le_from_suffix(b, 1, 1);
        assert(le_nat(a) == a[0] as nat + 256 * le_nat(a1));
        assert(le_nat(b) == b[0] as nat + 256 * le_nat(b1));
        assert(a[0] == b[0] && le_nat(a1) == le_nat(b1)) by {
            assert((a[0] as nat + 256 * le_nat(a1)) % 256 == a[0] as nat) by {
                lemma_fundamental_div_mod_converse_mod(
                    (a[0] as nat + 256 * le_nat(a1)) as int,
                    256,
                    le_nat(a1) as int,
                    a[0] as int,
                );
            }
            assert((b[0] as nat + 256 * le_nat(b1)) % 256 == b[0] as nat) by {
                lemma_fundamental_div_mod_converse_mod(
                    (b[0] as nat + 256 * le_nat(b1)) as int,
                    256,
                    le_nat(b1) as int,
                    b[0] as int,
                );
            }
        }
        lemma_le_nat_injective(a1, b1);
        assert forall|i: int| 0 <= i < n implies a[i] == b[i] by {
            if i > 0 {
                assert(a1[i - 1] == a[i]);
                assert(b1[i - 1] == b[i]);
            }
        }
        assert(a =~= b);
    } else {
        assert(a =~= b);
    }
}

/// The `len` little-endian bytes of `n`, the rest of `n` dropped where it does
/// not fit.
pub open spec fn le_bytes(n: nat, len: nat) -> Seq<u8>
    decreases len,
{
    if len == 0 {
        Seq::empty()
    } else {
        seq![(n % 256) as u8] + le_bytes(n / 256, (len - 1) as nat)
    }
}

pub proof fn lemma_le_bytes_len(n: nat, len: nat)
    ensures
        le_bytes(n, len).len() == len,
    decreases len,
{
    if len > 0 {
        lemma_le_bytes_len(n / 256, (len - 1) as nat);
    }
}

/// The bytes of a number that fits spell that number.
pub proof fn lemma_le_bytes_value(n: nat, len: nat)
    requires
        n < pow256(len),
    ensures
        le_nat(le_bytes(n, len)) == n,
    decreases len,
{
    if len > 0 {
        let first = seq![(n % 256) as u8];
        let rest = le_bytes(n / 256, (len - 1) as nat);
        assert(n / 256 < pow256((len - 1) as nat));
        lemma_le_bytes_value(n / 256, (len - 1) as nat);
        lemma_le_nat_concat(first, rest);
        assert(first.len() == 1);
        assert(le_nat(first) == n % 256) by {
            reveal_with_fuel(le_from, 2);
        }
        assert(pow256(1) == 256) by {
            reveal_with_fuel(pow256, 2);
        }
        assert(le_bytes(n, len) == first + rest);
        assert(le_nat(first + rest) == n % 256 + 256 * (n / 256));
    }
}

/// A byte string is the bytes of the number that it spells.
pub proof fn lemma_le_bytes_unique(s: Seq<u8>)
    ensures
        s == le_bytes(le_nat(s), s.len()),
{
    lemma_le_nat_bound(s);
    lemma_le_bytes_value(le_nat(s), s.len());
    lemma_le_bytes_len(le_nat(s), s.len());
    lemma_le_nat_injective(s, le_bytes(le_nat(s), s.len()));
}

/// Whether `a` spells a smaller number than `b`.
pub fn less_than(a: &[u8; 57], b: &[u8; 57]) -> (r: bool)
    ensures
        r == (le_nat(a@) < le_nat(b@)),
{
    let mut i: usize = WIDTH;
    while i > 0
        invariant
            i <= WIDTH,
            le_from(a@, i as int) == le_from(b@, i as int),
        decreases i,
    {
        i = i - 1;
        if a[i] != b[i] {
            proof {
                let k = i as int;
                lemma_le_nat_split(a@, k);
                lemma_le_nat_split(b@, k);
                let pw = pow256(i as nat) as int;
                let la = le_nat(a@.subrange(0, k)) as int;
                let lb = le_nat(b@.subrange(0, k)) as int;
                let ha = le_from(a@, k) as int;
                let hb = le_from(b@, k) as int;
                if a[k] < b[k] {
                    assert(ha + 1 <= hb);
                    assert(la + pw * ha < lb + pw * hb) by (nonlinear_arith)
                        requires
                            ha + 1 <= hb,
                            0 <= la < pw,
                            0 <= lb,
                    ;
                } else {
                    assert(hb + 1 <= ha);
                    assert(lb + pw * hb < la + pw * ha) by (nonlinear_arith)
                        requires
                            hb + 1 <= ha,
                            0 <= lb < pw,
                            0 <= la,
                    ;
                }
            }
            return a[i] < b[i];
        }
    }
    false
}

/// Whether `a` and `b` are the same bytes, that is, spell the same number.
pub fn same_bytes(a: &[u8; 57], b: &[u8; 57]) -> (r: bool)
    ensures
        r == (a@ == b@),
        r == (le_nat(a@) == le_nat(b@)),
{
    let mut i: usize = 0;
    while i < WIDTH
        invariant
            i <= WIDTH,
            forall|j: int| 0 <= j < i ==> a@[j] == b@[j],
        decreases WIDTH - i,
    {
        if a[i] != b[i] {
            proof {
                if le_nat(a@) == le_nat(b@) {
                    lemma_le_nat_injective(a@, b@);
                }
            }
            return false;
        }
        i = i + 1;
    }
    assert(a@ =~= b@);
    true
}

/// The low 57 bytes of `v`, filled up with zeros where `v` is shorter: the
/// number that `v` spells, reduced modulo `256^57`.
pub fn low_bytes(v: &[u8]) -> (r: [u8; 57])
    ensures
        le_nat(r@) == le_nat(v@) % pow256(57),
        forall|j: int| 0 <= j < 57 ==> r@[j] == (if j < v@.len() { v@[j] } else { 0u8 }),
{
    let mut out = [0u8; 57];
    let n: usize = if v.len() < WIDTH { v.len() } else { WIDTH };
    let mut i: usize = 0;
    while i < n
        invariant
            i <= n <= WIDTH,
            n <= v@.len(),
            forall|j: int| 0 <= j < i ==> out@[j] == v@[j],
            forall|j: int| i <= j < 57 ==> out@[j] == 0,
        decreases n - i,
    {
        out[i] = v[i];
        i = i + 1;
    }
    proof {
        let k = n as int;
        lemma_pow256_positive(57);
        lemma_le_nat_split(out@, k);
        lemma_le_nat_split(v@, k);
        assert(out@.subrange(0, k) =~= v@.subrange(0, k));
        if v@.len() >= 57 {
            assert(out@.subrange(0, k) =~= out@);
            lemma_fundamental_div_mod_converse_mod(
                le_nat(v@) as int,
                pow256(57) as int,
                le_from(v@, k) as int,
                le_nat(out@) as int,
            );
        } else {
            lemma_le_from_zeros(out@, k);
            assert(v@.subrange(0, k) =~= v@);
            assert(le_from(v@, k) == 0);
            assert(pow256(k as nat) * 0 == 0);
            lemma_pow256_monotonic(k as nat, 57);
            lemma_small_mod(le_nat(v@), pow256(57));
        }
    }
    out
}

/// The 57 bytes of `s` that start at `offset`.
pub fn take_57(s: &[u8], offset: usize) -> (r: [u8; 57])
    requires
        offset + 57 <= s@.len(),
    ensures
        r@ == s@.subrange(offset as int, offset + 57),
{
    let mut out = [0u8; 57];
    let len: usize = s.len();
    let mut i: usize = 0;
    while i < WIDTH
        invariant
            i <= WIDTH,
            offset + 57 <= s@.len() == len,
            forall|j: int| 0 <= j < i ==> out@[j] == s@[offset + j],
        decreases WIDTH - i,
    {
        out[i] = s[offset + i];
        i = i + 1;
    }
    assert(out@ =~= s@.subrange(offset as int, offset + 57));
    out
}

/// An array whose first `n` bytes are those of `s`, and whose other bytes
/// are zero.
pub open spec fn array_prefix(s: Seq<u8>, n: nat) -> [u8; 57]
    decreases n,
{
    if n == 0 {
        vstd::array::spec_array_fill_for_copy_type::<u8, 57>(0u8)
    } else {
        vstd::array::spec_array_update(array_prefix(s, (n - 1) as nat), n - 1, s[n - 1])
    }
}

/// The array that holds the 57 bytes of `s`.
pub open spec fn array_57(s: Seq<u8>) -> [u8; 57] {
    array_prefix(s, 57)
}

pub proof fn lemma_array_prefix(s: Seq<u8>, n: nat)
    requires
        n <= 57,
        s.len() == 57,
    ensures
        forall|j: int| 0 <= j < 57 ==> array_prefix(s, n)@[j] == (if j < n { s[j] } else { 0u8 }),
    decreases n,
{
    broadcast use vstd::array::group_array_axioms;

    if n == 0 {
        let zeros = vstd::array::spec_array_fill_for_copy_type::<u8, 57>(0u8);
        assert(array_prefix(s, 0) == zeros);
        assert(forall|j: int| 0 <= j < 57 ==> zeros@[j] == 0u8);
    } else {
        let before = array_prefix(s, (n - 1) as nat);
        lemma_array_prefix(s, (n - 1) as nat);
        let after = vstd::array::spec_array_update(before, n - 1, s[n - 1]);
        assert(array_prefix(s, n) == after);
        assert(after@ == before@.update(n - 1, s[n - 1]));
    }
}

/// The array of 57 bytes holds those bytes, and no other array does.
pub proof fn lemma_array_57(s: Seq<u8>)
    requires
        s.len() == 57,
    ensures
        array_57(s)@ == s,
        forall|a: [u8; 57]| a@ == s ==> a == array_57(s),
{
    lemma_array_prefix(s, 57);
    assert(array_57(s)@ =~= s);
    assert forall|a: [u8; 57]| a@ == s implies a == array_57(s) by {
        assert(a =~= array_57(s));
    }
}

} // verus!
