//! The mathematical model of a bitstream: sequences of bits, most
//! significant bit first, and the facts that connect machine words and bytes
//! to those sequences.

use vstd::prelude::*;

verus! {

/// Facts about shifting and combining with zero.
pub proof fn lemma_zero_shift_facts()
    by (bit_vector)
    ensures
        0u32 << 0u32 == 0,
        0u32 >> 0u32 == 0,
        forall|w: u32| #[trigger] (w >> 0u32) == w,
        forall|w: u32| #[trigger] (w << 0u32) == w,
        forall|w: u32| #[trigger] (0u32 | w) == w,
        forall|w: u32| #[trigger] ((0u32 << 1u32) | w) == w,
        forall|j: u32| #[trigger] (0u32 >> j) == 0,
        forall|j: u32| #[trigger] ((0u32 >> j) & 1u32) == 0,
        forall|b: u8| #[trigger] ((b as u32) >> 8u32) == 0,
{
}

/// The `n` low bits of `v`, most significant first.
pub open spec fn value_bits(v: u32, n: nat) -> Seq<bool> {
    Seq::new(n, |i: int| (v >> ((n - 1 - i) as u32)) & 1u32 == 1u32)
}

/// The first `k` bits of the 32-bit word `w`, counted from its most
/// significant bit.
pub open spec fn word_prefix(w: u32, k: nat) -> Seq<bool> {
    Seq::new(k, |i: int| (w >> ((31 - i) as u32)) & 1u32 == 1u32)
}

/// The eight bits of a byte, most significant first.
pub open spec fn byte_bits(b: u8) -> Seq<bool> {
    value_bits(b as u32, 8)
}

/// The bits of a byte sequence, each byte most significant bit first.
pub open spec fn bytes_bits(s: Seq<u8>) -> Seq<bool>
    decreases s.len(),
{
    if s.len() == 0 {
        Seq::empty()
    } else {
        bytes_bits(s.drop_last()) + byte_bits(s.last())
    }
}

/// A run of `n` one bits.
pub open spec fn ones(n: nat) -> Seq<bool> {
    Seq::new(n, |i: int| true)
}

/// A run of `n` zero bits.
pub open spec fn zeros(n: nat) -> Seq<bool> {
    Seq::new(n, |i: int| false)
}

/// The four bytes of a word, most significant first.
pub open spec fn word_bytes(w: u32) -> Seq<u8> {
    seq![(w >> 24u32) as u8, (w >> 16u32) as u8, (w >> 8u32) as u8, w as u8]
}

pub proof fn lemma_bytes_bits_push(s: Seq<u8>, b: u8)
    ensures
        bytes_bits(s.push(b)) == bytes_bits(s) + byte_bits(b),
{
    assert(s.push(b).drop_last() =~= s);
}

pub proof fn lemma_bytes_bits_len(s: Seq<u8>)
    ensures
        bytes_bits(s).len() == 8 * s.len(),
    decreases s.len(),
{
    if s.len() > 0 {
        lemma_bytes_bits_len(s.drop_last());
    }
}

pub proof fn lemma_bytes_bits_append(s: Seq<u8>, t: Seq<u8>)
    ensures
        bytes_bits(s + t) == bytes_bits(s) + bytes_bits(t),
    decreases t.len(),
{
    if t.len() == 0 {
        assert(s + t =~= s);
        assert(bytes_bits(s) + bytes_bits(t) =~= bytes_bits(s));
    } else {
        lemma_bytes_bits_append(s, t.drop_last());
        assert((s + t).drop_last() =~= s + t.drop_last());
        assert((s + t).last() == t.last());
        assert(bytes_bits(s + t) == bytes_bits(s + t.drop_last()) + byte_bits(t.last()));
        assert(bytes_bits(s) + bytes_bits(t) =~= bytes_bits(s) + bytes_bits(t.drop_last())
            + byte_bits(t.last()));
    }
}

proof fn lemma_byte_of_word_bit(w: u32, s: u32, j: u32)
    requires
        s == 0 || s == 8 || s == 16 || s == 24,
        j < 8,
    ensures
        ((((w >> s) as u8) as u32) >> j) & 1u32 == (w >> (s + j)) & 1u32,
{
    assert(((((w >> s) as u8) as u32) >> j) & 1u32 == (w >> (s + j)) & 1u32) by (bit_vector)
        requires
            s == 0 || s == 8 || s == 16 || s == 24,
            j < 8,
    ;
}

/// The bits of the four bytes of a word are the word's 32 bits.
pub proof fn lemma_word_bytes_bits(w: u32)
    ensures
        bytes_bits(word_bytes(w)) == word_prefix(w, 32),
{
    let b = word_bytes(w);
    let e = Seq::<u8>::empty();
    assert(bytes_bits(e) =~= Seq::<bool>::empty());
    lemma_bytes_bits_push(e, b[0]);
    lemma_bytes_bits_push(e.push(b[0]), b[1]);
    lemma_bytes_bits_push(e.push(b[0]).push(b[1]), b[2]);
    lemma_bytes_bits_push(e.push(b[0]).push(b[1]).push(b[2]), b[3]);
    assert(e.push(b[0]).push(b[1]).push(b[2]).push(b[3]) =~= b);
    let lhs = bytes_bits(b);
    assert(lhs =~= byte_bits(b[0]) + byte_bits(b[1]) + byte_bits(b[2]) + byte_bits(b[3]));
    assert forall|i: int| 0 <= i < 32 implies lhs[i] == word_prefix(w, 32)[i] by {
        if i < 8 {
            let j = (7 - i) as u32;
            lemma_byte_of_word_bit(w, 24, j);
            assert(lhs[i] == byte_bits(b[0])[i]);
        } else if i < 16 {
            let j = (15 - i) as u32;
            lemma_byte_of_word_bit(w, 16, j);
            assert(lhs[i] == byte_bits(b[1])[i - 8]);
        } else if i < 24 {
            let j = (23 - i) as u32;
            lemma_byte_of_word_bit(w, 8, j);
            assert(lhs[i] == byte_bits(b[2])[i - 16]);
        } else {
            let j = (31 - i) as u32;
            lemma_byte_of_word_bit(w, 0, j);
            lemma_zero_shift_facts();
            assert((w >> 0u32) == w);
            assert(lhs[i] == byte_bits(b[3])[i - 24]);
        }
    }
    assert(lhs =~= word_prefix(w, 32));
}

proof fn lemma_concat_bit_high(a: u32, b: u32, k: u32, j: u32)
    requires
        k < 32,
        j + k < 32,
        b >> k == 0,
    ensures
        (((a << k) | b) >> (j + k)) & 1u32 == (a >> j) & 1u32,
{
    assert((((a << k) | b) >> (j + k)) & 1u32 == (a >> j) & 1u32) by (bit_vector)
        requires
            k < 32,
            j + k < 32,
            b >> k == 0,
    ;
}

proof fn lemma_concat_bit_low(a: u32, b: u32, k: u32, j: u32)
    requires
        k < 32,
        j < k,
    ensures
        (((a << k) | b) >> j) & 1u32 == (b >> j) & 1u32,
{
    assert((((a << k) | b) >> j) & 1u32 == (b >> j) & 1u32) by (bit_vector)
        requires
            k < 32,
            j < k,
    ;
}

/// Shifting `a` left by `k` and filling the gap with `b` lays the bits of
/// `a` and then those of `b` end to end.
pub proof fn lemma_value_bits_concat(a: u32, m: nat, b: u32, k: nat)
    requires
        k < 32,
        m + k <= 32,
        b >> (k as u32) == 0,
    ensures
        value_bits((a << (k as u32)) | b, m + k) == value_bits(a, m) + value_bits(b, k),
        m + k < 32 && a >> (m as u32) == 0 ==> ((a << (k as u32)) | b) >> ((m + k) as u32) == 0,
{
    if m + k < 32 && a >> (m as u32) == 0 {
        let mu = m as u32;
        let ku = k as u32;
        assert(((a << ku) | b) >> ((mu + ku) as u32) == 0) by (bit_vector)
            requires
                ku < 32,
                mu + ku < 32,
                b >> ku == 0,
                a >> mu == 0,
        ;
    }
    let lhs = value_bits((a << (k as u32)) | b, m + k);
    let rhs = value_bits(a, m) + value_bits(b, k);
    assert forall|i: int| 0 <= i < m + k implies lhs[i] == rhs[i] by {
        if i < m {
            let j = (m - 1 - i) as u32;
            lemma_concat_bit_high(a, b, k as u32, j);
            assert(((m + k - 1 - i) as u32) == j + k as u32);
        } else {
            let j = (m + k - 1 - i) as u32;
            lemma_concat_bit_low(a, b, k as u32, j);
            assert(((k - 1 - (i - m)) as u32) == j);
        }
    }
    assert(lhs =~= rhs);
}

/// A value that fits in `n` bits, followed by one more bit.
pub proof fn lemma_value_bits_push(a: u32, n: nat, s: u32)
    requires
        n < 32,
        s <= 1,
    ensures
        value_bits((a << 1u32) | s, n + 1) == value_bits(a, n).push(s == 1),
        n + 1 < 32 && a >> (n as u32) == 0 ==> ((a << 1u32) | s) >> ((n + 1) as u32) == 0,
{
    assert(s >> 1u32 == 0) by (bit_vector)
        requires
            s <= 1,
    ;
    lemma_value_bits_concat(a, n, s, 1);
    assert((s >> 0u32) & 1u32 == s) by (bit_vector)
        requires
            s <= 1,
    ;
    assert(value_bits(s, 1) =~= seq![s == 1]);
}

/// All 32 bits of the all-ones word are set; so are the low `r` bits of
/// `2^r - 1`.
pub proof fn lemma_value_bits_ones(r: u32)
    requires
        r < 32,
    ensures
        value_bits(((1u32 << r) - 1) as u32, r as nat) == ones(r as nat),
        value_bits(0xffff_ffffu32, 32) == ones(32),
{
    assert forall|i: int| 0 <= i < r implies #[trigger] value_bits(((1u32 << r) - 1) as u32, r as nat)[i] by {
        let j = (r - 1 - i) as u32;
        assert(((((1u32 << r) - 1) as u32) >> j) & 1u32 == 1u32) by (bit_vector)
            requires
                r < 32,
                j < r,
        ;
    }
    assert(value_bits(((1u32 << r) - 1) as u32, r as nat) =~= ones(r as nat));
    assert forall|i: int| 0 <= i < 32 implies #[trigger] value_bits(0xffff_ffffu32, 32)[i] by {
        let j = (31 - i) as u32;
        assert((0xffff_ffffu32 >> j) & 1u32 == 1u32) by (bit_vector)
            requires
                j < 32,
        ;
    }
    assert(value_bits(0xffff_ffffu32, 32) =~= ones(32));
}

/// The bits of zero are all clear.
pub proof fn lemma_value_bits_zero(n: nat)
    requires
        n <= 32,
    ensures
        value_bits(0u32, n) == zeros(n),
{
    assert forall|i: int| 0 <= i < n implies !#[trigger] value_bits(0u32, n)[i] by {
        let j = (n - 1 - i) as u32;
        lemma_zero_shift_facts();
        assert((0u32 >> j) & 1u32 == 0u32);
    }
    assert(value_bits(0u32, n) =~= zeros(n));
}

proof fn lemma_insert_bit_high(c: u32, cb: u32, val: u32, n: u32, p: u32)
    requires
        0 < n < cb <= 32,
        val >> n == 0,
        cb <= p < 32,
    ensures
        ((c | (val << ((cb - n) as u32))) >> p) & 1u32 == (c >> p) & 1u32,
{
    assert(((c | (val << ((cb - n) as u32))) >> p) & 1u32 == (c >> p) & 1u32) by (bit_vector)
        requires
            0 < n < cb <= 32,
            val >> n == 0,
            cb <= p < 32,
    ;
}

proof fn lemma_insert_bit_mid(c: u32, cb: u32, val: u32, n: u32, p: u32)
    requires
        0 < n < cb <= 32,
        c << ((32 - cb) as u32) == 0,
        (cb - n) as u32 <= p < cb,
    ensures
        ((c | (val << ((cb - n) as u32))) >> p) & 1u32 == (val >> ((p - (cb - n)) as u32)) & 1u32,
{
    assert(((c | (val << ((cb - n) as u32))) >> p) & 1u32 == (val >> ((p - (cb - n)) as u32))
        & 1u32) by (bit_vector)
        requires
            0 < n < cb <= 32,
            c << ((32 - cb) as u32) == 0,
            (cb - n) as u32 <= p < cb,
    ;
}

/// Placing a value of `n` bits just below the `32 - cb` bits already held
/// in a cache word appends its bits to the cache's prefix.
pub proof fn lemma_cache_insert(c: u32, cb: u32, val: u32, n: u32)
    requires
        0 < n < cb <= 32,
        c << ((32 - cb) as u32) == 0,
        val >> n == 0,
    ensures
        word_prefix(c | (val << ((cb - n) as u32)), (32 - (cb - n)) as nat) == word_prefix(
            c,
            (32 - cb) as nat,
        ) + value_bits(val, n as nat),
        (c | (val << ((cb - n) as u32))) << ((32 - (cb - n)) as u32) == 0,
{
    let w = c | (val << ((cb - n) as u32));
    let lhs = word_prefix(w, (32 - (cb - n)) as nat);
    let rhs = word_prefix(c, (32 - cb) as nat) + value_bits(val, n as nat);
    assert forall|i: int| 0 <= i < 32 - (cb - n) implies lhs[i] == rhs[i] by {
        let p = (31 - i) as u32;
        if i < 32 - cb {
            lemma_insert_bit_high(c, cb, val, n, p);
        } else {
            lemma_insert_bit_mid(c, cb, val, n, p);
            assert(((n - 1 - (i - (32 - cb))) as u32) == ((p - (cb - n)) as u32));
        }
    }
    assert(lhs =~= rhs);
    assert(w << ((32 - (cb - n)) as u32) == 0) by (bit_vector)
        requires
            w == c | (val << ((cb - n) as u32)),
            0 < n < cb <= 32,
            c << ((32 - cb) as u32) == 0,
            val >> n == 0,
    ;
}

proof fn lemma_fill_bit_high(c: u32, cb: u32, val: u32, r: u32, p: u32)
    requires
        1 <= cb <= 32,
        r < 32,
        r + cb <= 32,
        (val >> r) >> cb == 0 || cb == 32,
        cb <= p < 32,
    ensures
        ((c | (val >> r)) >> p) & 1u32 == (c >> p) & 1u32,
{
    assert(((c | (val >> r)) >> p) & 1u32 == (c >> p) & 1u32) by (bit_vector)
        requires
            1 <= cb <= 32,
            r < 32,
            (val >> r) >> cb == 0 || cb == 32,
            cb <= p < 32,
    ;
}

proof fn lemma_fill_bit_low(c: u32, cb: u32, val: u32, r: u32, p: u32)
    requires
        1 <= cb <= 32,
        r < 32,
        r + cb <= 32,
        c << ((32 - cb) as u32) == 0,
        p < cb,
    ensures
        ((c | (val >> r)) >> p) & 1u32 == (val >> ((r + p) as u32)) & 1u32,
{
    assert(((c | (val >> r)) >> p) & 1u32 == (val >> ((r + p) as u32)) & 1u32) by (bit_vector)
        requires
            1 <= cb <= 32,
            r < 32,
            r + cb <= 32,
            c << ((32 - cb) as u32) == 0,
            p < cb,
    ;
}

/// Completing a cache word with the leading `cb` bits of an `n`-bit value
/// (`n = r + cb`) gives a full word holding the cache prefix and then those bits.
pub proof fn lemma_cache_fill(c: u32, cb: u32, val: u32, r: u32)
    requires
        1 <= cb <= 32,
        r < 32,
        r + cb <= 32,
        c << ((32 - cb) as u32) == 0,
        r + cb == 32 || val >> ((r + cb) as u32) == 0,
    ensures
        word_prefix(c | (val >> r), 32) == word_prefix(c, (32 - cb) as nat) + value_bits(
            val,
            (r + cb) as nat,
        ).take(cb as int),
{
    let w = c | (val >> r);
    let n = (r + cb) as nat;
    assert((val >> r) >> cb == 0 || cb == 32) by (bit_vector)
        requires
            1 <= cb <= 32,
            r < 32,
            r + cb <= 32,
            r + cb == 32 || val >> ((r + cb) as u32) == 0,
    ;
    let lhs = word_prefix(w, 32);
    let rhs = word_prefix(c, (32 - cb) as nat) + value_bits(val, n).take(cb as int);
    assert forall|i: int| 0 <= i < 32 implies lhs[i] == rhs[i] by {
        let p = (31 - i) as u32;
        if i < 32 - cb {
            lemma_fill_bit_high(c, cb, val, r, p);
        } else {
            lemma_fill_bit_low(c, cb, val, r, p);
            assert(((n - 1 - (i - (32 - cb))) as u32) == ((r + p) as u32));
        }
    }
    assert(lhs =~= rhs);
}

/// The low `r` bits of an `n`-bit value (`n = r + cb`), moved to the top of
/// a fresh cache word, are the value's bits after its first `cb`.
pub proof fn lemma_cache_rest(val: u32, cb: u32, r: u32)
    requires
        1 <= r < 32,
        r + cb == 32 || (r + cb < 32 && val >> ((r + cb) as u32) == 0),
        1 <= cb,
    ensures
        word_prefix(val << ((32 - r) as u32), r as nat) == value_bits(val, (r + cb) as nat).skip(
            cb as int,
        ),
        (val << ((32 - r) as u32)) << r == 0,
{
    let lhs = word_prefix(val << ((32 - r) as u32), r as nat);
    let rhs = value_bits(val, (r + cb) as nat).skip(cb as int);
    assert forall|i: int| 0 <= i < r implies lhs[i] == rhs[i] by {
        let p = (31 - i) as u32;
        let q = (r - 1 - i) as u32;
        assert(((val << ((32 - r) as u32)) >> p) & 1u32 == (val >> q) & 1u32) by (bit_vector)
            requires
                1 <= r < 32,
                p == 31 - (r - 1 - q),
                q < r,
        ;
        assert((((r + cb) as nat) - 1 - (i + cb)) as u32 == q);
    }
    assert(lhs =~= rhs);
    assert((val << ((32 - r) as u32)) << r == 0) by (bit_vector)
        requires
            1 <= r < 32,
    ;
}

/// The bits of a cache word past its first `32 - cb` are clear when its
/// `cb` low bits are.
pub proof fn lemma_word_prefix_zero_tail(c: u32, cb: u32, k: nat)
    requires
        1 <= cb <= 32,
        c << ((32 - cb) as u32) == 0,
        32 - cb <= k <= 32,
    ensures
        word_prefix(c, k) == word_prefix(c, (32 - cb) as nat) + zeros((k - (32 - cb)) as nat),
{
    let lhs = word_prefix(c, k);
    let rhs = word_prefix(c, (32 - cb) as nat) + zeros((k - (32 - cb)) as nat);
    assert forall|i: int| 0 <= i < k implies lhs[i] == rhs[i] by {
        if i >= 32 - cb {
            let p = (31 - i) as u32;
            assert((c >> p) & 1u32 == 0u32) by (bit_vector)
                requires
                    1 <= cb <= 32,
                    c << ((32 - cb) as u32) == 0,
                    p < cb,
            ;
        }
    }
    assert(lhs =~= rhs);
}

/// The bits of the first `k` bytes of a word are its first `8 * k` bits.
pub proof fn lemma_word_bytes_take_bits(w: u32, k: int)
    requires
        0 <= k <= 4,
    ensures
        bytes_bits(word_bytes(w).take(k)) == word_prefix(w, (8 * k) as nat),
{
    let b = word_bytes(w);
    lemma_word_bytes_bits(w);
    assert(b =~= b.take(k) + b.skip(k));
    lemma_bytes_bits_append(b.take(k), b.skip(k));
    lemma_bytes_bits_len(b.take(k));
    let whole = word_prefix(w, 32);
    assert forall|i: int| 0 <= i < 8 * k implies bytes_bits(b.take(k))[i] == word_prefix(
        w,
        (8 * k) as nat,
    )[i] by {
        assert(whole[i] == (bytes_bits(b.take(k)) + bytes_bits(b.skip(k)))[i]);
    }
    assert(bytes_bits(b.take(k)) =~= word_prefix(w, (8 * k) as nat));
}

} // verus!
