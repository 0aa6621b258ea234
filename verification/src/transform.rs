//! The chained transform: consumes the decoded bytes in 8-byte windows and
//! produces one plain byte per window, carrying the previous output byte as
//! running state.
//!
//! Each window is read as a 64-bit word in least-significant-byte-first
//! order; its low half is XORed with its high half and with the window index
//! (truncated to 32 bits), and the result is divided by twice the previous
//! output byte. The low 8 bits of the quotient are the output byte and become
//! the next state. The state starts at 1; if an output byte is 0, the next
//! window would divide by zero, which is reported as an error.
use vstd::prelude::*;

verus! {

/// The transform's single failure: the running state reached zero, so the
/// window at this index would divide by zero.
#[derive(Debug, Clone, Copy, PartialEq, Eq, Structural)]
pub enum TransformError {
    DivisionByZero(usize),
}

/// Number of complete 8-byte windows in the input; trailing bytes are dropped.
pub open spec fn window_count(data: Seq<u8>) -> int {
    data.len() as int / 8
}

/// The low 32 bits of window `k`'s word: its first four bytes,
/// least-significant first.
pub open spec fn value_word(data: Seq<u8>, k: int) -> u32
    recommends
        0 <= k < window_count(data),
{
    ((data[8 * k] as int) + (data[8 * k + 1] as int) * 0x100 + (data[8 * k + 2] as int) * 0x10000
        + (data[8 * k + 3] as int) * 0x1000000) as u32
}

/// The high 32 bits of window `k`'s word: its last four bytes,
/// least-significant first.
pub open spec fn key_word(data: Seq<u8>, k: int) -> u32
    recommends
        0 <= k < window_count(data),
{
    ((data[8 * k + 4] as int) + (data[8 * k + 5] as int) * 0x100 + (data[8 * k + 6] as int)
        * 0x10000 + (data[8 * k + 7] as int) * 0x1000000) as u32
}

/// The window index reduced to 32 bits.
pub open spec fn index_word(k: int) -> u32 {
    (k % 0x1_0000_0000) as u32
}

/// The mixed value for window `k`: low half XOR high half XOR index.
pub open spec fn mixed_word(data: Seq<u8>, k: int) -> u32 {
    value_word(data, k) ^ key_word(data, k) ^ index_word(k)
}

/// The output byte of window `k` under running state `prev`: the low 8 bits
/// of the mixed value divided by twice `prev`.
pub open spec fn step_byte(data: Seq<u8>, k: int, prev: u32) -> u8
    recommends
        0 <= k < window_count(data),
        prev != 0,
{
    (((mixed_word(data, k) as int) / (2 * prev as int)) % 0x100) as u8
}

/// The transform from window `k` on, with running state `prev`: the output
/// bytes of the remaining windows, or the index of the first window whose
/// divisor would be zero.
pub open spec fn transform_rec(data: Seq<u8>, k: int, prev: u32) -> Result<Seq<u8>, int>
    decreases window_count(data) - k,
{
    if k >= window_count(data) {
        Ok(Seq::empty())
    } else if prev == 0 {
        Err(k)
    } else {
        match transform_rec(data, k + 1, step_byte(data, k, prev) as u32) {
            Ok(rest) => Ok(seq![step_byte(data, k, prev)] + rest),
            Err(j) => Err(j),
        }
    }
}

/// The whole transform: every window in order, starting from state 1.
pub open spec fn transform_spec(data: Seq<u8>) -> Result<Seq<u8>, int> {
    transform_rec(data, 0, 1)
}

/// The transform emits one byte per remaining window: an `Ok` result of the
/// transform from window `k` on has exactly `window_count - k` bytes.
proof fn lemma_rec_len(data: Seq<u8>, k: int, prev: u32)
    ensures
        transform_rec(data, k, prev) matches Ok(o) ==> o.len() == if k <= window_count(data) {
            window_count(data) - k
        } else {
            0
        },
    decreases window_count(data) - k,
{
    if k >= window_count(data) {
    } else if prev == 0 {
    } else {
        lemma_rec_len(data, k + 1, step_byte(data, k, prev) as u32);
    }
}

/// A division-by-zero index reported by the transform from window `k` on
/// always names a window between `k` and the window count.
proof fn lemma_rec_err_bounds(data: Seq<u8>, k: int, prev: u32)
    ensures
        transform_rec(data, k, prev) matches Err(j) ==> k <= j < window_count(data),
    decreases window_count(data) - k,
{
    if k >= window_count(data) {
    } else if prev == 0 {
    } else {
        lemma_rec_err_bounds(data, k + 1, step_byte(data, k, prev) as u32);
    }
}

/// Truncating `data` to its first `m` windows keeps exactly `m` windows, and
/// no more than the original had.
proof fn lemma_sub_window_count(data: Seq<u8>, m: int)
    requires
        0 <= m,
        8 * m <= data.len(),
    ensures
        window_count(data.subrange(0, 8 * m)) == m,
        m <= window_count(data),
{
    vstd::arithmetic::div_mod::lemma_div_multiples_vanish(m, 8);
    vstd::arithmetic::div_mod::lemma_div_is_ordered(8 * m, data.len() as int, 8);
}

/// A window's mixed value reads only that window's bytes, so truncating the
/// input after it changes nothing.
proof fn lemma_mixed_sub(data: Seq<u8>, m: int, k: int)
    requires
        0 <= k < m,
        8 * m <= data.len(),
    ensures
        mixed_word(data.subrange(0, 8 * m), k) == mixed_word(data, k),
{
    let sub = data.subrange(0, 8 * m);
    assert(sub[8 * k] == data[8 * k]);
    assert(sub[8 * k + 1] == data[8 * k + 1]);
    assert(sub[8 * k + 2] == data[8 * k + 2]);
    assert(sub[8 * k + 3] == data[8 * k + 3]);
    assert(sub[8 * k + 4] == data[8 * k + 4]);
    assert(sub[8 * k + 5] == data[8 * k + 5]);
    assert(sub[8 * k + 6] == data[8 * k + 6]);
    assert(sub[8 * k + 7] == data[8 * k + 7]);
}

proof fn lemma_rec_prefix(data: Seq<u8>, m: int, k: int, prev: u32)
    requires
        0 <= k <= m,
        8 * m <= data.len(),
    ensures
        match transform_rec(data, k, prev) {
            Ok(o) => transform_rec(data.subrange(0, 8 * m), k, prev) matches Ok(p) && p
                == o.subrange(0, m - k),
            Err(j) => if j < m {
                transform_rec(data.subrange(0, 8 * m), k, prev) == Err::<Seq<u8>, int>(j)
            } else {
                transform_rec(data.subrange(0, 8 * m), k, prev) is Ok
            },
        },
    decreases m - k,
{
    let sub = data.subrange(0, 8 * m);
    lemma_sub_window_count(data, m);
    lemma_rec_err_bounds(data, k, prev);
    if k == m {
        match transform_rec(data, k, prev) {
            Ok(o) => {
                assert(o.subrange(0, 0) =~= Seq::<u8>::empty());
            },
            Err(j) => {},
        }
    } else if prev == 0 {
    } else {
        lemma_mixed_sub(data, m, k);
        let b = step_byte(data, k, prev);
        assert(step_byte(sub, k, prev) == b);
        lemma_rec_prefix(data, m, k + 1, b as u32);
        match transform_rec(data, k + 1, b as u32) {
            Ok(orest) => {
                lemma_rec_len(data, k + 1, b as u32);
                assert((seq![b] + orest).subrange(0, m - k) =~= seq![b] + orest.subrange(
                    0,
                    m - k - 1,
                ));
            },
            Err(j) => {},
        }
    }
}

/// The transform is a pure function of its input: equal inputs give equal
/// results, so running it twice on the same bytes yields the same outcome.
pub proof fn lemma_transform_deterministic(d1: Seq<u8>, d2: Seq<u8>)
    requires
        d1 == d2,
    ensures
        transform_spec(d1) == transform_spec(d2),
{
}

/// The first `m` output bytes depend only on the first `m` windows: the
/// transform of the truncated input is the truncated output, a failure before
/// window `m` is kept exactly, and a failure at or after window `m` cannot be
/// seen in the first `m` windows.
pub proof fn lemma_transform_prefix(data: Seq<u8>, m: int)
    requires
        0 <= m,
        8 * m <= data.len(),
    ensures
        match transform_spec(data) {
            Ok(o) => transform_spec(data.subrange(0, 8 * m)) matches Ok(p) && p == o.subrange(
                0,
                m,
            ),
            Err(j) => if j < m {
                transform_spec(data.subrange(0, 8 * m)) == Err::<Seq<u8>, int>(j)
            } else {
                transform_spec(data.subrange(0, 8 * m)) is Ok
            },
        },
{
    lemma_rec_prefix(data, m, 0, 1);
}

/// State chaining: two inputs that agree on their first `m` windows agree on
/// their first `m` output bytes, and on any failure before window `m`. A
/// change inside window `k` can therefore reach every later output byte only
/// through the carried state, never by rewriting earlier ones.
pub proof fn lemma_common_prefix_outputs(d1: Seq<u8>, d2: Seq<u8>, m: int)
    requires
        0 <= m,
        8 * m <= d1.len(),
        8 * m <= d2.len(),
        d1.subrange(0, 8 * m) == d2.subrange(0, 8 * m),
    ensures
        match (transform_spec(d1), transform_spec(d2)) {
            (Ok(o1), Ok(o2)) => o1.subrange(0, m) == o2.subrange(0, m),
            (Err(j1), Err(j2)) => (j1 < m || j2 < m) ==> j1 == j2,
            (Err(j1), Ok(o2)) => j1 >= m,
            (Ok(o1), Err(j2)) => j2 >= m,
        },
{
    lemma_transform_prefix(d1, m);
    lemma_transform_prefix(d2, m);
}

/// Truncation: the 1 to 7 bytes after the last whole window are dropped
/// without any effect, error or otherwise -- the transform of the input is
/// the transform of its whole windows alone.
pub proof fn lemma_trailing_bytes_ignored(data: Seq<u8>)
    ensures
        transform_spec(data.subrange(0, 8 * window_count(data))) == transform_spec(data),
{
    let m = window_count(data);
    vstd::arithmetic::div_mod::lemma_fundamental_div_mod(data.len() as int, 8);
    vstd::arithmetic::div_mod::lemma_mod_bound(data.len() as int, 8);
    lemma_transform_prefix(data, m);
    lemma_rec_err_bounds(data, 0, 1);
    match transform_spec(data) {
        Ok(o) => {
            lemma_rec_len(data, 0, 1);
            assert(o.subrange(0, m) =~= o);
        },
        Err(j) => {},
    }
}

proof fn lemma_rec_zero_trigger(data: Seq<u8>, m: int, k: int, prev: u32)
    requires
        0 <= k < m < window_count(data),
        8 * m <= data.len(),
        transform_rec(data.subrange(0, 8 * m), k, prev) is Ok,
        transform_rec(data.subrange(0, 8 * m), k, prev)->Ok_0.last() == 0,
    ensures
        transform_rec(data, k, prev) == Err::<Seq<u8>, int>(m),
    decreases m - k,
{
    let sub = data.subrange(0, 8 * m);
    lemma_sub_window_count(data, m);
    lemma_mixed_sub(data, m, k);
    let b = step_byte(data, k, prev);
    assert(step_byte(sub, k, prev) == b);
    lemma_rec_len(sub, k + 1, b as u32);
    if k + 1 == m {
        assert(transform_rec(sub, k, prev)->Ok_0 == seq![b] + Seq::<u8>::empty());
        assert((seq![b] + Seq::<u8>::empty()).last() == b);
        assert(transform_rec(data, k + 1, 0u32) == Err::<Seq<u8>, int>(m));
    } else {
        let rest = transform_rec(sub, k + 1, b as u32)->Ok_0;
        assert((seq![b] + rest).last() == rest.last());
        lemma_rec_zero_trigger(data, m, k + 1, b as u32);
    }
}

/// The division-by-zero trigger: if the first `m` windows transform
/// successfully and the last of their output bytes is 0, and the input has a
/// window `m`, the whole transform fails exactly at window `m`, where the
/// divisor would be zero.
pub proof fn lemma_division_by_zero_trigger(data: Seq<u8>, m: int)
    requires
        1 <= m < window_count(data),
        8 * m <= data.len(),
        transform_spec(data.subrange(0, 8 * m)) is Ok,
        transform_spec(data.subrange(0, 8 * m))->Ok_0[m - 1] == 0,
    ensures
        transform_spec(data) == Err::<Seq<u8>, int>(m),
{
    let sub = data.subrange(0, 8 * m);
    lemma_sub_window_count(data, m);
    lemma_rec_len(sub, 0, 1);
    assert(transform_spec(sub)->Ok_0.last() == transform_spec(sub)->Ok_0[m - 1]);
    lemma_rec_zero_trigger(data, m, 0, 1);
}

/// Runs the chained transform over `data`, one output byte per complete
/// 8-byte window, and reports at which window the divisor became zero.
pub fn decrypt_data(data: &[u8]) -> (r: Result<Vec<u8>, TransformError>)
    ensures
        match r {
            Ok(out) => transform_spec(data@) matches Ok(s) && s == out@ && out@.len()
                == window_count(data@),
            Err(e) => e matches TransformError::DivisionByZero(i) && transform_spec(data@)
                matches Err(j) && j == i as int,
        },
{
    let n: usize = data.len() / 8;
    let mut out: Vec<u8> = Vec::new();
    let mut prev: u32 = 1;
    let mut kw: u32 = 0;
    let mut k: usize = 0;
    while k < n
        invariant
            n == window_count(data@),
            data@.len() <= usize::MAX,
            k <= n,
            prev < 0x100 || prev == 1,
            kw == index_word(k as int),
            out@.len() == k,
            match transform_rec(data@, k as int, prev) {
                Ok(rest) => transform_spec(data@) matches Ok(full) && full == out@ + rest,
                Err(j) => transform_spec(data@) matches Err(j2) && j2 == j,
            },
        decreases n - k,
    {
        proof {
            vstd::arithmetic::div_mod::lemma_fundamental_div_mod(data@.len() as int, 8);
            vstd::arithmetic::div_mod::lemma_mod_bound(data@.len() as int, 8);
            assert(8 * k + 8 <= data@.len());
        }
        if prev == 0 {
            return Err(TransformError::DivisionByZero(k));
        }
        let b0 = data[8 * k];
        let b1 = data[8 * k + 1];
        let b2 = data[8 * k + 2];
        let b3 = data[8 * k + 3];
        let b4 = data[8 * k + 4];
        let b5 = data[8 * k + 5];
        let b6 = data[8 * k + 6];
        let b7 = data[8 * k + 7];
        let value: u32 = (b0 as u32) + (b1 as u32) * 0x100 + (b2 as u32) * 0x10000 + (b3 as u32)
            * 0x1000000;
        let key: u32 = (b4 as u32) + (b5 as u32) * 0x100 + (b6 as u32) * 0x10000 + (b7 as u32)
            * 0x1000000;
        let mixed: u32 = value ^ key ^ kw;
        let divisor: u32 = 2 * prev;
        let q: u32 = mixed / divisor;
        let byte: u8 = (q % 0x100) as u8;
        proof {
            assert(value == value_word(data@, k as int));
            assert(key == key_word(data@, k as int));
            assert(mixed == mixed_word(data@, k as int));
            assert(byte == step_byte(data@, k as int, prev));
            let stepped = transform_rec(data@, k as int + 1, byte as u32);
            if stepped is Ok {
                let rest2 = stepped->Ok_0;
                assert(transform_rec(data@, k as int, prev) == Ok::<Seq<u8>, int>(
                    seq![byte] + rest2,
                ));
                assert(out@ + (seq![byte] + rest2) =~= (out@ + seq![byte]) + rest2);
            } else {
                assert(transform_rec(data@, k as int, prev) == stepped);
            }
            assert(out@.push(byte) =~= out@ + seq![byte]);
            vstd::arithmetic::div_mod::lemma_add_mod_noop(k as int, 1, 0x1_0000_0000);
            vstd::arithmetic::div_mod::lemma_small_mod(1nat, 0x1_0000_0000nat);
            vstd::arithmetic::div_mod::lemma_mod_bound(k as int, 0x1_0000_0000);
            if k as int % 0x1_0000_0000 + 1 == 0x1_0000_0000 {
                vstd::arithmetic::div_mod::lemma_mod_self_0(0x1_0000_0000);
            } else {
                vstd::arithmetic::div_mod::lemma_small_mod(
                    (k as int % 0x1_0000_0000 + 1) as nat,
                    0x1_0000_0000nat,
                );
            }
            assert(kw.wrapping_add(1u32) == index_word(k as int + 1));
        }
        out.push(byte);
        prev = byte as u32;
        kw = kw.wrapping_add(1);
        k = k + 1;
    }
    proof {
        assert(transform_rec(data@, n as int, prev) == Ok::<Seq<u8>, int>(Seq::empty()));
        assert(out@ + Seq::<u8>::empty() =~= out@);
    }
    Ok(out)
}

} // verus!
