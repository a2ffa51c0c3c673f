//! Bit-level facts behind the packed grids.
//!
//! A grid is a machine word in which every cell owns one bit. The lemmas here
//! say, bit by bit, what the word operations used by the grids do, so that the
//! grids can be reasoned about as sets of cells.

use vstd::prelude::*;

verus! {

/// Whether bit `i` of the 32-bit word `x` is set.
pub open spec fn bit32(x: u32, i: int) -> bool {
    0 <= i < 32 && x & (1u32 << (i as u32)) != 0
}

/// Whether bit `i` of the 64-bit word `x` is set.
pub open spec fn bit64(x: u64, i: int) -> bool {
    0 <= i < 64 && x & (1u64 << (i as u64)) != 0
}

/// The word with the `n` lowest bits set.
pub open spec fn low32(n: u32) -> u32 {
    if n >= 32 {
        0xffff_ffffu32
    } else {
        ((1u32 << n) - 1) as u32
    }
}

/// The word with the `n` lowest bits set.
pub open spec fn low64(n: u64) -> u64 {
    if n >= 64 {
        0xffff_ffff_ffff_ffffu64
    } else {
        ((1u64 << n) - 1) as u64
    }
}

/// What `|`, `&`, `& !` and `^` do to one bit, for the bit-vector solver.
proof fn lemma_ops32(a: u32, b: u32, i: u32)
    by (bit_vector)
    requires
        i < 32,
    ensures
        ((a | b) & (1u32 << i) != 0) == (a & (1u32 << i) != 0 || b & (1u32 << i) != 0),
        ((a & b) & (1u32 << i) != 0) == (a & (1u32 << i) != 0 && b & (1u32 << i) != 0),
        ((a & !b) & (1u32 << i) != 0) == (a & (1u32 << i) != 0 && !(b & (1u32 << i) != 0)),
        ((a ^ b) & (1u32 << i) != 0) == ((a & (1u32 << i) != 0) != (b & (1u32 << i) != 0)),
        0u32 & (1u32 << i) == 0,
{
}

/// What `|`, `&`, `& !` and `^` do to one bit, for the bit-vector solver.
proof fn lemma_ops64(a: u64, b: u64, i: u64)
    by (bit_vector)
    requires
        i < 64,
    ensures
        ((a | b) & (1u64 << i) != 0) == (a & (1u64 << i) != 0 || b & (1u64 << i) != 0),
        ((a & b) & (1u64 << i) != 0) == (a & (1u64 << i) != 0 && b & (1u64 << i) != 0),
        ((a & !b) & (1u64 << i) != 0) == (a & (1u64 << i) != 0 && !(b & (1u64 << i) != 0)),
        ((a ^ b) & (1u64 << i) != 0) == ((a & (1u64 << i) != 0) != (b & (1u64 << i) != 0)),
        0u64 & (1u64 << i) == 0,
{
}

/// Facts about whole words, for the bit-vector solver.
proof fn lemma_words32(a: u32, b: u32)
    by (bit_vector)
    ensures
        a ^ b == 0 ==> a == b,
        (a & b == b) == (b & !a == 0),
        a & low32(0) == 0,
        a & low32(32) == a,
{
}

/// Facts about whole words, for the bit-vector solver.
proof fn lemma_words64(a: u64, b: u64)
    by (bit_vector)
    ensures
        a ^ b == 0 ==> a == b,
        (a & b == b) == (b & !a == 0),
        a & low64(0) == 0,
        a & low64(64) == a,
{
}

/// A word that has one of its `n + 1` lowest bits set has bit `n` set, or one
/// of its `n` lowest bits.
proof fn lemma_low_step32(a: u32, n: u32)
    by (bit_vector)
    requires
        n < 32,
        a & low32((n + 1) as u32) != 0,
    ensures
        a & low32(n) != 0 || a & (1u32 << n) != 0,
{
}

/// A word that has one of its `n + 1` lowest bits set has bit `n` set, or one
/// of its `n` lowest bits.
proof fn lemma_low_step64(a: u64, n: u64)
    by (bit_vector)
    requires
        n < 64,
        a & low64((n + 1) as u64) != 0,
    ensures
        a & low64(n) != 0 || a & (1u64 << n) != 0,
{
}

/// A word that has one of its `n` lowest bits set has a bit set.
proof fn lemma_low_witness32(a: u32, n: u32)
    requires
        n <= 32,
        a & low32(n) != 0,
    ensures
        exists|i: int| bit32(a, i),
    decreases n,
{
    if n == 0 {
        lemma_words32(a, a);
    } else {
        let m = (n - 1) as u32;
        lemma_low_step32(a, m);
        if a & (1u32 << m) != 0 {
            assert(bit32(a, m as int));
        } else {
            lemma_low_witness32(a, m);
        }
    }
}

/// A word that has one of its `n` lowest bits set has a bit set.
proof fn lemma_low_witness64(a: u64, n: u64)
    requires
        n <= 64,
        a & low64(n) != 0,
    ensures
        exists|i: int| bit64(a, i),
    decreases n,
{
    if n == 0 {
        lemma_words64(a, a);
    } else {
        let m = (n - 1) as u64;
        lemma_low_step64(a, m);
        if a & (1u64 << m) != 0 {
            assert(bit64(a, m as int));
        } else {
            lemma_low_witness64(a, m);
        }
    }
}

/// Bit by bit, what `|`, `&`, `& !` and `^` do.
pub proof fn lemma_bitwise32(a: u32, b: u32)
    ensures
        forall|i: int| #[trigger] bit32(a | b, i) == (bit32(a, i) || bit32(b, i)),
        forall|i: int| #[trigger] bit32(a & b, i) == (bit32(a, i) && bit32(b, i)),
        forall|i: int| #[trigger] bit32(a & !b, i) == (bit32(a, i) && !bit32(b, i)),
        forall|i: int| #[trigger] bit32(a ^ b, i) == (bit32(a, i) != bit32(b, i)),
        forall|i: int| !#[trigger] bit32(0, i),
{
    assert forall|i: int| #[trigger] bit32(a | b, i) == (bit32(a, i) || bit32(b, i)) by {
        if 0 <= i < 32 {
            lemma_ops32(a, b, i as u32);
        }
    }
    assert forall|i: int| #[trigger] bit32(a & b, i) == (bit32(a, i) && bit32(b, i)) by {
        if 0 <= i < 32 {
            lemma_ops32(a, b, i as u32);
        }
    }
    assert forall|i: int| #[trigger] bit32(a & !b, i) == (bit32(a, i) && !bit32(b, i)) by {
        if 0 <= i < 32 {
            lemma_ops32(a, b, i as u32);
        }
    }
    assert forall|i: int| #[trigger] bit32(a ^ b, i) == (bit32(a, i) != bit32(b, i)) by {
        if 0 <= i < 32 {
            lemma_ops32(a, b, i as u32);
        }
    }
    assert forall|i: int| !#[trigger] bit32(0, i) by {
        if 0 <= i < 32 {
            lemma_ops32(a, b, i as u32);
        }
    }
}

/// Bit by bit, what `|`, `&`, `& !` and `^` do.
pub proof fn lemma_bitwise64(a: u64, b: u64)
    ensures
        forall|i: int| #[trigger] bit64(a | b, i) == (bit64(a, i) || bit64(b, i)),
        forall|i: int| #[trigger] bit64(a & b, i) == (bit64(a, i) && bit64(b, i)),
        forall|i: int| #[trigger] bit64(a & !b, i) == (bit64(a, i) && !bit64(b, i)),
        forall|i: int| #[trigger] bit64(a ^ b, i) == (bit64(a, i) != bit64(b, i)),
        forall|i: int| !#[trigger] bit64(0, i),
{
    assert forall|i: int| #[trigger] bit64(a | b, i) == (bit64(a, i) || bit64(b, i)) by {
        if 0 <= i < 64 {
            lemma_ops64(a, b, i as u64);
        }
    }
    assert forall|i: int| #[trigger] bit64(a & b, i) == (bit64(a, i) && bit64(b, i)) by {
        if 0 <= i < 64 {
            lemma_ops64(a, b, i as u64);
        }
    }
    assert forall|i: int| #[trigger] bit64(a & !b, i) == (bit64(a, i) && !bit64(b, i)) by {
        if 0 <= i < 64 {
            lemma_ops64(a, b, i as u64);
        }
    }
    assert forall|i: int| #[trigger] bit64(a ^ b, i) == (bit64(a, i) != bit64(b, i)) by {
        if 0 <= i < 64 {
            lemma_ops64(a, b, i as u64);
        }
    }
    assert forall|i: int| !#[trigger] bit64(0, i) by {
        if 0 <= i < 64 {
            lemma_ops64(a, b, i as u64);
        }
    }
}

/// A word is zero exactly when none of its bits is set.
pub proof fn lemma_zero32(a: u32)
    ensures
        a == 0 <==> forall|i: int| !bit32(a, i),
{
    if a != 0 {
        lemma_words32(a, a);
        lemma_low_witness32(a, 32);
    } else {
        lemma_bitwise32(a, a);
    }
}

/// A word is zero exactly when none of its bits is set.
pub proof fn lemma_zero64(a: u64)
    ensures
        a == 0 <==> forall|i: int| !bit64(a, i),
{
    if a != 0 {
        lemma_words64(a, a);
        lemma_low_witness64(a, 64);
    } else {
        lemma_bitwise64(a, a);
    }
}

/// Two words with the same bits are the same word.
pub proof fn lemma_same32(a: u32, b: u32)
    requires
        forall|i: int| bit32(a, i) == bit32(b, i),
    ensures
        a == b,
{
    lemma_bitwise32(a, b);
    lemma_zero32(a ^ b);
    lemma_words32(a, b);
}

/// Two words with the same bits are the same word.
pub proof fn lemma_same64(a: u64, b: u64)
    requires
        forall|i: int| bit64(a, i) == bit64(b, i),
    ensures
        a == b,
{
    lemma_bitwise64(a, b);
    lemma_zero64(a ^ b);
    lemma_words64(a, b);
}

/// `a & b == b` says that every bit of `b` is a bit of `a`.
pub proof fn lemma_covers32(a: u32, b: u32)
    ensures
        (a & b == b) <==> forall|i: int| bit32(b, i) ==> bit32(a, i),
{
    lemma_bitwise32(b, a);
    lemma_zero32(b & !a);
    lemma_words32(a, b);
    if a & b == b {
        assert forall|i: int| bit32(b, i) implies bit32(a, i) by {
            assert(!bit32(b & !a, i));
        }
    } else {
        let i = choose|i: int| bit32(b & !a, i);
        assert(bit32(b, i) && !bit32(a, i));
    }
}

/// `a & b == b` says that every bit of `b` is a bit of `a`.
pub proof fn lemma_covers64(a: u64, b: u64)
    ensures
        (a & b == b) <==> forall|i: int| bit64(b, i) ==> bit64(a, i),
{
    lemma_bitwise64(b, a);
    lemma_zero64(b & !a);
    lemma_words64(a, b);
    if a & b == b {
        assert forall|i: int| bit64(b, i) implies bit64(a, i) by {
            assert(!bit64(b & !a, i));
        }
    } else {
        let i = choose|i: int| bit64(b & !a, i);
        assert(bit64(b, i) && !bit64(a, i));
    }
}

/// `a & b != 0` says that `a` and `b` share a bit.
pub proof fn lemma_meets32(a: u32, b: u32)
    ensures
        (a & b != 0) <==> exists|i: int| bit32(a, i) && bit32(b, i),
{
    lemma_bitwise32(a, b);
    lemma_zero32(a & b);
    if a & b != 0 {
        let i = choose|i: int| bit32(a & b, i);
        assert(bit32(a, i) && bit32(b, i));
    } else {
        assert forall|i: int| !(bit32(a, i) && bit32(b, i)) by {
            assert(!bit32(a & b, i));
        }
    }
}

/// `a & b != 0` says that `a` and `b` share a bit.
pub proof fn lemma_meets64(a: u64, b: u64)
    ensures
        (a & b != 0) <==> exists|i: int| bit64(a, i) && bit64(b, i),
{
    lemma_bitwise64(a, b);
    lemma_zero64(a & b);
    if a & b != 0 {
        let i = choose|i: int| bit64(a & b, i);
        assert(bit64(a, i) && bit64(b, i));
    } else {
        assert forall|i: int| !(bit64(a, i) && bit64(b, i)) by {
            assert(!bit64(a & b, i));
        }
    }
}

/// The bits of `1 << j`, for the bit-vector solver.
proof fn lemma_single32(j: u32, i: u32)
    by (bit_vector)
    requires
        i < 32,
        j < 32,
    ensures
        ((1u32 << j) & (1u32 << i) != 0) == (i == j),
{
}

/// The bits of `1 << j`, for the bit-vector solver.
proof fn lemma_single64(j: u64, i: u64)
    by (bit_vector)
    requires
        i < 64,
        j < 64,
    ensures
        ((1u64 << j) & (1u64 << i) != 0) == (i == j),
{
}

/// The word `1 << j` has bit `j` set and no other.
pub proof fn lemma_one_bit32(j: int)
    requires
        0 <= j < 32,
    ensures
        forall|i: int| #[trigger] bit32(1u32 << (j as u32), i) == (i == j),
{
    assert forall|i: int| #[trigger] bit32(1u32 << (j as u32), i) == (i == j) by {
        if 0 <= i < 32 {
            lemma_single32(j as u32, i as u32);
        }
    }
}

/// The word `1 << j` has bit `j` set and no other.
pub proof fn lemma_one_bit64(j: int)
    requires
        0 <= j < 64,
    ensures
        forall|i: int| #[trigger] bit64(1u64 << (j as u64), i) == (i == j),
{
    assert forall|i: int| #[trigger] bit64(1u64 << (j as u64), i) == (i == j) by {
        if 0 <= i < 64 {
            lemma_single64(j as u64, i as u64);
        }
    }
}

/// The bits of row `row` of a five by five grid.
pub open spec fn row_mask(row: u32) -> u32 {
    if row == 0 {
        0x0000_001f
    } else if row == 1 {
        0x0000_03e0
    } else if row == 2 {
        0x0000_7c00
    } else if row == 3 {
        0x000f_8000
    } else {
        0x01f0_0000
    }
}

/// The bits of the rows below row `row` of a five by five grid.
pub open spec fn rows_below_mask(row: u32) -> u32 {
    if row == 0 {
        0
    } else if row == 1 {
        row_mask(0)
    } else if row == 2 {
        row_mask(0) | row_mask(1)
    } else if row == 3 {
        row_mask(0) | row_mask(1) | row_mask(2)
    } else {
        row_mask(0) | row_mask(1) | row_mask(2) | row_mask(3)
    }
}

/// The bits of the rows above row `row` of a five by five grid.
pub open spec fn rows_above_mask(row: u32) -> u32 {
    if row == 0 {
        row_mask(4) | row_mask(3) | row_mask(2) | row_mask(1)
    } else if row == 1 {
        row_mask(4) | row_mask(3) | row_mask(2)
    } else if row == 2 {
        row_mask(4) | row_mask(3)
    } else if row == 3 {
        row_mask(4)
    } else {
        0
    }
}

/// The word `x` without row `row`, the rows above it moved down by one.
pub open spec fn without_row(x: u32, row: u32) -> u32 {
    ((x & rows_above_mask(row)) >> 5) | (x & rows_below_mask(row))
}

/// The bits of a row mask, and of a word without a row, for the bit-vector
/// solver.
proof fn lemma_rows(x: u32, row: u32, i: u32)
    by (bit_vector)
    requires
        row < 5,
        i < 32,
    ensures
        (row_mask(row) & (1u32 << i) != 0) == (5 * row <= i && i < 5 * row + 5),
        (without_row(x, row) & (1u32 << i) != 0) == (if i < 5 * row {
            x & (1u32 << i) != 0
        } else if i < 20 {
            x & (1u32 << ((i + 5) as u32)) != 0
        } else {
            false
        }),
{
}

/// The bits of a row mask are those of the five cells of its row.
pub proof fn lemma_row_mask_bits(row: int)
    requires
        0 <= row < 5,
    ensures
        forall|i: int| #[trigger] bit32(row_mask(row as u32), i) == (5 * row <= i < 5 * row + 5),
{
    assert forall|i: int| #[trigger]
        bit32(row_mask(row as u32), i) == (5 * row <= i < 5 * row + 5) by {
        if 0 <= i < 32 {
            lemma_rows(0, row as u32, i as u32);
        }
    }
}

/// Bit by bit, what discarding a row and moving the rows above it down does.
pub proof fn lemma_without_row_bits(x: u32, row: int)
    requires
        0 <= row < 5,
    ensures
        forall|i: int| #[trigger]
            bit32(without_row(x, row as u32), i) == (if i < 5 * row {
                bit32(x, i)
            } else {
                i < 20 && bit32(x, i + 5)
            }),
{
    assert forall|i: int| #[trigger]
        bit32(without_row(x, row as u32), i) == (if i < 5 * row {
            bit32(x, i)
        } else {
            i < 20 && bit32(x, i + 5)
        }) by {
        if 0 <= i < 32 {
            lemma_rows(x, row as u32, i as u32);
        }
    }
}

/// The bits of the rim of a seven by seven grid.
pub open spec fn rim_mask() -> u64 {
    0x00ff_ffff_0000_0000
}

/// The bits of the rim mask, and of a word that is cut to or widened from its
/// low half, for the bit-vector solver.
proof fn lemma_halves(x: u64, g: u32, i: u64)
    by (bit_vector)
    requires
        i < 64,
    ensures
        (rim_mask() & (1u64 << i) != 0) == (32 <= i && i < 56),
        i < 32 ==> (((x & 0xffff_ffff) as u32) & (1u32 << (i as u32)) != 0) == (x & (1u64 << i)
            != 0),
        i < 32 ==> ((g as u64) & (1u64 << i) != 0) == (g & (1u32 << (i as u32)) != 0),
        i >= 32 ==> (g as u64) & (1u64 << i) == 0,
        x & 0xffff_ffff <= 0xffff_ffff,
{
}

/// The bits of the rim mask are the bits 32 to 55.
pub proof fn lemma_rim_mask_bits()
    ensures
        forall|i: int| #[trigger] bit64(rim_mask(), i) == (32 <= i < 56),
{
    assert forall|i: int| #[trigger] bit64(rim_mask(), i) == (32 <= i < 56) by {
        if 0 <= i < 64 {
            lemma_halves(0, 0, i as u64);
        }
    }
}

/// The low half of a 64-bit word, taken as a 32-bit word, keeps its bits.
pub proof fn lemma_low_half_bits(x: u64)
    ensures
        x & 0xffff_ffff <= u32::MAX,
        forall|i: int| #[trigger] bit32((x & 0xffff_ffff) as u32, i) == (i < 32 && bit64(x, i)),
{
    lemma_halves(x, 0, 0);
    assert forall|i: int| #[trigger]
        bit32((x & 0xffff_ffff) as u32, i) == (i < 32 && bit64(x, i)) by {
        if 0 <= i < 32 {
            lemma_halves(x, 0, i as u64);
        }
    }
}

/// A 32-bit word, taken as a 64-bit word, keeps its bits.
pub proof fn lemma_widened_bits(g: u32)
    ensures
        forall|i: int| #[trigger] bit64(g as u64, i) == bit32(g, i),
{
    assert forall|i: int| #[trigger] bit64(g as u64, i) == bit32(g, i) by {
        if 0 <= i < 64 {
            lemma_halves(0, g, i as u64);
        }
    }
}

} // verus!
