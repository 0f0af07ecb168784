//! Texture readback layout: a texture-to-buffer copy pads every row to a fixed
//! alignment, so the mapped buffer must have the padding stripped back out row by row.
//! Getting it wrong silently skews any image whose width is not a multiple of 64
//! pixels.

use vstd::prelude::*;

verus! {

/// Row alignment a texture-to-buffer copy requires (bytes).
pub const COPY_BYTES_PER_ROW_ALIGNMENT: u32 = 256;

/// Tightly packed RGBA8 bytes per row of a `width`-pixel image.
pub open spec fn unpadded_row(width: u32) -> int {
    width * 4
}

/// `unpadded` rounded up to the copy alignment.
pub open spec fn padded_row(unpadded: int) -> int {
    ((unpadded + 255) / 256) * 256
}

/// Bytes per row of the tightly packed image and of the aligned copy buffer, for a
/// `width`-pixel RGBA8 row.
pub fn row_strides(width: u32) -> (strides: (u32, u32))
    requires
        width * 4 + 255 <= u32::MAX,
    ensures
        strides.0 == unpadded_row(width),
        strides.1 == padded_row(unpadded_row(width)),
        strides.1 % 256 == 0,
        strides.0 <= strides.1 < strides.0 + 256,
{
    let unpadded_bytes_per_row = width * 4;
    let align = COPY_BYTES_PER_ROW_ALIGNMENT;
    let padded_bytes_per_row = ((unpadded_bytes_per_row + (align - 1)) / align) * align;
    (unpadded_bytes_per_row, padded_bytes_per_row)
}

/// The rows of `mapped` from byte `start` on, each `padded` bytes apart, keeping the
/// first `unpadded` bytes of each.
pub open spec fn unpad_from(mapped: Seq<u8>, padded: int, unpadded: int, start: int) -> Seq<u8>
    decreases (if start >= mapped.len() { 0 } else { mapped.len() - start }),
{
    if padded <= 0 || start < 0 || start >= mapped.len() {
        Seq::empty()
    } else {
        mapped.subrange(start, start + unpadded) + unpad_from(mapped, padded, unpadded, start + padded)
    }
}

/// Every row chunk of `mapped` (the last one possibly short) holds at least the
/// `unpadded` bytes that are kept from it.
pub open spec fn rows_hold_pixels(len: int, padded: int, unpadded: int) -> bool {
    &&& 0 < padded
    &&& unpadded <= padded
    &&& (len % padded == 0 || len % padded >= unpadded)
}

/// Strip the per-row padding out of a mapped copy buffer: every `padded`-byte row
/// chunk keeps its first `unpadded` bytes.
pub fn unpad_rows(mapped: &[u8], padded_bytes_per_row: u32, unpadded_bytes_per_row: u32) -> (pixels: Vec<u8>)
    requires
        rows_hold_pixels(mapped@.len() as int, padded_bytes_per_row as int, unpadded_bytes_per_row as int),
    ensures
        pixels@ == unpad_from(mapped@, padded_bytes_per_row as int, unpadded_bytes_per_row as int, 0),
{
    let len = mapped.len();
    let padded = padded_bytes_per_row as usize;
    let unpadded = unpadded_bytes_per_row as usize;
    let ghost m = mapped@;
    let mut pixels: Vec<u8> = Vec::new();
    let mut start: usize = 0;
    while start < len
        invariant
            len == m.len(),
            m == mapped@,
            rows_hold_pixels(len as int, padded as int, unpadded as int),
            start <= len,
            start < len ==> start % padded == 0,
            pixels@ + unpad_from(m, padded as int, unpadded as int, start as int) == unpad_from(
                m,
                padded as int,
                unpadded as int,
                0,
            ),
        decreases len - start,
    {
        proof {
            lemma_row_fits(len as int, padded as int, unpadded as int, start as int);
        }
        let ghost before = pixels@;
        let row = vstd::slice::slice_subrange(mapped, start, start + unpadded);
        pixels.extend_from_slice(row);
        proof {
            assert(pixels@ =~= before + m.subrange(start as int, start + unpadded));
        }
        if len - start <= padded {
            proof {
                assert(unpad_from(m, padded as int, unpadded as int, start + padded) =~= Seq::<u8>::empty());
                assert(pixels@ =~= unpad_from(m, padded as int, unpadded as int, 0));
                assert(unpad_from(m, padded as int, unpadded as int, len as int) =~= Seq::<u8>::empty());
            }
            start = len;
        } else {
            start = start + padded;
            proof {
                vstd::arithmetic::div_mod::lemma_mod_add_multiples_vanish((start - padded) as int, padded as int);
                assert(pixels@ + unpad_from(m, padded as int, unpadded as int, start as int)
                    =~= before + unpad_from(m, padded as int, unpadded as int, start - padded));
            }
        }
    }
    proof {
        assert(pixels@ + Seq::<u8>::empty() =~= pixels@);
    }
    pixels
}

/// For a buffer of `height` rows of `padded` bytes, the unpadded image has
/// `unpadded * height` bytes and pixel byte `j` of row `r` is byte `j` of padded row `r`:
/// stripping the padding never shifts a row.
pub proof fn lemma_unpad_layout(mapped: Seq<u8>, padded: int, unpadded: int, height: int)
    requires
        0 < padded,
        0 <= unpadded <= padded,
        0 <= height,
        mapped.len() == padded * height,
    ensures
        unpad_from(mapped, padded, unpadded, 0).len() == unpadded * height,
        forall|r: int, j: int|
            0 <= r < height && 0 <= j < unpadded ==> #[trigger] unpad_from(mapped, padded, unpadded, 0)[r * unpadded + j]
                == mapped[r * padded + j],
{
    lemma_unpad_layout_from(mapped, padded, unpadded, height, 0);
    assert(0 * padded == 0);
    assert forall|r: int, j: int| 0 <= r < height && 0 <= j < unpadded implies #[trigger] unpad_from(
        mapped,
        padded,
        unpadded,
        0,
    )[r * unpadded + j] == mapped[r * padded + j] by {
        assert((r - 0) * unpadded + j == r * unpadded + j);
    }
}

proof fn lemma_unpad_layout_from(mapped: Seq<u8>, padded: int, unpadded: int, height: int, k: int)
    requires
        0 < padded,
        0 <= unpadded <= padded,
        0 <= k <= height,
        mapped.len() == padded * height,
    ensures
        unpad_from(mapped, padded, unpadded, k * padded).len() == unpadded * (height - k),
        forall|r: int, j: int|
            k <= r < height && 0 <= j < unpadded ==> #[trigger] unpad_from(mapped, padded, unpadded, k * padded)[(r - k)
                * unpadded + j] == mapped[r * padded + j],
    decreases height - k,
{
    let start = k * padded;
    assert(k * padded <= height * padded) by (nonlinear_arith)
        requires
            0 <= k <= height,
            0 < padded,
    ;
    if k == height {
        assert(unpadded * (height - k) == 0);
    } else {
        assert(start + padded <= mapped.len()) by (nonlinear_arith)
            requires
                start == k * padded,
                0 <= k < height,
                0 < padded,
                mapped.len() == padded * height,
        ;
        assert((k + 1) * padded == start + padded) by (nonlinear_arith)
            requires
                start == k * padded,
        ;
        lemma_unpad_layout_from(mapped, padded, unpadded, height, k + 1);
        let rest = unpad_from(mapped, padded, unpadded, (k + 1) * padded);
        let row = mapped.subrange(start, start + unpadded);
        let whole = unpad_from(mapped, padded, unpadded, start);
        assert(whole == row + rest);
        assert(unpadded * (height - k) == unpadded + unpadded * (height - (k + 1))) by (nonlinear_arith);
        assert forall|r: int, j: int| k <= r < height && 0 <= j < unpadded implies #[trigger] whole[(r - k)
            * unpadded + j] == mapped[r * padded + j] by {
            if r == k {
                assert((r - k) * unpadded + j == j) by (nonlinear_arith)
                    requires
                        r == k,
                ;
                assert(whole[j] == row[j]);
                assert(r * padded + j == start + j);
            } else {
                let idx = (r - (k + 1)) * unpadded + j;
                assert((r - k) * unpadded + j == unpadded + idx) by (nonlinear_arith)
                    requires
                        idx == (r - (k + 1)) * unpadded + j,
                ;
                assert(0 <= idx < unpadded * (height - (k + 1))) by (nonlinear_arith)
                    requires
                        idx == (r - (k + 1)) * unpadded + j,
                        k + 1 <= r < height,
                        0 <= j < unpadded,
                ;
                assert(rest[idx] == mapped[r * padded + j]);
                assert(whole[unpadded + idx] == rest[idx]);
            }
        }
    }
}

/// A row starting on a chunk boundary inside the buffer holds `unpadded` bytes.
proof fn lemma_row_fits(len: int, padded: int, unpadded: int, start: int)
    requires
        rows_hold_pixels(len, padded, unpadded),
        0 <= start < len,
        start % padded == 0,
    ensures
        start + unpadded <= len,
{
    assert(start + unpadded <= len) by (nonlinear_arith)
        requires
            0 < padded,
            unpadded <= padded,
            len % padded == 0 || len % padded >= unpadded,
            0 <= start < len,
            start % padded == 0,
    {
        vstd::arithmetic::div_mod::lemma_fundamental_div_mod(len, padded);
        vstd::arithmetic::div_mod::lemma_fundamental_div_mod(start, padded);
    }
}

} // verus!
