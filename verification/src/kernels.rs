//! The hash kernels on grayscale images: which bits a hash holds.
//!
//! Bits come row by row from the top, each row from the left. Where a mean
//! is compared, it is the exact mean: a value is at least the mean of `n`
//! values when `n` times the value is at least their sum.

use vstd::prelude::*;
use vstd::arithmetic::div_mod::lemma_fundamental_div_mod;
use crate::pixels::GrayImage;

verus! {

/// One less than `n`, and zero for zero.
pub open spec fn less_one(n: nat) -> nat {
    if n == 0 {
        0
    } else {
        (n - 1) as nat
    }
}

/// The sum of the samples.
pub open spec fn total(px: Seq<u8>) -> nat
    decreases px.len(),
{
    if px.len() == 0 {
        0
    } else {
        total(px.drop_last()) + px.last() as nat
    }
}

/// Mean hash: one bit for each pixel, set when the pixel is at least the
/// mean of all pixels.
pub open spec fn mean_spec(px: Seq<u8>) -> Seq<bool> {
    Seq::new(px.len(), |i: int| px[i] * px.len() >= total(px))
}

/// The gradient bits of row `r` of an image `w` pixels wide: one for each
/// pair of neighbours, set when the left one is less than the right one.
pub open spec fn row_gradient(px: Seq<u8>, w: nat, r: nat) -> Seq<bool> {
    Seq::new(less_one(w), |c: int| px[r * w + c] < px[r * w + c + 1])
}

/// The gradient bits of the first `rows` rows, row after row.
pub open spec fn rows_gradient(px: Seq<u8>, w: nat, rows: nat) -> Seq<bool>
    decreases rows,
{
    if rows == 0 {
        Seq::empty()
    } else {
        rows_gradient(px, w, (rows - 1) as nat) + row_gradient(px, w, (rows - 1) as nat)
    }
}

/// The gradient bits of column `c` of an image `w` pixels wide and `h`
/// high: one for each pair of neighbours, set when the upper one is less
/// than the lower one.
pub open spec fn col_gradient(px: Seq<u8>, w: nat, h: nat, c: nat) -> Seq<bool> {
    Seq::new(less_one(h), |r: int| px[r * w + c] < px[(r + 1) * w + c])
}

/// The gradient bits of the first `cols` columns, column after column.
pub open spec fn cols_gradient(px: Seq<u8>, w: nat, h: nat, cols: nat) -> Seq<bool>
    decreases cols,
{
    if cols == 0 {
        Seq::empty()
    } else {
        cols_gradient(px, w, h, (cols - 1) as nat) + col_gradient(px, w, h, (cols - 1) as nat)
    }
}

/// Gradient hash of an image `w` wide and `h` high.
pub open spec fn gradient_spec(px: Seq<u8>, w: nat, h: nat) -> Seq<bool> {
    rows_gradient(px, w, h)
}

/// Double-gradient hash: the pass over the rows, then the pass over the
/// columns.
pub open spec fn double_gradient_spec(px: Seq<u8>, w: nat, h: nat) -> Seq<bool> {
    rows_gradient(px, w, h) + cols_gradient(px, w, h, w)
}

/// The row pass gives `w - 1` bits for each row.
pub proof fn lemma_rows_len(px: Seq<u8>, w: nat, rows: nat)
    ensures
        rows_gradient(px, w, rows).len() == rows * less_one(w),
    decreases rows,
{
    if rows > 0 {
        lemma_rows_len(px, w, (rows - 1) as nat);
        assert((rows - 1) * less_one(w) + less_one(w) == rows * less_one(w))
            by (nonlinear_arith)
            requires
                rows > 0,
        ;
    } else {
        assert(0 * less_one(w) == 0) by (nonlinear_arith);
    }
}

/// The column pass gives `h - 1` bits for each column.
pub proof fn lemma_cols_len(px: Seq<u8>, w: nat, h: nat, cols: nat)
    ensures
        cols_gradient(px, w, h, cols).len() == cols * less_one(h),
    decreases cols,
{
    if cols > 0 {
        lemma_cols_len(px, w, h, (cols - 1) as nat);
        assert((cols - 1) * less_one(h) + less_one(h) == cols * less_one(h))
            by (nonlinear_arith)
            requires
                cols > 0,
        ;
    } else {
        assert(0 * less_one(h) == 0) by (nonlinear_arith);
    }
}

/// Pixel `(r, c)` of an image `w` wide and `h` high lies inside its buffer.
pub proof fn lemma_pixel_index(r: nat, c: nat, w: nat, h: nat)
    requires
        r < h,
        c < w,
    ensures
        r * w + c < w * h,
        r * w <= w * h,
{
    assert(r * w + c < w * h && r * w <= w * h) by (nonlinear_arith)
        requires
            r < h,
            c < w,
    ;
}

/// The sum of the samples of an image.
fn sum_of(px: &Vec<u8>) -> (sum: u128)
    ensures
        sum == total(px@),
        sum <= 255 * px@.len(),
{
    let n: usize = px.len();
    let mut sum: u128 = 0;
    let mut i: usize = 0;
    while i < n
        invariant
            i <= n,
            n == px@.len(),
            sum == total(px@.take(i as int)),
            sum <= 255 * i,
        decreases n - i,
    {
        proof {
            assert(px@.take(i + 1).drop_last() =~= px@.take(i as int));
        }
        sum = sum + px[i] as u128;
        i = i + 1;
    }
    proof {
        assert(px@.take(n as int) =~= px@);
    }
    sum
}

/// Mean hash of `gray`: one bit for each pixel, set when the pixel is at
/// least the mean of all pixels.
pub fn mean_bits(gray: &GrayImage) -> (bits: Vec<bool>)
    ensures
        bits@ == mean_spec(gray@),
        bits@.len() == gray.spec_width() * gray.spec_height(),
{
    let px: &Vec<u8> = gray.pixels();
    let n: usize = px.len();
    let sum: u128 = sum_of(px);
    let mut bits: Vec<bool> = Vec::new();
    let mut i: usize = 0;
    while i < n
        invariant
            i <= n,
            n == px@.len(),
            sum == total(px@),
            bits@.len() == i,
            forall|j: int| 0 <= j < i ==> bits@[j] == (px@[j] * px@.len() >= total(px@)),
        decreases n - i,
    {
        proof {
            assert((px@[i as int] as u128) * (n as u128) <= 255 * 0xffff_ffff_ffff_ffff)
                by (nonlinear_arith)
                requires
                    px@[i as int] <= 255,
                    n <= 0xffff_ffff_ffff_ffff,
            ;
        }
        bits.push((px[i] as u128) * (n as u128) >= sum);
        i = i + 1;
    }
    proof {
        assert(bits@ =~= mean_spec(px@));
    }
    bits
}

/// Appends the row pass of `gray` to `bits`.
fn push_rows(gray: &GrayImage, bits: &mut Vec<bool>)
    ensures
        final(bits)@ == old(bits)@ + rows_gradient(gray@, gray.spec_width(), gray.spec_height()),
{
    let px: &Vec<u8> = gray.pixels();
    let w: usize = gray.width();
    let h: usize = gray.height();
    let ghost start = bits@;
    let n: usize = px.len();
    let mut r: usize = 0;
    while r < h
        invariant
            r <= h,
            n == w * h,
            px@.len() == w * h,
            bits@ == start + rows_gradient(px@, w as nat, r as nat),
        decreases h - r,
    {
        let ghost row = row_gradient(px@, w as nat, r as nat);
        let ghost done = bits@;
        if w > 0 {
            proof {
                lemma_pixel_index(r as nat, 0, w as nat, h as nat);
            }
            let base: usize = r * w;
            let mut c: usize = 0;
            while c + 1 < w
                invariant
                    c < w,
                    r < h,
                    base == r * w,
                    n == w * h,
                    px@.len() == w * h,
                    row == row_gradient(px@, w as nat, r as nat),
                    bits@ == done + row.take(c as int),
                decreases w - c,
            {
                proof {
                    lemma_pixel_index(r as nat, (c + 1) as nat, w as nat, h as nat);
                    assert(row.take(c + 1) =~= row.take(c as int).push(row[c as int]));
                }
                bits.push(px[base + c] < px[base + c + 1]);
                proof {
                    assert(bits@ =~= done + row.take(c + 1));
                }
                c = c + 1;
            }
            proof {
                assert(row.take(c as int) =~= row);
            }
        } else {
            proof {
                assert(row =~= Seq::empty());
                assert(row.take(0) =~= row);
            }
        }
        proof {
            assert(bits@ =~= start + rows_gradient(px@, w as nat, (r + 1) as nat));
        }
        r = r + 1;
    }
}

/// Appends the column pass of `gray` to `bits`.
fn push_cols(gray: &GrayImage, bits: &mut Vec<bool>)
    ensures
        final(bits)@ == old(bits)@ + cols_gradient(
            gray@,
            gray.spec_width(),
            gray.spec_height(),
            gray.spec_width(),
        ),
{
    let px: &Vec<u8> = gray.pixels();
    let w: usize = gray.width();
    let h: usize = gray.height();
    let ghost start = bits@;
    let n: usize = px.len();
    let mut c: usize = 0;
    while c < w
        invariant
            c <= w,
            n == w * h,
            px@.len() == w * h,
            bits@ == start + cols_gradient(px@, w as nat, h as nat, c as nat),
        decreases w - c,
    {
        let ghost col = col_gradient(px@, w as nat, h as nat, c as nat);
        let ghost done = bits@;
        if h > 0 {
            let mut r: usize = 0;
            let mut at: usize = c;
            while r + 1 < h
                invariant
                    r < h,
                    c < w,
                    at == r * w + c,
                    n == w * h,
                    px@.len() == w * h,
                    col == col_gradient(px@, w as nat, h as nat, c as nat),
                    bits@ == done + col.take(r as int),
                decreases h - r,
            {
                proof {
                    lemma_pixel_index(r as nat, c as nat, w as nat, h as nat);
                    lemma_pixel_index((r + 1) as nat, c as nat, w as nat, h as nat);
                    assert((r + 1) * w + c == r * w + c + w) by (nonlinear_arith);
                    assert(col.take(r + 1) =~= col.take(r as int).push(col[r as int]));
                }
                bits.push(px[at] < px[at + w]);
                proof {
                    assert(bits@ =~= done + col.take(r + 1));
                }
                at = at + w;
                r = r + 1;
            }
            proof {
                assert(col.take(r as int) =~= col);
            }
        } else {
            proof {
                assert(col =~= Seq::empty());
                assert(col.take(0) =~= col);
            }
        }
        proof {
            assert(bits@ =~= start + cols_gradient(px@, w as nat, h as nat, (c + 1) as nat));
        }
        c = c + 1;
    }
}

/// Gradient hash of `gray`: for each row, one bit for each pair of
/// neighbours, set when the left pixel is less than the right one.
pub fn gradient_bits(gray: &GrayImage) -> (bits: Vec<bool>)
    ensures
        bits@ == gradient_spec(gray@, gray.spec_width(), gray.spec_height()),
        bits@.len() == gray.spec_height() * less_one(gray.spec_width()),
{
    let mut bits: Vec<bool> = Vec::new();
    push_rows(gray, &mut bits);
    proof {
        lemma_rows_len(gray@, gray.spec_width(), gray.spec_height());
        assert(bits@ =~= gradient_spec(gray@, gray.spec_width(), gray.spec_height()));
    }
    bits
}

/// Double-gradient hash of `gray`: the gradient bits of the rows, then for
/// each column one bit for each pair of neighbours, set when the upper
/// pixel is less than the lower one.
pub fn double_gradient_bits(gray: &GrayImage) -> (bits: Vec<bool>)
    ensures
        bits@ == double_gradient_spec(gray@, gray.spec_width(), gray.spec_height()),
        bits@.len() == gray.spec_height() * less_one(gray.spec_width()) + gray.spec_width() * less_one(gray.spec_height()),
{
    let mut bits: Vec<bool> = Vec::new();
    push_rows(gray, &mut bits);
    push_cols(gray, &mut bits);
    proof {
        lemma_rows_len(gray@, gray.spec_width(), gray.spec_height());
        lemma_cols_len(gray@, gray.spec_width(), gray.spec_height(), gray.spec_width());
        assert(bits@ =~= double_gradient_spec(gray@, gray.spec_width(), gray.spec_height()));
    }
    bits
}

/// The sum of `len` samples from position `start`.
pub open spec fn run_sum(px: Seq<u8>, start: int, len: nat) -> nat
    decreases len,
{
    if len == 0 {
        0
    } else {
        run_sum(px, start, (len - 1) as nat) + px[start + len - 1] as nat
    }
}

/// The sum of the first `rows` rows of block `(by, bx)`, where blocks are
/// `bw` wide and `bh` high in an image `w` wide.
pub open spec fn block_sum(px: Seq<u8>, w: nat, bw: nat, bh: nat, by: nat, bx: nat, rows: nat) -> nat
    decreases rows,
{
    if rows == 0 {
        0
    } else {
        block_sum(px, w, bw, bh, by, bx, (rows - 1) as nat) + run_sum(
            px,
            (by * bh + rows - 1) * w + bx * bw,
            bw,
        )
    }
}

/// The sum of the first `count` blocks, counted row by row with `n` blocks
/// in a row.
pub open spec fn blocks_sum(px: Seq<u8>, w: nat, bw: nat, bh: nat, n: nat, count: nat) -> nat
    decreases count,
{
    if count == 0 {
        0
    } else {
        blocks_sum(px, w, bw, bh, n, (count - 1) as nat) + block_sum(
            px,
            w,
            bw,
            bh,
            ((count - 1) / n as int) as nat,
            ((count - 1) % n as int) as nat,
            bh,
        )
    }
}

/// Block hash of an image `w` wide and `h` high with `n` blocks each way:
/// blocks are `w / n` wide and `h / n` high, what is left over at the right
/// and at the bottom is ignored, and a block's bit is set when its mean is
/// at least the mean of all blocks.
pub open spec fn block_spec(px: Seq<u8>, w: nat, h: nat, n: nat) -> Seq<bool> {
    let bw = w / n;
    let bh = h / n;
    Seq::new(
        n * n,
        |i: int|
            block_sum(px, w, bw, bh, (i / n as int) as nat, (i % n as int) as nat, bh) * (n * n)
                >= blocks_sum(px, w, bw, bh, n, n * n),
    )
}

proof fn lemma_block_inside(w: nat, h: nat, n: nat, by: nat, bx: nat, r: nat, c: nat)
    requires
        0 < n <= w,
        n <= h,
        by < n,
        bx < n,
        r < h / n,
        c < w / n,
    ensures
        by * (h / n) + r < h,
        bx * (w / n) + c < w,
        by * (h / n) <= h,
        bx * (w / n) <= w,
        (by * (h / n) + r) * w + bx * (w / n) + c < w * h,
        (by * (h / n) + r) * w <= w * h,
{
    lemma_fundamental_div_mod(h as int, n as int);
    lemma_fundamental_div_mod(w as int, n as int);
    let bh = h / n;
    let bw = w / n;
    assert(by * bh + r < n * bh && by * bh <= n * bh) by (nonlinear_arith)
        requires
            by < n,
            r < bh,
    ;
    assert(bx * bw + c < n * bw && bx * bw <= n * bw) by (nonlinear_arith)
        requires
            bx < n,
            c < bw,
    ;
    lemma_pixel_index((by * bh + r) as nat, (bx * bw + c) as nat, w, h);
}

/// The sum of block `(by, bx)` of `gray`.
fn block_total(px: &Vec<u8>, w: usize, h: usize, n: usize, by: usize, bx: usize) -> (s: u128)
    requires
        px@.len() == w * h,
        0 < n <= w,
        n <= h,
        by < n,
        bx < n,
    ensures
        s == block_sum(
            px@,
            w as nat,
            (w / n) as nat,
            (h / n) as nat,
            by as nat,
            bx as nat,
            (h / n) as nat,
        ),
        s <= 255 * ((w / n) * (h / n)),
{
    let bw: usize = w / n;
    let bh: usize = h / n;
    let len: usize = px.len();
    let mut s: u128 = 0;
    let mut r: usize = 0;
    proof {
        assert(bw * 0 == 0) by (nonlinear_arith);
    }
    while r < bh
        invariant
            r <= bh,
            bw == w / n,
            bh == h / n,
            len == w * h,
            px@.len() == w * h,
            0 < n <= w,
            n <= h,
            by < n,
            bx < n,
            s == block_sum(px@, w as nat, bw as nat, bh as nat, by as nat, bx as nat, r as nat),
            s <= 255 * (bw * r),
        decreases bh - r,
    {
        let ghost start: int = (by * bh + r) * w + bx * bw;
        let mut line: u128 = 0;
        let mut c: usize = 0;
        if bw > 0 {
            proof {
                lemma_block_inside(w as nat, h as nat, n as nat, by as nat, bx as nat, r as nat, 0);
            }
            let row: usize = by * bh + r;
            let first: usize = row * w + bx * bw;
            while c < bw
                invariant
                    c <= bw,
                    r < bh,
                    bw == w / n,
                    bh == h / n,
                    len == w * h,
                    px@.len() == w * h,
                    0 < n <= w,
                    n <= h,
                    by < n,
                    bx < n,
                    first == start,
                    start == (by * bh + r) * w + bx * bw,
                    line == run_sum(px@, start, c as nat),
                    line <= 255 * c,
                decreases bw - c,
            {
                proof {
                    lemma_block_inside(
                        w as nat,
                        h as nat,
                        n as nat,
                        by as nat,
                        bx as nat,
                        r as nat,
                        c as nat,
                    );
                }
                line = line + px[first + c] as u128;
                c = c + 1;
            }
        }
        proof {
            assert(bw * (r + 1) == bw * r + bw) by (nonlinear_arith);
            assert(255 * (bw * r) + 255 * bw == 255 * (bw * (r + 1))) by (nonlinear_arith);
            lemma_fundamental_div_mod(h as int, n as int);
            lemma_fundamental_div_mod(w as int, n as int);
            assert(bw * n == n * bw && bh * n == n * bh) by (nonlinear_arith);
            assert(bw * r <= w * h) by (nonlinear_arith)
                requires
                    r < bh,
                    bw * n <= w,
                    bh * n <= h,
                    n >= 1,
            ;
        }
        s = s + line;
        r = r + 1;
    }
    proof {
        assert(bw * bh == (w / n) * (h / n));
    }
    s
}

/// Block hash of `gray` with `n` blocks each way: for each block, whether
/// its mean is at least the mean of all blocks. There is no such hash for
/// `n` zero, nor for an image with fewer than `n` pixels either way.
pub fn block_bits(gray: &GrayImage, n: usize) -> (bits: Option<Vec<bool>>)
    ensures
        bits is Some <==> 0 < n <= gray.spec_width() && n <= gray.spec_height(),
        bits is Some ==> bits->0@ == block_spec(
            gray@,
            gray.spec_width(),
            gray.spec_height(),
            n as nat,
        ) && bits->0@.len() == n * n,
{
    let px: &Vec<u8> = gray.pixels();
    let w: usize = gray.width();
    let h: usize = gray.height();
    if n == 0 || n > w || n > h {
        return None;
    }
    let len: usize = px.len();
    let bw: usize = w / n;
    let bh: usize = h / n;
    let ghost area: nat = (bw * bh) as nat;
    proof {
        lemma_fundamental_div_mod(h as int, n as int);
        lemma_fundamental_div_mod(w as int, n as int);
        assert(n * n <= w * h) by (nonlinear_arith)
            requires
                n <= w,
                n <= h,
        ;
        assert((bw * bh) * (n * n) <= w * h) by (nonlinear_arith)
            requires
                n * bw <= w,
                n * bh <= h,
        ;
    }
    let cells: usize = n * n;
    let mut sums: Vec<u128> = Vec::new();
    let mut grand: u128 = 0;
    let mut i: usize = 0;
    while i < cells
        invariant
            i <= cells,
            cells == n * n,
            bw == w / n,
            bh == h / n,
            area == bw * bh,
            area * cells <= w * h,
            len == w * h,
            px@.len() == w * h,
            0 < n <= w,
            n <= h,
            sums@.len() == i,
            forall|j: int|
                0 <= j < i ==> sums@[j] == block_sum(
                    px@,
                    w as nat,
                    bw as nat,
                    bh as nat,
                    (j / n as int) as nat,
                    (j % n as int) as nat,
                    bh as nat,
                ) && sums@[j] <= 255 * area,
            grand == blocks_sum(px@, w as nat, bw as nat, bh as nat, n as nat, i as nat),
            grand <= 255 * (area * i),
        decreases cells - i,
    {
        let by: usize = i / n;
        let bx: usize = i % n;
        proof {
            lemma_fundamental_div_mod(i as int, n as int);
            assert(by < n) by (nonlinear_arith)
                requires
                    i < n * n,
                    i == n * by + bx,
                    bx >= 0,
                    n > 0,
            ;
        }
        let s: u128 = block_total(px, w, h, n, by, bx);
        proof {
            assert(area * (i + 1) == area * i + area) by (nonlinear_arith);
            assert(area * (i + 1) <= area * cells) by (nonlinear_arith)
                requires
                    i + 1 <= cells,
            ;
        }
        sums.push(s);
        grand = grand + s;
        i = i + 1;
    }
    let mut bits: Vec<bool> = Vec::new();
    let mut i: usize = 0;
    while i < cells
        invariant
            i <= cells,
            cells == n * n,
            area * cells <= w * h,
            len == w * h,
            sums@.len() == cells,
            forall|j: int|
                0 <= j < cells ==> sums@[j] == block_sum(
                    px@,
                    w as nat,
                    bw as nat,
                    bh as nat,
                    (j / n as int) as nat,
                    (j % n as int) as nat,
                    bh as nat,
                ) && sums@[j] <= 255 * area,
            grand == blocks_sum(px@, w as nat, bw as nat, bh as nat, n as nat, cells as nat),
            bits@.len() == i,
            forall|j: int|
                0 <= j < i ==> bits@[j] == (block_sum(
                    px@,
                    w as nat,
                    bw as nat,
                    bh as nat,
                    (j / n as int) as nat,
                    (j % n as int) as nat,
                    bh as nat,
                ) * (n * n) >= blocks_sum(px@, w as nat, bw as nat, bh as nat, n as nat, (n * n) as nat)),
        decreases cells - i,
    {
        let s: u128 = sums[i];
        proof {
            assert(s * cells <= 255 * (w * h)) by (nonlinear_arith)
                requires
                    s <= 255 * area,
                    area * cells <= w * h,
            ;
        }
        bits.push(s * (cells as u128) >= grand);
        i = i + 1;
    }
    proof {
        assert(bits@ =~= block_spec(px@, w as nat, h as nat, n as nat));
    }
    Some(bits)
}

} // verus!
