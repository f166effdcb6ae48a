//! Monochrome cell masks packed into bits: cell `i` of a `w`-wide mask (row
//! `i / w`, column `i % w`) is bit `i % 128` of word `i / 128`.
use vstd::prelude::*;

use crate::space::Size2D;

verus! {

pub open spec fn bit_of(v: u128, i: int) -> bool {
    (v >> (i as u128)) & 1 == 1
}

/// Cell `i` of a packed mask.
pub open spec fn cell_of(words: Seq<u128>, i: int) -> bool {
    bit_of(words[i / 128], i % 128)
}

proof fn lemma_set_bit(r: u128, k: u128, j: u128)
    requires
        k < 128,
        j < 128,
    ensures
        (((r | (1u128 << k)) >> j) & 1 == 1) == (((r >> j) & 1 == 1) || j == k),
{
    assert((((r | (1u128 << k)) >> j) & 1 == 1) == (((r >> j) & 1 == 1) || j == k)) by (bit_vector)
        requires
            k < 128,
            j < 128,
    ;
}

proof fn lemma_zero_bits(j: u128)
    ensures
        !((0u128 >> j) & 1 == 1),
{
    assert(!((0u128 >> j) & 1 == 1)) by (bit_vector);
}

fn test_bit(v: u128, i: u32) -> (r: bool)
    requires
        i < 128,
    ensures
        r == bit_of(v, i as int),
{
    (v >> (i as u128)) & 1 == 1
}

/// Sets cell `i` of a packed mask.
fn set_cell(words: &mut Vec<u128>, i: usize)
    requires
        i / 128 < old(words)@.len(),
    ensures
        final(words)@.len() == old(words)@.len(),
        forall|j: int|
            0 <= j < 128 * old(words)@.len() ==> #[trigger] cell_of(final(words)@, j) == (cell_of(old(words)@, j) || j
                == i),
{
    let w = i / 128;
    let b = (i % 128) as u32;
    let word = words[w] | (1u128 << (b as u128));
    words.set(w, word);
    assert forall|j: int| 0 <= j < 128 * old(words)@.len() implies #[trigger] cell_of(words@, j) == (cell_of(
        old(words)@,
        j,
    ) || j == i) by {
        lemma_set_bit(old(words)@[w as int], b as u128, (j % 128) as u128);
        if j / 128 == w as int {
            if j % 128 == b as int {
                assert(j == i);
            } else {
                assert(j != i);
            }
        } else {
            assert(j != i);
        }
    }
}

/// A mask of `n` cells, all empty.
fn empty_mask(n: usize) -> (r: Vec<u128>)
    ensures
        r@.len() == (n + 127) / 128,
        forall|j: int| 0 <= j < 128 * r@.len() ==> !#[trigger] cell_of(r@, j),
{
    let words = n / 128 + if n % 128 == 0 {
        0
    } else {
        1
    };
    let mut r: Vec<u128> = Vec::new();
    let mut k: usize = 0;
    while k < words
        invariant
            k <= words,
            r@.len() == k,
            forall|m: int| 0 <= m < k ==> r@[m] == 0,
        decreases words - k,
    {
        r.push(0);
        k = k + 1;
    }
    assert forall|j: int| 0 <= j < 128 * r@.len() implies !#[trigger] cell_of(r@, j) by {
        assert(r@[j / 128] == 0);
        lemma_zero_bits((j % 128) as u128);
    }
    r
}

/// A mask of at most 128 cells held in one word.
#[derive(Debug, Default, Copy, Clone)]
pub struct BitShape128 {
    pub bits: u128,
    pub size: Size2D,
}

impl BitShape128 {
    /// Takes the `m * n` low bits of `bits`, most significant first, as the
    /// cells in row-major order: cell `k` becomes bit `k`.
    pub fn new(bits: u128, size: Size2D) -> (r: BitShape128)
        requires
            0 < size.x * size.y <= 128,
        ensures
            r.size == size,
            forall|k: int|
                0 <= k < 128 ==> #[trigger] bit_of(r.bits, k) == (k < size.x * size.y && bit_of(
                    bits,
                    size.x * size.y - 1 - k,
                )),
    {
        let area = (size.x as u32) * (size.y as u32);
        let mut r: u128 = 0;
        let mut k: u32 = 0;
        proof {
            assert forall|j: int| 0 <= j < 128 implies !#[trigger] bit_of(0u128, j) by {
                lemma_zero_bits(j as u128);
            }
        }
        while k < area
            invariant
                k <= area,
                area == size.x * size.y,
                area <= 128,
                forall|j: int| 0 <= j < 128 ==> #[trigger] bit_of(r, j) == (j < k && bit_of(bits, area - 1 - j)),
            decreases area - k,
        {
            let ghost before = r;
            if test_bit(bits, area - 1 - k) {
                r = r | (1u128 << (k as u128));
                proof {
                    assert forall|j: int| 0 <= j < 128 implies #[trigger] bit_of(r, j) == (j < k + 1 && bit_of(
                        bits,
                        area - 1 - j,
                    )) by {
                        lemma_set_bit(before, k as u128, j as u128);
                        assert(r == before | (1u128 << (k as u128)));
                        assert(bit_of(r, j) == (bit_of(before, j) || j == k as int));
                    }
                }
            }
            k = k + 1;
        }
        BitShape128 { bits: r, size }
    }
}

/// A mask of any size, packed into as many words as it needs.
#[derive(Debug, Default, Clone)]
pub struct BitShape {
    pub bits: Vec<u128>,
    pub size: Size2D,
}

impl BitShape {
    /// Every cell has a bit.
    pub open spec fn wf(&self) -> bool {
        self.size.x * self.size.y <= 128 * self.bits@.len()
    }

    /// Packs rows of `size.x` cells each, given as bit rows whose bit
    /// `size.x - 1` is the leftmost cell; bits above a row's width are ignored.
    pub fn new(rows: Vec<u128>, size: Size2D) -> (r: BitShape)
        requires
            size.x <= 128,
            rows@.len() * size.x <= usize::MAX - 128,
        ensures
            r.size == size,
            r.bits@.len() == (rows@.len() * size.x + 127) / 128,
            forall|i: int|
                0 <= i < rows@.len() * size.x ==> #[trigger] cell_of(r.bits@, i) == bit_of(
                    rows@[i / (size.x as int)],
                    size.x - 1 - i % (size.x as int),
                ),
    {
        let width = size.x as usize;
        let n = rows.len() * width;
        let mut bits = empty_mask(n);
        let mut y: usize = 0;
        while y < rows.len()
            invariant
                y <= rows@.len(),
                n == rows@.len() * width,
                width == size.x,
                width <= 128,
                bits@.len() == (n + 127) / 128,
                forall|i: int|
                    0 <= i < 128 * bits@.len() ==> #[trigger] cell_of(bits@, i) == (i < y * width && bit_of(
                        rows@[i / (width as int)],
                        width - 1 - i % (width as int),
                    )),
            decreases rows@.len() - y,
        {
            let row = rows[y];
            let mut x: usize = 0;
            while x < width
                invariant
                    y < rows@.len(),
                    x <= width,
                    n == rows@.len() * width,
                    width == size.x,
                    width <= 128,
                    row == rows@[y as int],
                    bits@.len() == (n + 127) / 128,
                    forall|i: int|
                        0 <= i < 128 * bits@.len() ==> #[trigger] cell_of(bits@, i) == (i < y * width + x && bit_of(
                            rows@[i / (width as int)],
                            width - 1 - i % (width as int),
                        )),
                decreases width - x,
            {
                assert(y * width + x < n) by (nonlinear_arith)
                    requires
                        y < rows@.len(),
                        x < width,
                        n == rows@.len() * width,
                ;
                let i = y * width + x;
                assert(i / width == y && i % width == x) by (nonlinear_arith)
                    requires
                        i == y * width + x,
                        x < width,
                ;
                if test_bit(row, (width - 1 - x) as u32) {
                    let ghost before = bits@;
                    set_cell(&mut bits, i);
                    assert forall|j: int| 0 <= j < 128 * bits@.len() implies #[trigger] cell_of(bits@, j) == (j < y
                        * width + x + 1 && bit_of(rows@[j / (width as int)], width - 1 - j % (width as int))) by {
                        assert(cell_of(bits@, j) == (cell_of(before, j) || j == i));
                    }
                }
                x = x + 1;
            }
            assert((y + 1) * width == y * width + width) by (nonlinear_arith);
            y = y + 1;
        }
        BitShape { bits, size }
    }

    /// A mask whose cell at column `x`, row `y` is what `painter` answers for it.
    pub fn paint<F: Fn(u16, u16) -> bool>(size: Size2D, painter: F) -> (r: BitShape)
        requires
            size.x * size.y <= u16::MAX,
            forall|x: u16, y: u16| #[trigger] painter.requires((x, y)),
        ensures
            r.size == size,
            r.wf(),
            forall|i: int|
                0 <= i < size.x * size.y ==> painter.ensures(
                    ((i % (size.x as int)) as u16, (i / (size.x as int)) as u16),
                    #[trigger] cell_of(r.bits@, i),
                ),
    {
        let area = size.area() as usize;
        let mut bits = empty_mask(area);
        let mut i: usize = 0;
        while i < area
            invariant
                i <= area,
                area == size.x * size.y,
                area <= u16::MAX,
                bits@.len() == (area + 127) / 128,
                forall|x: u16, y: u16| #[trigger] painter.requires((x, y)),
                forall|j: int|
                    0 <= j < 128 * bits@.len() && i <= j ==> !#[trigger] cell_of(bits@, j),
                forall|j: int|
                    0 <= j < i ==> painter.ensures(
                        ((j % (size.x as int)) as u16, (j / (size.x as int)) as u16),
                        #[trigger] cell_of(bits@, j),
                    ),
            decreases area - i,
        {
            assert(size.x > 0) by (nonlinear_arith)
                requires
                    i < area,
                    area == size.x * size.y,
            ;
            let x = (i % size.x as usize) as u16;
            let y = (i / size.x as usize) as u16;
            let filled = painter(x, y);
            let ghost before = bits@;
            if filled {
                set_cell(&mut bits, i);
            }
            assert forall|j: int| 0 <= j < i + 1 implies painter.ensures(
                ((j % (size.x as int)) as u16, (j / (size.x as int)) as u16),
                #[trigger] cell_of(bits@, j),
            ) by {
                if filled {
                    assert(cell_of(bits@, j) == (cell_of(before, j) || j == i));
                }
                if j == i {
                    assert(!cell_of(before, j));
                }
            }
            assert forall|j: int| 0 <= j < 128 * bits@.len() && i + 1 <= j implies !#[trigger] cell_of(bits@, j) by {
                if filled {
                    assert(cell_of(bits@, j) == (cell_of(before, j) || j == i));
                }
            }
            i = i + 1;
        }
        BitShape { bits, size }
    }

    /// Whether the cell at column `x`, row `y` is set; cells outside the mask
    /// are not.
    pub fn is_filled_at(&self, x: u16, y: u16) -> (r: bool)
        requires
            self.wf(),
            self.size.x * self.size.y <= u16::MAX,
        ensures
            r == (x < self.size.x && y < self.size.y && cell_of(self.bits@, self.size.x * y + x)),
    {
        if x >= self.size.x || y >= self.size.y {
            false
        } else {
            assert(self.size.x * y + x < self.size.x * self.size.y) by (nonlinear_arith)
                requires
                    x < self.size.x,
                    y < self.size.y,
            ;
            let index = (self.size.x * y + x) as usize;
            test_bit(self.bits[index / 128], (index % 128) as u32)
        }
    }
}

} // verus!
