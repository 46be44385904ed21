use vstd::prelude::*;
use crate::FILL_CHAR;

verus! {

/// Clamps a requested dimension to the minimum of 1 that every grid keeps.
pub open spec fn clamp1(n: int) -> int {
    if n < 1 {
        1
    } else {
        n
    }
}

/// Horizontal offset of window slot `k` (0-based): the window runs
/// row-major over the three columns x-1, x, x+1.
pub open spec fn slot_dx(k: int) -> int {
    k % 3 - 1
}

/// Vertical offset of window slot `k` (0-based): the first row of the
/// window is at y+1, the middle row at y, the last at y-1.
pub open spec fn slot_dy(k: int) -> int {
    1 - k / 3
}

/// A fixed-size 2-D field of symbols, stored row-major: the cell at
/// (x, y) lives at index `y * width + x`.
pub struct CharTexture {
    pub pixels: Vec<char>,
    pub dimensions: (usize, usize),
    pub changed: bool,
}

impl CharTexture {
    pub open spec fn width(self) -> int {
        self.dimensions.0 as int
    }

    pub open spec fn height(self) -> int {
        self.dimensions.1 as int
    }

    /// Structural invariant: positive dimensions that fit an i32, and one
    /// stored symbol for every coordinate in range.
    pub open spec fn wf(self) -> bool {
        &&& 1 <= self.width() <= i32::MAX
        &&& 1 <= self.height() <= i32::MAX
        &&& self.pixels@.len() == self.width() * self.height()
    }

    /// The symbol stored at in-range coordinates (x, y).
    pub open spec fn sym(self, x: int, y: int) -> char {
        self.pixels@[y * self.width() + x]
    }

    pub open spec fn in_grid(self, x: int, y: int) -> bool {
        0 <= x < self.width() && 0 <= y < self.height()
    }

    /// Window member `k` of the cell at (x, y): the stored symbol where the
    /// slot lands on the grid, the FILL symbol where it falls off.
    pub open spec fn window_char(self, x: int, y: int, k: int) -> char {
        if self.in_grid(x + slot_dx(k), y + slot_dy(k)) {
            self.sym(x + slot_dx(k), y + slot_dy(k))
        } else {
            FILL_CHAR
        }
    }

    /// The 9-symbol window of the cell at (x, y), in slot order.
    pub open spec fn window(self, x: int, y: int) -> Seq<char> {
        Seq::new(9, |k: int| self.window_char(x, y, k))
    }

    /// The whole grid flattened to one stream: the windows of all cells,
    /// in cell-index order.
    pub open spec fn flat(self) -> Seq<char> {
        Seq::new(
            (9 * self.width() * self.height()) as nat,
            |i: int| self.window_char((i / 9) % self.width(), (i / 9) / self.width(), i % 9),
        )
    }

    pub fn new(width: usize, height: usize) -> (r: Self)
        requires
            clamp1(width as int) <= i32::MAX,
            clamp1(height as int) <= i32::MAX,
            clamp1(width as int) * clamp1(height as int) <= usize::MAX,
        ensures
            r.wf(),
            r.width() == clamp1(width as int),
            r.height() == clamp1(height as int),
            r.pixels@ == Seq::new((r.width() * r.height()) as nat, |i: int| FILL_CHAR),
            !r.changed,
    {
        let w: usize = if width < 1 { 1 } else { width };
        let h: usize = if height < 1 { 1 } else { height };
        let pixels: Vec<char> = vec!['#'; w * h];
        let r = Self { pixels, dimensions: (w, h), changed: false };
        proof {
            assert(r.pixels@ =~= Seq::new((r.width() * r.height()) as nat, |i: int| FILL_CHAR));
        }
        r
    }

    /// True exactly when (x, y) names no cell of the grid.
    pub fn out_of_range(&self, x: i32, y: i32) -> (r: bool)
        requires
            self.wf(),
        ensures
            r == !self.in_grid(x as int, y as int),
    {
        let w: i32 = #[verifier::truncate] (self.dimensions.0 as i32);
        let h: i32 = #[verifier::truncate] (self.dimensions.1 as i32);
        x < 0 || y < 0 || x >= w || y >= h
    }

    pub fn index_from_xy(&self, x: usize, y: usize) -> (r: usize)
        requires
            self.wf(),
            x < self.width(),
            y < self.height(),
        ensures
            r == y * self.width() + x,
            r < self.pixels@.len(),
    {
        let total = self.pixels.len();
        proof {
            lemma_row_major_index_bound(x as int, y as int, self.width(), self.height());
            assert(total == self.width() * self.height());
        }
        y * self.dimensions.0 + x
    }

    pub fn xy_from_index(&self, index: usize) -> (r: (usize, usize))
        requires
            self.wf(),
            index < self.pixels@.len(),
        ensures
            r.0 == index as int % self.width(),
            r.1 == index as int / self.width(),
            r.0 < self.width(),
            r.1 < self.height(),
            r.1 * self.width() + r.0 == index,
    {
        proof {
            lemma_row_major_index_inverse(index as int, self.width(), self.height());
        }
        (index % self.dimensions.0, index / self.dimensions.0)
    }

    pub fn get(&self, x: usize, y: usize) -> (r: char)
        requires
            self.wf(),
            x < self.width(),
            y < self.height(),
        ensures
            r == self.sym(x as int, y as int),
    {
        let index = self.index_from_xy(x, y);
        self.pixels[index]
    }

    /// Writes one symbol and records that the grid changed.
    pub fn set(&mut self, x: usize, y: usize, letter: char)
        requires
            old(self).wf(),
            x < old(self).width(),
            y < old(self).height(),
        ensures
            final(self).wf(),
            final(self).dimensions == old(self).dimensions,
            final(self).pixels@ == old(self).pixels@.update(
                y * old(self).width() + x,
                letter,
            ),
            final(self).changed,
    {
        self.changed = true;
        let index = self.index_from_xy(x, y);
        self.pixels[index] = letter;
    }

    /// The in-range absolute coordinates of the 9 window slots of (x, y),
    /// in slot order; None where a slot falls off the grid.
    pub fn get_valid_3x3_indices(&self, x: usize, y: usize) -> (r: [Option<(usize, usize)>; 9])
        requires
            self.wf(),
            x < self.width(),
            y < self.height(),
        ensures
            forall|k: int| #![auto] 0 <= k < 9 ==> r@[k] == (if self.in_grid(
                x + slot_dx(k),
                y + slot_dy(k),
            ) {
                Some(((x + slot_dx(k)) as usize, (y + slot_dy(k)) as usize))
            } else {
                None::<(usize, usize)>
            }),
            r@[4] == Some((x, y)),
    {
        let mut result: [Option<(usize, usize)>; 9] = [None; 9];
        let xi: i32 = #[verifier::truncate] (x as i32);
        let yi: i32 = #[verifier::truncate] (y as i32);
        for k in 0..9usize
            invariant
                self.wf(),
                x < self.width(),
                y < self.height(),
                xi == x,
                yi == y,
                forall|j: int| #![auto] 0 <= j < k ==> result@[j] == (if self.in_grid(
                    x + slot_dx(j),
                    y + slot_dy(j),
                ) {
                    Some(((x + slot_dx(j)) as usize, (y + slot_dy(j)) as usize))
                } else {
                    None::<(usize, usize)>
                }),
                forall|j: int| #![auto] k <= j < 9 ==> result@[j] == None::<(usize, usize)>,
        {
            let ki: i32 = #[verifier::truncate] (k as i32);
            let px: i32 = xi - 1 + ki % 3;
            let py: i32 = yi + 1 - ki / 3;
            if !self.out_of_range(px, py) {
                result[k] = Some((px as usize, py as usize));
            }
        }
        result
    }

    /// The 9-symbol window string of the cell at (x, y), FILL substituted
    /// for off-grid slots.
    pub fn stringify(&self, x: usize, y: usize) -> (r: [char; 9])
        requires
            self.wf(),
            x < self.width(),
            y < self.height(),
        ensures
            r@ == self.window(x as int, y as int),
    {
        let mut result: [char; 9] = ['#'; 9];
        let slots = self.get_valid_3x3_indices(x, y);
        for k in 0..9usize
            invariant
                self.wf(),
                x < self.width(),
                y < self.height(),
                forall|j: int| #![auto] 0 <= j < 9 ==> slots@[j] == (if self.in_grid(
                    x + slot_dx(j),
                    y + slot_dy(j),
                ) {
                    Some(((x + slot_dx(j)) as usize, (y + slot_dy(j)) as usize))
                } else {
                    None::<(usize, usize)>
                }),
                forall|j: int| #![auto] 0 <= j < k ==> result@[j] == self.window_char(
                    x as int,
                    y as int,
                    j,
                ),
                forall|j: int| #![auto] k <= j < 9 ==> result@[j] == FILL_CHAR,
        {
            match slots[k] {
                Some((abs_x, abs_y)) => {
                    result[k] = self.get(abs_x, abs_y);
                },
                None => {
                },
            }
        }
        proof {
            assert(result@ =~= self.window(x as int, y as int));
        }
        result
    }

    /// The flattened stream of every cell's window, as characters.
    pub fn flatten_chars(&self) -> (r: Vec<char>)
        requires
            self.wf(),
            9 * self.width() * self.height() <= usize::MAX,
        ensures
            r@ == self.flat(),
    {
        let size = self.pixels.len();
        let mut result: Vec<char> = Vec::new();
        proof {
            assert(9 * self.width() * self.height() == 9 * (self.width() * self.height()))
                by (nonlinear_arith);
            assert(self.flat().len() == 9 * size);
        }
        for index in 0..size
            invariant
                self.wf(),
                size == self.width() * self.height(),
                9 * self.width() * self.height() <= usize::MAX,
                result@.len() == 9 * index,
                forall|i: int| #![auto] 0 <= i < result@.len() ==> result@[i] == self.flat()[i],
        {
            let (x, y) = self.xy_from_index(index);
            let window = self.stringify(x, y);
            for k in 0..9usize
                invariant
                    self.wf(),
                    size == self.width() * self.height(),
                    9 * self.width() * self.height() <= usize::MAX,
                    index < size,
                    x == index as int % self.width(),
                    y == index as int / self.width(),
                    window@ == self.window(x as int, y as int),
                    result@.len() == 9 * index + k,
                    forall|i: int| #![auto] 0 <= i < result@.len() ==> result@[i] == self.flat()[i],
            {
                proof {
                    let i = result@.len() as int;
                    assert(i / 9 == index && i % 9 == k) by (nonlinear_arith)
                        requires
                            i == 9 * index + k,
                            0 <= k < 9,
                            0 <= index,
                    ;
                    assert(i < 9 * (self.width() * self.height()));
                    assert(9 * (self.width() * self.height()) == 9 * self.width()
                        * self.height()) by (nonlinear_arith);
                    assert(self.flat()[i] == self.window_char(x as int, y as int, k as int));
                    assert(window@[k as int] == self.window_char(x as int, y as int, k as int));
                }
                result.push(window[k]);
            }
        }
        proof {
            assert(result@ =~= self.flat());
        }
        result
    }

    /// The flattened full-grid stream as one string of length
    /// `9 * width * height`.
    pub fn full_stringify(&self) -> (r: String)
        requires
            self.wf(),
            9 * self.width() * self.height() <= usize::MAX,
        ensures
            r@ == self.flat(),
    {
        let chars = self.flatten_chars();
        crate::textutil::chars_to_string(&chars)
    }

    /// How many cells hold the given symbol.
    pub fn count(&self, letter: char) -> (r: u32)
        requires
            self.wf(),
            self.pixels@.len() <= u32::MAX,
        ensures
            r == count_in(self.pixels@, letter),
    {
        let mut result: u32 = 0;
        let n = self.pixels.len();
        for index in 0..n
            invariant
                self.wf(),
                n == self.pixels@.len() <= u32::MAX,
                result == count_in(self.pixels@.take(index as int), letter),
                result <= index,
        {
            proof {
                assert(self.pixels@.take(index + 1).drop_last() =~= self.pixels@.take(index as int));
                assert(self.pixels@.take(index + 1).last() == self.pixels@[index as int]);
            }
            if self.pixels[index] == letter {
                result += 1;
            }
        }
        proof {
            assert(self.pixels@.take(n as int) =~= self.pixels@);
        }
        result
    }

    pub fn get_array(&self) -> (r: &[char])
        ensures
            r@ == self.pixels@,
    {
        self.pixels.as_slice()
    }

    /// Reallocates the backing store to the new size (clamped to at least
    /// 1 in each dimension), discarding the old contents: every cell of
    /// the resized grid holds the FILL symbol.
    pub fn resize(&mut self, width: usize, height: usize)
        requires
            old(self).wf(),
            clamp1(width as int) <= i32::MAX,
            clamp1(height as int) <= i32::MAX,
            clamp1(width as int) * clamp1(height as int) <= usize::MAX,
        ensures
            final(self).wf(),
            final(self).width() == clamp1(width as int),
            final(self).height() == clamp1(height as int),
            final(self).pixels@ == Seq::new(
                (final(self).width() * final(self).height()) as nat,
                |i: int| FILL_CHAR,
            ),
            final(self).changed == old(self).changed,
    {
        let w: usize = if width < 1 { 1 } else { width };
        let h: usize = if height < 1 { 1 } else { height };
        let pixels: Vec<char> = vec!['#'; w * h];
        self.pixels = pixels;
        self.dimensions = (w, h);
        proof {
            assert(self.pixels@ =~= Seq::new((self.width() * self.height()) as nat, |i: int| FILL_CHAR));
        }
    }
}

/// Number of occurrences of `letter` in `s`.
pub open spec fn count_in(s: Seq<char>, letter: char) -> nat
    decreases s.len(),
{
    if s.len() == 0 {
        0
    } else {
        count_in(s.drop_last(), letter) + (if s.last() == letter {
            1nat
        } else {
            0nat
        })
    }
}

pub proof fn lemma_row_major_index_bound(x: int, y: int, w: int, h: int)
    requires
        0 <= x < w,
        0 <= y < h,
    ensures
        0 <= y * w + x < w * h,
{
    assert(y * w + x < w * h) by (nonlinear_arith)
        requires
            0 <= x < w,
            0 <= y < h,
    ;
    assert(0 <= y * w) by (nonlinear_arith)
        requires
            0 <= y,
            0 <= w,
    ;
}

pub proof fn lemma_row_major_index_inverse(index: int, w: int, h: int)
    requires
        1 <= w,
        1 <= h,
        0 <= index < w * h,
    ensures
        0 <= index % w < w,
        0 <= index / w < h,
        (index / w) * w + index % w == index,
{
    assert(0 <= index % w < w && (index / w) * w + index % w == index && 0 <= index / w < h)
        by (nonlinear_arith)
        requires
            1 <= w,
            1 <= h,
            0 <= index < w * h,
    ;
}

/// The window of every in-range cell stands at offset `9 * index` of the
/// flattened stream: slicing the stream there reproduces that cell's
/// window string.
pub proof fn lemma_flat_window(t: CharTexture, x: int, y: int)
    requires
        t.wf(),
        t.in_grid(x, y),
    ensures
        t.flat().subrange(9 * (y * t.width() + x), 9 * (y * t.width() + x) + 9) == t.window(x, y),
{
    let cell = y * t.width() + x;
    lemma_row_major_index_bound(x, y, t.width(), t.height());
    assert(9 * (t.width() * t.height()) == 9 * t.width() * t.height()) by (nonlinear_arith);
    assert(9 * cell + 9 <= t.flat().len());
    assert forall|k: int| 0 <= k < 9 implies t.flat()[9 * cell + k] == t.window(x, y)[k] by {
        let i = 9 * cell + k;
        assert(i / 9 == cell && i % 9 == k) by (nonlinear_arith)
            requires
                i == 9 * cell + k,
                0 <= k < 9,
                0 <= cell,
        ;
        assert(cell % t.width() == x && cell / t.width() == y) by (nonlinear_arith)
            requires
                cell == y * t.width() + x,
                0 <= x < t.width(),
                0 <= y,
        ;
        assert(9 * cell + 9 <= t.flat().len()) by (nonlinear_arith)
            requires
                0 <= cell < t.width() * t.height(),
                t.flat().len() == 9 * t.width() * t.height(),
        ;
    }
    assert(t.flat().subrange(9 * cell, 9 * cell + 9) =~= t.window(x, y));
}

} // verus!
