use vstd::prelude::*;

verus! {

/// A rectangular grid of characters.
pub struct Canvas {
    pub width: i32,
    pub height: i32,
    pub grid: Vec<Vec<char>>,
}

impl Canvas {
    /// The grid has exactly `height` rows of exactly `width` cells.
    pub open spec fn wf(self) -> bool {
        &&& self.width >= 0
        &&& self.height >= 0
        &&& self.grid@.len() == self.height as int
        &&& forall|r: int|
            0 <= r < self.height as int ==> (#[trigger] self.grid@[r])@.len() == self.width as int
    }

    /// A canvas of the given size, filled with one character.
    pub fn new(width: i32, height: i32, fill_char: char) -> (c: Canvas)
        requires
            width >= 0,
            height >= 0,
        ensures
            c.wf(),
            c.width == width,
            c.height == height,
            forall|r: int, cc: int|
                0 <= r < height as int && 0 <= cc < width as int ==> #[trigger] ((c.grid@[r])@[cc])
                    == fill_char,
    {
        let mut grid: Vec<Vec<char>> = Vec::new();
        let mut r: usize = 0;
        #[verifier::loop_isolation(false)]
        while r < height as usize
            invariant
                r <= height as usize,
                grid@.len() == r,
                forall|j: int| 0 <= j < r ==> (#[trigger] grid@[j])@.len() == width as int,
                forall|j: int, cc: int|
                    0 <= j < r && 0 <= cc < width as int ==> #[trigger] ((grid@[j])@[cc])
                        == fill_char,
            decreases height as usize - r,
        {
            let mut row: Vec<char> = Vec::new();
            let mut cc: usize = 0;
            #[verifier::loop_isolation(false)]
            while cc < width as usize
                invariant
                    cc <= width as usize,
                    row@.len() == cc,
                    forall|j: int| 0 <= j < cc ==> row@[j] == fill_char,
                decreases width as usize - cc,
            {
                row.push(fill_char);
                cc += 1;
            }
            grid.push(row);
            r += 1;
        }
        Canvas { width, height, grid }
    }

    /// Put a character at a coordinate. Nothing is written when the
    /// coordinate lies outside the canvas; the result says whether the cell
    /// was written.
    pub fn write_at(&mut self, x: i32, y: i32, c: char) -> (written: bool)
        requires
            x >= 0,
            y >= 0,
            old(self).wf(),
        ensures
            final(self).wf(),
            final(self).width == old(self).width,
            final(self).height == old(self).height,
            written == (y < old(self).height && x < old(self).width),
            forall|r: int|
                0 <= r < old(self).height as int && r != y as int ==> #[trigger] (final(
                    self).grid@[r]) == old(self).grid@[r],
            forall|cc: int|
                0 <= cc < old(self).width as int && (written && cc != x as int) ==> #[trigger] ((
                final(self).grid@[y as int])@[cc]) == (old(self).grid@[y as int])@[cc],
            written ==> (final(self).grid@[y as int])@[x as int] == c,
            !written ==> final(self).grid@ == old(self).grid@,
    {
        if y < self.height && x < self.width {
            let row = &mut self.grid[y as usize];
            row[x as usize] = c;
            true
        } else {
            false
        }
    }
}

/// A broom standing on the plane: its head at `(x, y)`, its stick rising
/// `height` cells above the head.
pub struct Broom {
    pub x: i32,
    pub y: i32,
    pub height: i32,
}

impl Broom {
    /// The rows the broomstick covers: from the top of the stick down to,
    /// and excluding, the head's row.
    pub open spec fn stick_low(self) -> int {
        self.y as int - self.height as int - 1
    }

    /// Draw the broom: a stick of bars above an `M` at the head.
    pub fn draw(&self, canvas: &mut Canvas)
        requires
            old(canvas).wf(),
            self.height >= 0,
            0 <= self.x < old(canvas).width,
            0 <= self.stick_low(),
            self.y < old(canvas).height,
        ensures
            final(canvas).wf(),
            final(canvas).width == old(canvas).width,
            final(canvas).height == old(canvas).height,
            forall|r: int, cc: int|
                0 <= r < old(canvas).height as int && 0 <= cc < old(canvas).width as int ==> #[trigger] ((
                final(canvas).grid@[r])@[cc]) == (if cc == self.x as int {
                    if r == self.y as int {
                        'M'
                    } else if self.stick_low() <= r < self.y as int {
                        '|'
                    } else {
                        (old(canvas).grid@[r])@[cc]
                    }
                } else {
                    (old(canvas).grid@[r])@[cc]
                }),
    {
        let mut y = self.y - self.height - 1;
        #[verifier::loop_isolation(false)]
        while y < self.y
            invariant
                self.stick_low() <= y as int <= self.y as int,
                canvas.wf(),
                canvas.width == old(canvas).width,
                canvas.height == old(canvas).height,
                forall|r: int, cc: int|
                    0 <= r < old(canvas).height as int && 0 <= cc < old(canvas).width as int ==> #[trigger] ((
                    canvas.grid@[r])@[cc]) == (if cc == self.x as int && self.stick_low()
                        <= r < y as int {
                        '|'
                    } else {
                        (old(canvas).grid@[r])@[cc]
                    }),
            decreases self.y - y,
        {
            canvas.write_at(self.x, y, '|');
            y += 1;
        }
        canvas.write_at(self.x, self.y, 'M');
    }

    /// Whether a click at `(x, y)` lands on the broom: on its column, at or
    /// below the top of the stick, and not below the head.
    pub fn hit_test(&self, x: i32, y: i32) -> (r: bool)
        ensures
            r == (self.x == x && self.stick_low() <= y as int <= self.y as int),
    {
        self.x == x && (self.y as i64) - (self.height as i64) - 1 <= (y as i64) && (y as i64) <= (
        self.y as i64)
    }
}

/// A writer that ignores whatever is written to it.
pub struct Sink;

impl Sink {
    /// Claim to have taken the whole buffer.
    pub fn write(&mut self, buf: &[u8]) -> (n: usize)
        ensures
            n == buf@.len(),
    {
        buf.len()
    }

    /// Nothing is buffered, so there is nothing to flush.
    pub fn flush(&mut self) {
    }
}

} // verus!
