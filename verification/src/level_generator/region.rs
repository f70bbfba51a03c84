//! Rectangles of grid cells, and the noise field sampled over one.
use crate::level_generator::sample::NoiseValue;
use vstd::prelude::*;

verus! {

/// The grid cells `(x + i, y + j)` with `i < width` and `j < height`.
#[derive(Clone, Copy, Debug, PartialEq, Eq)]
pub struct CellRect {
    pub x: i32,
    pub y: i32,
    pub width: u32,
    pub height: u32,
}

impl CellRect {
    /// Every cell of the rectangle, and the first column and row beyond it,
    /// has coordinates that the machine can hold.
    pub open spec fn wf(self) -> bool {
        &&& self.x + self.width <= i32::MAX
        &&& self.y + self.height <= i32::MAX
    }

    /// The cell `p` lies in the rectangle.
    pub open spec fn contains(self, p: (i32, i32)) -> bool {
        &&& self.x <= p.0 < self.x + self.width
        &&& self.y <= p.1 < self.y + self.height
    }

    /// Whether the rectangle is well formed.
    pub fn is_wf(&self) -> (ok: bool)
        ensures
            ok == self.wf(),
    {
        let x_end: i64 = self.x as i64 + self.width as i64;
        let y_end: i64 = self.y as i64 + self.height as i64;
        x_end <= i32::MAX as i64 && y_end <= i32::MAX as i64
    }

    /// Whether the cell `p` lies in the rectangle.
    pub fn has(&self, p: (i32, i32)) -> (inside: bool)
        ensures
            inside == self.contains(p),
    {
        let px: i64 = p.0 as i64;
        let py: i64 = p.1 as i64;
        let x: i64 = self.x as i64;
        let y: i64 = self.y as i64;
        x <= px && px < x + self.width as i64 && y <= py && py < y + self.height as i64
    }

    /// The cells of the rectangle, column by column: entry `j` of column `i` is
    /// the cell `(x + i, y + j)`. This is the order in which chunk generation
    /// visits them.
    pub fn cells(&self) -> (columns: Vec<Vec<(i32, i32)>>)
        requires
            self.wf(),
        ensures
            columns@.len() == self.width,
            forall|i: int| 0 <= i < self.width ==> (#[trigger] columns@[i])@.len() == self.height,
            forall|i: int, j: int|
                0 <= i < self.width && 0 <= j < self.height ==> #[trigger] columns@[i]@[j] == (
                    (self.x + i) as i32,
                    (self.y + j) as i32,
                ),
    {
        let mut columns: Vec<Vec<(i32, i32)>> = Vec::new();
        let mut i: u32 = 0;
        while i < self.width
            invariant
                self.wf(),
                i <= self.width,
                columns@.len() == i,
                forall|a: int| 0 <= a < i ==> (#[trigger] columns@[a])@.len() == self.height,
                forall|a: int, b: int|
                    0 <= a < i && 0 <= b < self.height ==> #[trigger] columns@[a]@[b] == (
                        (self.x + a) as i32,
                        (self.y + b) as i32,
                    ),
            decreases self.width - i,
        {
            let cx: i32 = (self.x as i64 + i as i64) as i32;
            let mut column: Vec<(i32, i32)> = Vec::new();
            let mut j: u32 = 0;
            while j < self.height
                invariant
                    self.wf(),
                    j <= self.height,
                    cx == self.x + i,
                    column@.len() == j,
                    forall|b: int| 0 <= b < j ==> #[trigger] column@[b] == (cx, (self.y + b) as i32),
                decreases self.height - j,
            {
                let cy: i32 = (self.y as i64 + j as i64) as i32;
                column.push((cx, cy));
                j = j + 1;
            }
            columns.push(column);
            i = i + 1;
        }
        columns
    }
}

/// The values of one noise field on the cells of a rectangle.
pub struct NoiseSamples {
    region: CellRect,
    columns: Vec<Vec<u64>>,
}

impl NoiseSamples {
    #[verifier::type_invariant]
    spec fn rectangular(self) -> bool {
        &&& self.region.wf()
        &&& self.columns@.len() == self.region.width
        &&& forall|i: int|
            0 <= i < self.columns@.len() ==> (#[trigger] self.columns@[i])@.len()
                == self.region.height
    }

    /// The rectangle that was sampled.
    pub closed spec fn region(self) -> CellRect {
        self.region
    }

    /// The value of the field on cell `p`. Meaningful for the cells of
    /// `region()`.
    pub closed spec fn spec_value_at(self, p: (i32, i32)) -> NoiseValue {
        NoiseValue { bits: self.columns@[p.0 - self.region.x]@[p.1 - self.region.y] }
    }

    /// The table that holds `columns` as the values over `region`.
    pub closed spec fn table(region: CellRect, columns: Vec<Vec<u64>>) -> NoiseSamples {
        NoiseSamples { region, columns }
    }

    /// `columns` has the shape of `region`: one column for each column of
    /// cells, one entry in it for each row.
    pub open spec fn fits(region: CellRect, columns: Vec<Vec<u64>>) -> bool {
        &&& region.wf()
        &&& columns@.len() == region.width
        &&& forall|i: int| 0 <= i < columns@.len() ==> (#[trigger] columns@[i])@.len() == region.height
    }

    /// The table of the values `columns` over `region`: entry `j` of column `i`
    /// is the encoding of the field's value on cell `(x + i, y + j)`. There is
    /// such a table exactly if the rectangle is well formed and `columns` has
    /// its shape.
    pub fn new(region: CellRect, columns: Vec<Vec<u64>>) -> (samples: Option<NoiseSamples>)
        ensures
            samples is Some <==> Self::fits(region, columns),
            samples matches Some(s) ==> {
                &&& s == Self::table(region, columns)
                &&& s.region() == region
                &&& forall|i: int, j: int|
                    0 <= i < region.width && 0 <= j < region.height ==> s.spec_value_at(
                        ((region.x + i) as i32, (region.y + j) as i32),
                    ).bits == #[trigger] columns@[i]@[j]
            },
    {
        if !region.is_wf() {
            return None;
        }
        if columns.len() as u64 != region.width as u64 {
            return None;
        }
        let mut i: usize = 0;
        while i < columns.len()
            invariant
                i <= columns@.len(),
                forall|a: int| 0 <= a < i ==> (#[trigger] columns@[a])@.len() == region.height,
            decreases columns@.len() - i,
        {
            if columns[i].len() as u64 != region.height as u64 {
                return None;
            }
            i = i + 1;
        }
        Some(NoiseSamples { region, columns })
    }

    /// The rectangle that was sampled.
    pub fn sampled_region(&self) -> (region: CellRect)
        ensures
            region == self.region(),
            region.wf(),
    {
        proof {
            use_type_invariant(self);
        }
        self.region
    }

    /// The value of the field on cell `p`, for the cells of the rectangle.
    pub fn value_at(&self, p: (i32, i32)) -> (value: Option<NoiseValue>)
        ensures
            value is Some <==> self.region().contains(p),
            value matches Some(v) ==> v == self.spec_value_at(p),
    {
        proof {
            use_type_invariant(self);
        }
        if !self.region.has(p) {
            return None;
        }
        let i: usize = (p.0 as i64 - self.region.x as i64) as usize;
        let j: usize = (p.1 as i64 - self.region.y as i64) as usize;
        Some(NoiseValue::from_bits(self.columns[i][j]))
    }
}

} // verus!
