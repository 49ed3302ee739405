//! The neighbourhood that the bilateral post-processing filter reads for one
//! pixel of a row-major frame: every pixel at most `radius` columns and rows
//! away that lies inside the frame, with its squared distance.

use vstd::prelude::*;

verus! {

/// A neighbour of the filtered pixel: its row-major index in the frame and
/// its squared distance `dx * dx + dy * dy` from the filtered pixel.
#[derive(Clone, Copy, Debug, PartialEq, Eq)]
pub struct WindowTap {
    pub index: usize,
    pub dist_sq: u32,
}

/// The tap of the pixel at offset `(dx, dy)` from `(x, y)` in a frame
/// `width` pixels wide: its row-major index and its squared distance.
pub open spec fn neighbour_tap(width: int, x: int, y: int, dx: int, dy: int) -> WindowTap {
    WindowTap { index: ((y + dy) * width + (x + dx)) as usize, dist_sq: (dx * dx + dy * dy) as u32 }
}

/// The indices of `taps` strictly increase: no pixel is read twice, and
/// pixels are read in row-major order.
pub open spec fn strictly_increasing(taps: Seq<WindowTap>) -> bool {
    forall|i: int, j: int| 0 <= i < j < taps.len() ==> #[trigger] taps[i].index < #[trigger] taps[j].index
}

/// Whether `(nx, ny)` lies inside a frame of `width` by `height` pixels.
pub open spec fn in_frame(width: int, height: int, nx: int, ny: int) -> bool {
    0 <= nx < width && 0 <= ny < height
}

/// The tap at offset `(dx, dy)` from `(x, y)`, if that pixel lies inside the frame.
pub open spec fn tap_at(width: int, height: int, x: int, y: int, dx: int, dy: int) -> Seq<WindowTap> {
    if in_frame(width, height, x + dx, y + dy) {
        seq![WindowTap { index: ((y + dy) * width + (x + dx)) as usize, dist_sq: (dx * dx + dy * dy) as u32 }]
    } else {
        Seq::empty()
    }
}

/// The taps of row offset `dy` for the first `n` column offsets `-radius, -radius + 1, ...`.
pub open spec fn row_taps(width: int, height: int, x: int, y: int, radius: int, dy: int, n: nat) -> Seq<WindowTap>
    decreases n,
{
    if n == 0 {
        Seq::empty()
    } else {
        row_taps(width, height, x, y, radius, dy, (n - 1) as nat)
            + tap_at(width, height, x, y, -radius + n - 1, dy)
    }
}

/// The taps of the first `m` row offsets `-radius, -radius + 1, ...`, each row
/// over all `2 * radius + 1` column offsets.
pub open spec fn rows_taps(width: int, height: int, x: int, y: int, radius: int, m: nat) -> Seq<WindowTap>
    decreases m,
{
    if m == 0 {
        Seq::empty()
    } else {
        rows_taps(width, height, x, y, radius, (m - 1) as nat)
            + row_taps(width, height, x, y, radius, -radius + m - 1, (2 * radius + 1) as nat)
    }
}

/// All taps of the window of `radius` around `(x, y)`, row offset by row
/// offset and, within a row, column offset by column offset, from `-radius`
/// to `radius`; none for a negative radius.
pub open spec fn window(width: int, height: int, x: int, y: int, radius: int) -> Seq<WindowTap> {
    if radius < 0 {
        Seq::empty()
    } else {
        rows_taps(width, height, x, y, radius, (2 * radius + 1) as nat)
    }
}

/// The taps that the bilateral filter visits for pixel `(x, y)` of a frame of
/// `width` by `height` pixels with a window of `radius`, in the order it
/// visits them.
pub fn filter_window(width: usize, height: usize, x: usize, y: usize, radius: i32) -> (taps: Vec<WindowTap>)
    requires
        x < width,
        y < height,
        width * height <= usize::MAX,
        width <= i32::MAX,
        height <= i32::MAX,
        radius <= 32767,
    ensures
        taps@ == window(width as int, height as int, x as int, y as int, radius as int),
        strictly_increasing(taps@),
        forall|i: int| 0 <= i < taps@.len()
            ==> is_neighbour(width as int, height as int, x as int, y as int, radius as int, #[trigger] taps@[i]),
        forall|dx: int, dy: int|
            -radius <= dx <= radius && -radius <= dy <= radius
                && in_frame(width as int, height as int, x + dx, y + dy)
            ==> taps@.contains(#[trigger] neighbour_tap(width as int, x as int, y as int, dx, dy)),
{
    proof {
        let (w, h, xi, yi, r) = (width as int, height as int, x as int, y as int, radius as int);
        lemma_window_is_strictly_increasing(w, h, xi, yi, r);
        lemma_window_taps_are_neighbours(w, h, xi, yi, r);
        assert forall|dx: int, dy: int|
            -r <= dx <= r && -r <= dy <= r && in_frame(w, h, xi + dx, yi + dy)
            implies window(w, h, xi, yi, r).contains(#[trigger] neighbour_tap(w, xi, yi, dx, dy)) by {
            lemma_window_covers_neighbours(w, h, xi, yi, r, dx, dy);
        }
    }
    filter_window_taps(width, height, x, y, radius)
}

fn filter_window_taps(width: usize, height: usize, x: usize, y: usize, radius: i32) -> (taps: Vec<WindowTap>)
    requires
        x < width,
        y < height,
        width * height <= usize::MAX,
        width <= i32::MAX,
        height <= i32::MAX,
        radius <= 32767,
    ensures
        taps@ == window(width as int, height as int, x as int, y as int, radius as int),
{
    let mut taps: Vec<WindowTap> = Vec::new();
    if radius < 0 {
        return taps;
    }
    let ghost (w, h, xi, yi, r) = (width as int, height as int, x as int, y as int, radius as int);
    let mut dy: i32 = -radius;
    while dy <= radius
        invariant
            0 <= r <= 32767,
            r == radius,
            w == width, h == height, xi == x, yi == y,
            x < width, y < height, width * height <= usize::MAX,
            width <= i32::MAX, height <= i32::MAX,
            -radius <= dy <= radius + 1,
            taps@ == rows_taps(w, h, xi, yi, r, (dy + r) as nat),
        decreases radius + 1 - dy,
    {
        let ghost before = taps@;
        let mut dx: i32 = -radius;
        while dx <= radius
            invariant
                0 <= r <= 32767,
                r == radius,
                w == width, h == height, xi == x, yi == y,
                x < width, y < height, width * height <= usize::MAX,
                width <= i32::MAX, height <= i32::MAX,
                -radius <= dy <= radius,
                -radius <= dx <= radius + 1,
                taps@ == before + row_taps(w, h, xi, yi, r, dy as int, (dx + r) as nat),
            decreases radius + 1 - dx,
        {
            let nx: i64 = x as i64 + dx as i64;
            let ny: i64 = y as i64 + dy as i64;
            if nx >= 0 && nx < width as i64 && ny >= 0 && ny < height as i64 {
                let (ux, uy) = (nx as usize, ny as usize);
                assert(uy * width + ux < width * height) by (nonlinear_arith)
                    requires uy < height, ux < width;
                let index = uy * width + ux;
                assert(0 <= dx * dx <= 1073676289 && 0 <= dy * dy <= 1073676289) by (nonlinear_arith)
                    requires -32767 <= dx <= 32767, -32767 <= dy <= 32767;
                let dist_sq = (dx * dx + dy * dy) as u32;
                taps.push(WindowTap { index, dist_sq });
            }
            assert(taps@ =~= before + row_taps(w, h, xi, yi, r, dy as int, (dx + 1 + r) as nat));
            dx = dx + 1;
        }
        assert(taps@ =~= rows_taps(w, h, xi, yi, r, (dy + 1 + r) as nat));
        dy = dy + 1;
    }
    taps
}

/// The frame sizes and window centre that the window lemmas speak of: a
/// pixel inside a frame whose pixel count fits a `usize`, and a radius whose
/// squared offsets fit the distance field.
pub open spec fn valid_window(width: int, height: int, x: int, y: int, radius: int) -> bool {
    &&& 0 <= x < width
    &&& 0 <= y < height
    &&& width * height <= usize::MAX
    &&& radius <= 32767
}

/// `tap` names a pixel of the frame at most `radius` columns and rows away
/// from `(x, y)`, and carries its squared distance from `(x, y)`.
pub open spec fn is_neighbour(width: int, height: int, x: int, y: int, radius: int, tap: WindowTap) -> bool {
    let col = tap.index as int % width;
    let row = tap.index as int / width;
    &&& tap.index < width * height
    &&& -radius <= col - x <= radius
    &&& -radius <= row - y <= radius
    &&& tap.dist_sq == (col - x) * (col - x) + (row - y) * (row - y)
}

proof fn lemma_tap_at_is_neighbour(width: int, height: int, x: int, y: int, radius: int, dx: int, dy: int)
    requires
        valid_window(width, height, x, y, radius),
        -radius <= dx <= radius,
        -radius <= dy <= radius,
        in_frame(width, height, x + dx, y + dy),
    ensures
        is_neighbour(width, height, x, y, radius, tap_at(width, height, x, y, dx, dy)[0]),
{
    let (nx, ny) = (x + dx, y + dy);
    assert(ny * width + nx < width * height) by (nonlinear_arith)
        requires 0 <= ny < height, 0 <= nx < width;
    assert(0 <= ny * width) by (nonlinear_arith)
        requires 0 <= ny, 0 <= width;
    vstd::arithmetic::div_mod::lemma_fundamental_div_mod_converse(ny * width + nx, width, ny, nx);
    assert(0 <= dx * dx <= 1073676289 && 0 <= dy * dy <= 1073676289) by (nonlinear_arith)
        requires -32767 <= dx <= 32767, -32767 <= dy <= 32767;
}

proof fn lemma_row_taps_are_neighbours(width: int, height: int, x: int, y: int, radius: int, dy: int, n: nat)
    requires
        valid_window(width, height, x, y, radius),
        -radius <= dy <= radius,
        n <= 2 * radius + 1,
    ensures
        forall|i: int| 0 <= i < row_taps(width, height, x, y, radius, dy, n).len()
            ==> is_neighbour(width, height, x, y, radius, #[trigger] row_taps(width, height, x, y, radius, dy, n)[i]),
    decreases n,
{
    if n > 0 {
        lemma_row_taps_are_neighbours(width, height, x, y, radius, dy, (n - 1) as nat);
        let dx = -radius + n - 1;
        if in_frame(width, height, x + dx, y + dy) {
            lemma_tap_at_is_neighbour(width, height, x, y, radius, dx, dy);
        }
        let prev = row_taps(width, height, x, y, radius, dy, (n - 1) as nat);
        let all = row_taps(width, height, x, y, radius, dy, n);
        assert forall|i: int| 0 <= i < all.len() implies is_neighbour(width, height, x, y, radius, #[trigger] all[i]) by {
            if i >= prev.len() {
                assert(all[i] == tap_at(width, height, x, y, dx, dy)[0]);
            } else {
                assert(all[i] == prev[i]);
            }
        }
    }
}

proof fn lemma_rows_taps_are_neighbours(width: int, height: int, x: int, y: int, radius: int, m: nat)
    requires
        valid_window(width, height, x, y, radius),
        0 <= radius,
        m <= 2 * radius + 1,
    ensures
        forall|i: int| 0 <= i < rows_taps(width, height, x, y, radius, m).len()
            ==> is_neighbour(width, height, x, y, radius, #[trigger] rows_taps(width, height, x, y, radius, m)[i]),
    decreases m,
{
    if m > 0 {
        lemma_rows_taps_are_neighbours(width, height, x, y, radius, (m - 1) as nat);
        let dy = -radius + m - 1;
        let n = (2 * radius + 1) as nat;
        lemma_row_taps_are_neighbours(width, height, x, y, radius, dy, n);
        let prev = rows_taps(width, height, x, y, radius, (m - 1) as nat);
        let row = row_taps(width, height, x, y, radius, dy, n);
        let all = rows_taps(width, height, x, y, radius, m);
        assert forall|i: int| 0 <= i < all.len() implies is_neighbour(width, height, x, y, radius, #[trigger] all[i]) by {
            if i >= prev.len() {
                assert(all[i] == row[i - prev.len()]);
            } else {
                assert(all[i] == prev[i]);
            }
        }
    }
}

/// Every pixel that the bilateral filter reads lies inside the frame, at
/// most `radius` columns and rows from the filtered pixel, and its weight
/// is computed from its true squared distance.
pub proof fn lemma_window_taps_are_neighbours(width: int, height: int, x: int, y: int, radius: int)
    requires
        valid_window(width, height, x, y, radius),
    ensures
        forall|i: int| 0 <= i < window(width, height, x, y, radius).len()
            ==> is_neighbour(width, height, x, y, radius, #[trigger] window(width, height, x, y, radius)[i]),
{
    if radius >= 0 {
        lemma_rows_taps_are_neighbours(width, height, x, y, radius, (2 * radius + 1) as nat);
    }
}

proof fn lemma_row_taps_cover(width: int, height: int, x: int, y: int, radius: int, dy: int, n: nat, dx: int)
    requires
        -radius <= dx < -radius + n,
        in_frame(width, height, x + dx, y + dy),
    ensures
        row_taps(width, height, x, y, radius, dy, n).contains(tap_at(width, height, x, y, dx, dy)[0]),
    decreases n,
{
    let t = tap_at(width, height, x, y, dx, dy)[0];
    let prev = row_taps(width, height, x, y, radius, dy, (n - 1) as nat);
    let all = row_taps(width, height, x, y, radius, dy, n);
    if dx == -radius + n - 1 {
        assert(all[prev.len() as int] == t);
    } else {
        lemma_row_taps_cover(width, height, x, y, radius, dy, (n - 1) as nat, dx);
        let k = choose|k: int| 0 <= k < prev.len() && prev[k] == t;
        assert(all[k] == t);
    }
}

proof fn lemma_rows_taps_cover(width: int, height: int, x: int, y: int, radius: int, m: nat, dx: int, dy: int)
    requires
        0 <= radius,
        -radius <= dx <= radius,
        -radius <= dy < -radius + m,
        in_frame(width, height, x + dx, y + dy),
    ensures
        rows_taps(width, height, x, y, radius, m).contains(tap_at(width, height, x, y, dx, dy)[0]),
    decreases m,
{
    let t = tap_at(width, height, x, y, dx, dy)[0];
    let prev = rows_taps(width, height, x, y, radius, (m - 1) as nat);
    let all = rows_taps(width, height, x, y, radius, m);
    if dy == -radius + m - 1 {
        let n = (2 * radius + 1) as nat;
        lemma_row_taps_cover(width, height, x, y, radius, dy, n, dx);
        let row = row_taps(width, height, x, y, radius, dy, n);
        let k = choose|k: int| 0 <= k < row.len() && row[k] == t;
        assert(all[prev.len() + k] == t);
    } else {
        lemma_rows_taps_cover(width, height, x, y, radius, (m - 1) as nat, dx, dy);
        let k = choose|k: int| 0 <= k < prev.len() && prev[k] == t;
        assert(all[k] == t);
    }
}

/// Every pixel of the frame at most `radius` columns and rows from the
/// filtered pixel is read, with its squared distance; in particular the
/// filtered pixel itself, at distance 0, whenever the radius is not negative.
pub proof fn lemma_window_covers_neighbours(width: int, height: int, x: int, y: int, radius: int, dx: int, dy: int)
    requires
        valid_window(width, height, x, y, radius),
        -radius <= dx <= radius,
        -radius <= dy <= radius,
        in_frame(width, height, x + dx, y + dy),
    ensures
        window(width, height, x, y, radius).contains(neighbour_tap(width, x, y, dx, dy)),
{
    lemma_rows_taps_cover(width, height, x, y, radius, (2 * radius + 1) as nat, dx, dy);
}

proof fn lemma_tap_at_index(width: int, height: int, x: int, y: int, radius: int, dx: int, dy: int)
    requires
        valid_window(width, height, x, y, radius),
        in_frame(width, height, x + dx, y + dy),
    ensures
        tap_at(width, height, x, y, dx, dy).len() == 1,
        tap_at(width, height, x, y, dx, dy)[0].index == (y + dy) * width + (x + dx),
{
    let (nx, ny) = (x + dx, y + dy);
    assert(0 <= ny * width + nx < width * height) by (nonlinear_arith)
        requires 0 <= ny < height, 0 <= nx < width;
}

proof fn lemma_row_taps_increase(width: int, height: int, x: int, y: int, radius: int, dy: int, n: nat)
    requires
        valid_window(width, height, x, y, radius),
    ensures
        strictly_increasing(row_taps(width, height, x, y, radius, dy, n)),
        forall|i: int| 0 <= i < row_taps(width, height, x, y, radius, dy, n).len() ==> {
            let t = #[trigger] row_taps(width, height, x, y, radius, dy, n)[i];
            &&& (y + dy) * width <= t.index < (y + dy) * width + width
            &&& t.index < (y + dy) * width + x + (-radius + n)
        },
    decreases n,
{
    if n > 0 {
        lemma_row_taps_increase(width, height, x, y, radius, dy, (n - 1) as nat);
        let dx = -radius + n - 1;
        let prev = row_taps(width, height, x, y, radius, dy, (n - 1) as nat);
        let seg = tap_at(width, height, x, y, dx, dy);
        let all = row_taps(width, height, x, y, radius, dy, n);
        assert(all == prev + seg);
        if in_frame(width, height, x + dx, y + dy) {
            lemma_tap_at_index(width, height, x, y, radius, dx, dy);
        }
        assert forall|i: int| 0 <= i < all.len() implies {
            let t = #[trigger] all[i];
            &&& (y + dy) * width <= t.index < (y + dy) * width + width
            &&& t.index < (y + dy) * width + x + (-radius + n)
        } by {
            if i < prev.len() {
                assert(all[i] == prev[i]);
            } else {
                assert(all[i] == seg[i - prev.len()]);
            }
        }
        assert forall|i: int, j: int| 0 <= i < j < all.len() implies #[trigger] all[i].index < #[trigger] all[j].index by {
            if j < prev.len() {
                assert(all[i] == prev[i] && all[j] == prev[j]);
                assert(prev[i].index < prev[j].index);
            } else {
                assert(all[j] == seg[j - prev.len()]);
                assert(i < prev.len());
                assert(all[i] == prev[i]);
            }
        }
    }
}

proof fn lemma_rows_taps_increase(width: int, height: int, x: int, y: int, radius: int, m: nat)
    requires
        valid_window(width, height, x, y, radius),
        0 <= radius,
    ensures
        strictly_increasing(rows_taps(width, height, x, y, radius, m)),
        forall|i: int| 0 <= i < rows_taps(width, height, x, y, radius, m).len()
            ==> (#[trigger] rows_taps(width, height, x, y, radius, m)[i]).index < (y - radius + m) * width,
    decreases m,
{
    if m > 0 {
        lemma_rows_taps_increase(width, height, x, y, radius, (m - 1) as nat);
        let dy = -radius + m - 1;
        let n = (2 * radius + 1) as nat;
        lemma_row_taps_increase(width, height, x, y, radius, dy, n);
        let prev = rows_taps(width, height, x, y, radius, (m - 1) as nat);
        let row = row_taps(width, height, x, y, radius, dy, n);
        let all = rows_taps(width, height, x, y, radius, m);
        assert(all == prev + row);
        assert((y + dy) * width + width == (y - radius + m) * width) by (nonlinear_arith)
            requires dy == -radius + m - 1;
        assert forall|i: int| 0 <= i < all.len() implies (#[trigger] all[i]).index < (y - radius + m) * width by {
            if i < prev.len() {
                assert(all[i] == prev[i]);
            } else {
                assert(all[i] == row[i - prev.len()]);
            }
        }
        assert forall|i: int, j: int| 0 <= i < j < all.len() implies #[trigger] all[i].index < #[trigger] all[j].index by {
            if j < prev.len() {
                assert(all[i] == prev[i] && all[j] == prev[j]);
                assert(prev[i].index < prev[j].index);
            } else if i >= prev.len() {
                assert(all[i] == row[i - prev.len()] && all[j] == row[j - prev.len()]);
                assert(row[i - prev.len()].index < row[j - prev.len()].index);
            } else {
                assert(all[i] == prev[i] && all[j] == row[j - prev.len()]);
                assert(prev[i].index < (y + dy) * width);
                assert((y + dy) * width <= row[j - prev.len()].index);
            }
        }
    }
}

/// The filter reads each pixel at most once, in row-major order: the
/// indices of its window strictly increase. With the two lemmas above, the
/// window holds each in-frame pixel within the radius exactly once, and
/// nothing else.
pub proof fn lemma_window_is_strictly_increasing(width: int, height: int, x: int, y: int, radius: int)
    requires
        valid_window(width, height, x, y, radius),
    ensures
        strictly_increasing(window(width, height, x, y, radius)),
{
    if radius >= 0 {
        lemma_rows_taps_increase(width, height, x, y, radius, (2 * radius + 1) as nat);
    }
}

/// A tap that occurs in the window occurs at exactly one position.
pub proof fn lemma_window_taps_are_unique(width: int, height: int, x: int, y: int, radius: int, i: int, j: int)
    requires
        valid_window(width, height, x, y, radius),
        0 <= i < window(width, height, x, y, radius).len(),
        0 <= j < window(width, height, x, y, radius).len(),
        window(width, height, x, y, radius)[i].index == window(width, height, x, y, radius)[j].index,
    ensures
        i == j,
{
    lemma_window_is_strictly_increasing(width, height, x, y, radius);
    let s = window(width, height, x, y, radius);
    if i < j {
        assert(s[i].index < s[j].index);
    } else if j < i {
        assert(s[j].index < s[i].index);
    }
}

} // verus!
