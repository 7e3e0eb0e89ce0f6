//! The planar sweep: a bright line at an angle that travels over a block of text.

use vstd::prelude::*;
use crate::color::{blend_colors, blended};
use crate::cycle::{frames_per_cycle, ConfigError, CycleClock};
use crate::effects::shine::{along, along_way, in_pause_band, is_in_pause_band, opacity_of};
use crate::fixed::{
    floor_sqrt, is_floor_sqrt, isqrt, lemma_floor_sqrt_unique, lemma_share_bounds, share, share_of,
    SCALE,
};
use crate::frame::{chars_of, Cell, FrameTiming};

pub use crate::easing::{EasingFunction, MAX_STEPS};
pub use crate::effects::shine::ShineStart;

verus! {

/// The most rows, columns or padding that a planar sweep is computed for.
pub const MAX_EXTENT: usize = 0xFFFF_FFFF;

/// The width at which text is wrapped where none is set and none was detected.
pub const DEFAULT_WRAP_WIDTH: usize = 80;

/// Below this many millionths of a degree from 0 or from 90 the sweep is taken to
/// lie along an axis.
pub const AXIS_TOLERANCE: i64 = 10_000;

/// A quarter turn, in millionths of a degree.
pub const RIGHT_ANGLE: i64 = 90_000_000;

/// The slant of the bright line: the angle in millionths of a degree, and its
/// cosine and sine in millionths. Trigonometry is left to the caller; what is
/// handed in is not taken to be of length one.
#[derive(Debug, Clone, Copy, PartialEq, Eq, Structural)]
pub struct SweepAngle {
    pub degrees: i64,
    pub cos: i64,
    pub sin: i64,
}

/// What a planar sweep is made of. Times are in milliseconds, `pause_position` and
/// `opacity` in millionths.
#[derive(Debug, Clone, Copy)]
pub struct Shine2DConfig {
    pub base_color: (u8, u8, u8),
    pub speed: u64,
    pub easing: EasingFunction,
    pub duration: u64,
    pub cycles: u32,
    pub start: ShineStart,
    pub width: usize,
    pub blur: bool,
    pub padding: usize,
    pub shine_color: (u8, u8, u8),
    pub pause_length: Option<u64>,
    pub pause_position: u64,
    pub cycle_pre_delay: Option<u64>,
    pub cycle_post_delay: Option<u64>,
    pub cycle_switchback_delay: Option<u64>,
    pub opacity: u64,
    pub angle: SweepAngle,
    pub terminal_width: Option<usize>,
}

impl Default for Shine2DConfig {
    fn default() -> (config: Self)
        ensures
            config.base_color == (255u8, 255u8, 255u8),
            config.speed == 50,
            config.easing == EasingFunction::Linear,
            config.duration == 2000,
            config.cycles == 1,
            config.start == ShineStart::Beginning,
            config.width == 3,
            config.blur,
            config.padding == 5,
            config.shine_color == (255u8, 255u8, 0u8),
            config.pause_length.is_none(),
            config.pause_position == 500_000,
            config.cycle_pre_delay.is_none(),
            config.cycle_post_delay.is_none(),
            config.cycle_switchback_delay.is_none(),
            config.opacity == 1_000_000,
            config.angle == (SweepAngle { degrees: 90_000_000, cos: 0, sin: 1_000_000 }),
            config.terminal_width.is_none(),
    {
        Shine2DConfig {
            base_color: (255, 255, 255),
            speed: 50,
            easing: EasingFunction::Linear,
            duration: 2000,
            cycles: 1,
            start: ShineStart::Beginning,
            width: 3,
            blur: true,
            padding: 5,
            shine_color: (255, 255, 0),
            pause_length: None,
            pause_position: 500_000,
            cycle_pre_delay: None,
            cycle_post_delay: None,
            cycle_switchback_delay: None,
            opacity: 1_000_000,
            angle: SweepAngle { degrees: 90_000_000, cos: 0, sin: 1_000_000 },
            terminal_width: None,
        }
    }
}

/// A cell of the grid: its column and its row.
#[derive(Debug, Clone, Copy, PartialEq, Eq, Structural)]
pub struct Position2D {
    pub x: usize,
    pub y: usize,
}

/// Wrapping, part way through a text: the rows that are closed, and the row that is
/// still open. A newline closes the open row, whatever it holds. Any other
/// character joins the open row, and closes it if that brings the row to `width`.
pub open spec fn wrapped(chars: Seq<char>, width: int) -> (Seq<Seq<char>>, Seq<char>)
    decreases chars.len(),
{
    if chars.len() == 0 {
        (Seq::empty(), Seq::empty())
    } else {
        let (rows, open) = wrapped(chars.drop_last(), width);
        let ch = chars.last();
        if ch == '\n' {
            (rows.push(open), Seq::empty())
        } else if open.len() + 1 >= width {
            (rows.push(open.push(ch)), Seq::empty())
        } else {
            (rows, open.push(ch))
        }
    }
}

/// The grid of a text wrapped at `width`: the closed rows, and after them the open
/// row if it holds anything.
pub open spec fn grid_of(chars: Seq<char>, width: int) -> Seq<Seq<char>> {
    let (rows, open) = wrapped(chars, width);
    if open.len() > 0 {
        rows.push(open)
    } else {
        rows
    }
}

/// The rows of a grid as sequences.
pub open spec fn rows_of(grid: Seq<Vec<char>>) -> Seq<Seq<char>> {
    Seq::new(grid.len(), |i: int| grid[i]@)
}

/// No row of a wrapped text is longer than the width it was wrapped at, or than
/// one character where that width is 0; and the open row is shorter than that.
pub proof fn lemma_wrapped_row_lengths(chars: Seq<char>, width: int)
    ensures
        forall|r: int|
            0 <= r < wrapped(chars, width).0.len() ==> (#[trigger] wrapped(chars, width).0[r]).len()
                <= width || wrapped(chars, width).0[r].len() <= 1,
        wrapped(chars, width).1.len() < width || wrapped(chars, width).1.len() == 0,
        forall|r: int|
            0 <= r < grid_of(chars, width).len() ==> (#[trigger] grid_of(chars, width)[r]).len()
                <= width || grid_of(chars, width)[r].len() <= 1,
    decreases chars.len(),
{
    if chars.len() > 0 {
        lemma_wrapped_row_lengths(chars.drop_last(), width);
    }
}

/// The test for a character that is no newline.
pub open spec fn is_printed() -> spec_fn(char) -> bool {
    |ch: char| ch != '\n'
}

/// Wrapping loses nothing but the newlines: the rows of a wrapped text, one after
/// the other, are the text without its newlines.
pub proof fn lemma_wrapped_keeps_text(chars: Seq<char>, width: int)
    ensures
        wrapped(chars, width).0.flatten() + wrapped(chars, width).1 == chars.filter(is_printed()),
        grid_of(chars, width).flatten() == chars.filter(is_printed()),
    decreases chars.len(),
{
    reveal(Seq::filter);
    let (rows, open) = wrapped(chars, width);
    if chars.len() == 0 {
        assert(rows.flatten() + open =~= chars.filter(is_printed()));
    } else {
        let (before, still_open) = wrapped(chars.drop_last(), width);
        let kept = chars.drop_last().filter(is_printed());
        let ch = chars.last();
        lemma_wrapped_keeps_text(chars.drop_last(), width);
        assert(chars.drop_last().push(ch) =~= chars);
        chars.drop_last().lemma_filter_push(ch, is_printed());
        if ch == '\n' {
            before.lemma_flatten_push(still_open);
            assert(rows.flatten() + open =~= kept);
        } else if still_open.len() + 1 >= width {
            before.lemma_flatten_push(still_open.push(ch));
            assert(rows.flatten() + open =~= kept.push(ch));
        } else {
            assert(rows.flatten() + open =~= kept.push(ch));
        }
    }
    if open.len() > 0 {
        rows.lemma_flatten_push(open);
    } else {
        assert(rows.flatten() + open =~= rows.flatten());
    }
}

/// Wraps a text into rows of at most `terminal_width` characters, breaking at every
/// newline as well.
pub fn wrap_text_to_grid(text: &str, terminal_width: usize) -> (grid: Vec<Vec<char>>)
    ensures
        rows_of(grid@) == grid_of(text@, terminal_width as int),
{
    let chars = chars_of(text);
    let mut grid: Vec<Vec<char>> = Vec::new();
    let mut current_line: Vec<char> = Vec::new();
    let mut i: usize = 0;
    proof {
        assert(chars@.take(0) =~= Seq::<char>::empty());
        assert(rows_of(grid@) =~= Seq::<Seq<char>>::empty());
    }
    while i < chars.len()
        invariant
            i <= chars@.len(),
            chars@ == text@,
            rows_of(grid@) == wrapped(chars@.take(i as int), terminal_width as int).0,
            current_line@ == wrapped(chars@.take(i as int), terminal_width as int).1,
        decreases chars@.len() - i,
    {
        let ch = chars[i];
        let ghost closed = grid@;
        proof {
            assert(chars@.take(i + 1).drop_last() =~= chars@.take(i as int));
        }
        if ch == '\n' {
            grid.push(current_line);
            proof {
                assert(rows_of(grid@) =~= rows_of(closed).push(current_line@));
            }
            current_line = Vec::new();
        } else {
            current_line.push(ch);
            if current_line.len() >= terminal_width {
                grid.push(current_line);
                proof {
                    assert(rows_of(grid@) =~= rows_of(closed).push(current_line@));
                }
                current_line = Vec::new();
            }
        }
        i += 1;
    }
    proof {
        assert(chars@.take(i as int) =~= chars@);
    }
    if current_line.len() > 0 {
        let ghost closed = grid@;
        grid.push(current_line);
        proof {
            assert(rows_of(grid@) =~= rows_of(closed).push(current_line@));
        }
    }
    grid
}

/// The length of the longest row.
pub open spec fn widest(rows: Seq<Seq<char>>) -> int
    decreases rows.len(),
{
    if rows.len() == 0 {
        0
    } else {
        let rest = widest(rows.drop_last());
        if rows.last().len() > rest {
            rows.last().len() as int
        } else {
            rest
        }
    }
}

/// The length of the longest row of a grid.
pub fn max_row_width(grid: &Vec<Vec<char>>) -> (width: usize)
    ensures
        width as int == widest(rows_of(grid@)),
{
    let mut width: usize = 0;
    let mut i: usize = 0;
    proof {
        assert(rows_of(grid@).take(0) =~= Seq::<Seq<char>>::empty());
    }
    while i < grid.len()
        invariant
            i <= grid@.len(),
            width as int == widest(rows_of(grid@).take(i as int)),
        decreases grid@.len() - i,
    {
        proof {
            assert(rows_of(grid@).take(i + 1).drop_last() =~= rows_of(grid@).take(i as int));
        }
        if grid[i].len() > width {
            width = grid[i].len();
        }
        i += 1;
    }
    proof {
        assert(rows_of(grid@).take(i as int) =~= rows_of(grid@));
    }
    width
}

/// The absolute value.
pub open spec fn magnitude(x: int) -> int {
    if x < 0 {
        -x
    } else {
        x
    }
}

/// Whether the angle is within a hundredth of a degree of 0: the bright line then
/// lies along the rows and travels down them.
pub open spec fn is_horizontal(angle: SweepAngle) -> bool {
    -AXIS_TOLERANCE < angle.degrees < AXIS_TOLERANCE
}

/// Whether the angle is within a hundredth of a degree of 90: the bright line then
/// lies along the columns and travels across them.
pub open spec fn is_vertical(angle: SweepAngle) -> bool {
    -AXIS_TOLERANCE < angle.degrees - RIGHT_ANGLE < AXIS_TOLERANCE
}

/// The length of the direction handed in with an angle, in millionths:
/// `sqrt(cos² + sin²)`, rounded down. It is 0 only where both cosine and sine are.
pub open spec fn direction_length(cos: int, sin: int) -> int {
    floor_sqrt(cos * cos + sin * sin)
}

/// The distance, in millionths of a cell, from cell `(x, y)` to the line
/// `cos · x + sin · y = shine_line`, for a direction of length `length` that is
/// not 0: `|cos · x + sin · y − shine_line| / length`, rounded down.
pub open spec fn slanted_distance(x: int, y: int, shine_line: int, cos: int, sin: int, length: int) -> int {
    magnitude(cos * x + sin * y - shine_line) * SCALE / length
}

/// The distance, in millionths of a cell, from a cell to the bright line, where
/// there is one: along an axis, the distance to the line's row or column; else
/// the distance to the slanted line, if the direction has a length.
pub open spec fn line_distance(pos: Position2D, shine_line: int, angle: SweepAngle) -> Option<int> {
    if is_horizontal(angle) {
        Some(magnitude(pos.y * SCALE - shine_line))
    } else if is_vertical(angle) {
        Some(magnitude(pos.x * SCALE - shine_line))
    } else {
        let length = direction_length(angle.cos as int, angle.sin as int);
        if length == 0 {
            None
        } else {
            Some(
                slanted_distance(
                    pos.x as int,
                    pos.y as int,
                    shine_line,
                    angle.cos as int,
                    angle.sin as int,
                    length,
                ),
            )
        }
    }
}

/// How strongly a bright line of `width` cells lights a cell at `distance`
/// millionths of a cell from it. Blurred, the light falls off evenly to nothing at
/// `width`; unblurred, the cells within half a cell of the line are lit in full.
/// A blurred line of width 0 gives no light, and neither does a line that the cell
/// has no distance to.
pub open spec fn line_intensity(distance: Option<int>, width: int, blur: bool) -> int {
    match distance {
        None => 0,
        Some(d) => if d > width * SCALE {
            0
        } else if blur {
            if width == 0 {
                0
            } else {
                SCALE - d / width
            }
        } else if 2 * d <= SCALE {
            SCALE as int
        } else {
            0
        },
    }
}

/// With cosine one and sine nothing, the slanted distance is the distance to a
/// column; with cosine nothing and sine one, the distance to a row. So the slanted
/// line runs into the sweep along an axis, the one of a quarter turn further.
pub proof fn lemma_slanted_meets_axes(x: int, y: int, shine_line: int)
    ensures
        direction_length(SCALE as int, 0) == SCALE,
        direction_length(0, SCALE as int) == SCALE,
        slanted_distance(x, y, shine_line, SCALE as int, 0, SCALE as int) == magnitude(
            x * SCALE - shine_line,
        ),
        slanted_distance(x, y, shine_line, 0, SCALE as int, SCALE as int) == magnitude(
            y * SCALE - shine_line,
        ),
{
    let s = SCALE as int;
    assert(is_floor_sqrt(s, s * s + 0 * 0)) by (nonlinear_arith)
        requires
            s == 1_000_000,
    ;
    assert(is_floor_sqrt(s, 0 * 0 + s * s)) by (nonlinear_arith)
        requires
            s == 1_000_000,
    ;
    lemma_floor_sqrt_unique(s, direction_length(s, 0), s * s + 0 * 0);
    lemma_floor_sqrt_unique(s, direction_length(0, s), 0 * 0 + s * s);
    let across = magnitude(x * SCALE - shine_line);
    let down = magnitude(y * SCALE - shine_line);
    assert(s * x + 0 * y - shine_line == x * s - shine_line) by (nonlinear_arith);
    assert(0 * x + s * y - shine_line == y * s - shine_line) by (nonlinear_arith);
    assert(across * s / s == across) by (nonlinear_arith)
        requires
            s > 0,
    ;
    assert(down * s / s == down) by (nonlinear_arith)
        requires
            s > 0,
    ;
}

/// The length of the direction handed in with an angle.
pub fn direction_len(angle: &SweepAngle) -> (length: u64)
    ensures
        length as int == direction_length(angle.cos as int, angle.sin as int),
        is_floor_sqrt(length as int, angle.cos * angle.cos + angle.sin * angle.sin),
{
    let cos: u128 = if angle.cos < 0 {
        (-(angle.cos as i128)) as u128
    } else {
        angle.cos as u128
    };
    let sin: u128 = if angle.sin < 0 {
        (-(angle.sin as i128)) as u128
    } else {
        angle.sin as u128
    };
    proof {
        let limit = 0x8000_0000_0000_0000int;
        assert(cos * cos <= limit * limit && cos * cos == angle.cos * angle.cos) by (nonlinear_arith)
            requires
                0 <= cos <= limit,
                cos == angle.cos || cos == -angle.cos,
        ;
        assert(sin * sin <= limit * limit && sin * sin == angle.sin * angle.sin) by (nonlinear_arith)
            requires
                0 <= sin <= limit,
                sin == angle.sin || sin == -angle.sin,
        ;
        assert(limit * limit + limit * limit <= u128::MAX);
    }
    isqrt(cos * cos + sin * sin)
}

/// How strongly the bright line at `shine_line`, in millionths of a cell, lights
/// the cell `pos`, in millionths.
pub fn calculate_2d_shine_intensity(
    pos: &Position2D,
    shine_line: i64,
    angle: &SweepAngle,
    width: usize,
    blur: bool,
) -> (intensity: u64)
    requires
        pos.x <= MAX_EXTENT,
        pos.y <= MAX_EXTENT,
    ensures
        intensity as int == line_intensity(
            line_distance(*pos, shine_line as int, *angle),
            width as int,
            blur,
        ),
        intensity <= SCALE,
{
    let x: i128 = pos.x as i128;
    let y: i128 = pos.y as i128;
    let line: i128 = shine_line as i128;
    assert(0 <= x * SCALE <= 0xFFFF_FFFF * 1_000_000 && 0 <= y * SCALE <= 0xFFFF_FFFF * 1_000_000)
        by (nonlinear_arith)
        requires
            0 <= x <= 0xFFFF_FFFF,
            0 <= y <= 0xFFFF_FFFF,
            SCALE == 1_000_000,
    ;
    let distance: u128;
    if -AXIS_TOLERANCE < angle.degrees && angle.degrees < AXIS_TOLERANCE {
        let gap: i128 = y * SCALE as i128 - line;
        distance = if gap < 0 {
            (-gap) as u128
        } else {
            gap as u128
        };
    } else if RIGHT_ANGLE - AXIS_TOLERANCE < angle.degrees && angle.degrees < RIGHT_ANGLE
        + AXIS_TOLERANCE {
        let gap: i128 = x * SCALE as i128 - line;
        distance = if gap < 0 {
            (-gap) as u128
        } else {
            gap as u128
        };
    } else {
        let length = direction_len(angle);
        if length == 0 {
            return 0;
        }
        let limit: i128 = 0x8000_0000_0000_0000;
        let cos: i128 = angle.cos as i128;
        let sin: i128 = angle.sin as i128;
        assert(-limit * 0xFFFF_FFFF <= cos * x <= limit * 0xFFFF_FFFF) by (nonlinear_arith)
            requires
                -limit <= cos <= limit,
                0 <= x <= 0xFFFF_FFFF,
        ;
        assert(-limit * 0xFFFF_FFFF <= sin * y <= limit * 0xFFFF_FFFF) by (nonlinear_arith)
            requires
                -limit <= sin <= limit,
                0 <= y <= 0xFFFF_FFFF,
        ;
        let gap: i128 = cos * x + sin * y - line;
        let reach: u128 = if gap < 0 {
            (-gap) as u128
        } else {
            gap as u128
        };
        distance = reach * SCALE as u128 / length as u128;
    }
    let reach_of_light: u128 = width as u128 * SCALE as u128;
    if distance > reach_of_light {
        0
    } else if blur {
        if width == 0 {
            0
        } else {
            let fall: u128 = distance / width as u128;
            assert(fall <= SCALE) by (nonlinear_arith)
                requires
                    fall == distance / (width as u128),
                    distance <= width * SCALE,
                    width > 0,
            ;
            SCALE - fall as u64
        }
    } else if 2 * distance <= SCALE as u128 {
        SCALE
    } else {
        0
    }
}

/// The longest row is as long as any row.
pub proof fn lemma_widest_bounds(rows: Seq<Seq<char>>, r: int)
    requires
        0 <= r < rows.len(),
    ensures
        rows[r].len() <= widest(rows),
    decreases rows.len(),
{
    if r < rows.len() - 1 {
        lemma_widest_bounds(rows.drop_last(), r);
    }
}

/// The width at which a text is wrapped: the width that is set, else the width
/// that was detected, else 80.
pub open spec fn wrap_width_of(configured: Option<usize>, detected: Option<u16>) -> int {
    match configured {
        Some(width) => width as int,
        None => match detected {
            Some(width) => width as int,
            None => DEFAULT_WRAP_WIDTH as int,
        },
    }
}

/// The width at which a text is wrapped.
pub fn wrap_width(configured: Option<usize>, detected: Option<u16>) -> (width: usize)
    ensures
        width as int == wrap_width_of(configured, detected),
{
    match configured {
        Some(width) => width,
        None => match detected {
            Some(width) => width as usize,
            None => DEFAULT_WRAP_WIDTH,
        },
    }
}

/// The diagonal of a grid of `columns` by `rows` cells, in millionths of a cell,
/// rounded down.
pub open spec fn diagonal_of(columns: int, rows: int) -> int {
    floor_sqrt((columns * columns + rows * rows) * (SCALE * SCALE))
}

/// The diagonal of a grid, in millionths of a cell.
pub fn grid_diagonal(columns: usize, rows: usize) -> (diagonal: u64)
    requires
        columns <= MAX_EXTENT,
        rows <= MAX_EXTENT,
    ensures
        diagonal as int == diagonal_of(columns as int, rows as int),
        diagonal <= 0x2_0000_0000 * SCALE,
{
    let c: u128 = columns as u128;
    let r: u128 = rows as u128;
    assert(c * c <= 0xFFFF_FFFF * 0xFFFF_FFFF) by (nonlinear_arith)
        requires
            0 <= c <= 0xFFFF_FFFF,
    ;
    assert(r * r <= 0xFFFF_FFFF * 0xFFFF_FFFF) by (nonlinear_arith)
        requires
            0 <= r <= 0xFFFF_FFFF,
    ;
    let squares: u128 = c * c + r * r;
    assert(squares * (SCALE * SCALE) <= 0x2_0000_0000_0000_0000 * 1_000_000_000_000) by (nonlinear_arith)
        requires
            0 <= squares <= 0x2_0000_0000_0000_0000,
            SCALE == 1_000_000,
    ;
    let scaled: u128 = squares * (SCALE as u128 * SCALE as u128);
    let diagonal = isqrt(scaled);
    proof {
        let bound: int = 0x2_0000_0000int * 1_000_000int;
        if diagonal as int > bound {
            assert(diagonal * diagonal > bound * bound) by (nonlinear_arith)
                requires
                    diagonal > bound,
                    bound >= 0,
            ;
            assert(bound * bound >= 0x2_0000_0000_0000_0000 * 1_000_000_000_000);
        }
    }
    diagonal
}

/// A block of text, wrapped into a grid, and the bright line that runs over it.
pub struct Shine2DRenderer {
    pub grid: Vec<Vec<char>>,
    pub config: Shine2DConfig,
    pub clock: CycleClock,
    pub max_width: usize,
    pub diagonal: u64,
}

impl Shine2DRenderer {
    /// The renderer's invariant. The longest row is that of the grid. Where the grid
    /// is not blank, the clock is that of the configuration, the diagonal is that
    /// of the grid, and grid and padding are within what the sweep is computed
    /// for.
    pub open spec fn wf(&self) -> bool {
        &&& self.clock.wf()
        &&& self.config.speed != 0
        &&& self.max_width as int == widest(rows_of(self.grid@))
        &&& !self.blank() ==> {
            &&& self.clock.total_frames as int == frames_per_cycle(
                self.config.duration as int,
                self.config.speed as int,
            )
            &&& self.clock.cycles == self.config.cycles
            &&& self.clock.easing == self.config.easing
            &&& self.grid@.len() <= MAX_EXTENT
            &&& self.max_width <= MAX_EXTENT
            &&& self.config.padding <= MAX_EXTENT
            &&& self.diagonal as int == diagonal_of(self.max_width as int, self.grid@.len() as int)
            &&& self.diagonal <= 0x2_0000_0000 * SCALE
        }
    }

    /// There is nothing to animate: the grid has no rows, or only empty ones.
    pub open spec fn blank(&self) -> bool {
        is_blank_grid(rows_of(self.grid@))
    }

    /// The length of the bright line's way, in millionths of a cell: the grid's
    /// diagonal and the padding at both ends.
    pub open spec fn range(&self) -> int {
        self.diagonal + 2 * self.config.padding * SCALE
    }

    /// The place of the bright line on `frame`, in millionths of a cell:
    /// `along · range − padding`.
    pub open spec fn position_at(&self, frame: int) -> int {
        share(
            along(self.clock.sweep_at(frame), self.clock.whole(), self.config.start),
            self.range(),
            self.clock.whole(),
        ) - self.config.padding * SCALE
    }

    /// What is drawn at column `x` of row `y` on `frame`: the text's character, in
    /// the base colour where the line gives it no light, else blended towards the
    /// shine colour by the light times the opacity.
    pub open spec fn cell_at(&self, frame: int, x: int, y: int) -> Cell {
        let intensity = line_intensity(
            line_distance(
                Position2D { x: x as usize, y: y as usize },
                self.position_at(frame),
                self.config.angle,
            ),
            self.config.width as int,
            self.config.blur,
        );
        Cell {
            glyph: self.grid@[y]@[x],
            color: if intensity > 0 {
                blended(
                    self.config.base_color,
                    self.config.shine_color,
                    share(intensity, opacity_of(self.config.opacity as int), SCALE as int),
                )
            } else {
                self.config.base_color
            },
        }
    }

    /// The waits around `frame`, as for the linear sweep.
    pub open spec fn timing_at(&self, frame: int) -> FrameTiming {
        FrameTiming {
            cycle_pre_delay: if frame == 0 {
                self.config.cycle_pre_delay
            } else {
                None
            },
            switchback_delay: if self.clock.turns_at(frame) {
                self.config.cycle_switchback_delay
            } else {
                None
            },
            pause: if in_pause_band(
                self.position_at(frame) + self.config.padding * SCALE,
                self.range(),
                self.config.pause_position as int,
            ) {
                self.config.pause_length
            } else {
                None
            },
            frame_delay: self.config.speed,
            cycle_post_delay: if frame + 1 == self.clock.total_frames {
                self.config.cycle_post_delay
            } else {
                None
            },
        }
    }

    /// Wraps a block of text and sets up the sweep over it. The text is wrapped at
    /// the configured width, else at `detected_width`, else at 80.
    ///
    /// A zero `speed` is refused. A blank grid is not animated, and nothing else of
    /// the configuration is held against it: its clock is that of a single still
    /// frame. Of any other grid, a cycle of more than `MAX_STEPS` frames is
    /// refused, and so are a grid or a padding beyond `MAX_EXTENT`.
    pub fn new(text: &str, config: Shine2DConfig, detected_width: Option<u16>) -> (r: Result<
        Shine2DRenderer,
        ConfigError,
    >)
        ensures
            r is Err <==> config.speed == 0 || (!is_blank_grid(
                grid_of(text@, wrap_width_of(config.terminal_width, detected_width)),
            ) && (config.duration / config.speed > MAX_STEPS || too_large(
                grid_of(text@, wrap_width_of(config.terminal_width, detected_width)),
                config.padding as int,
            ))),
            r matches Err(e) ==> e == if config.speed == 0 {
                ConfigError::ZeroSpeed
            } else {
                ConfigError::TooLarge
            },
            r matches Ok(renderer) ==> {
                &&& renderer.wf()
                &&& renderer.config == config
                &&& rows_of(renderer.grid@) == grid_of(
                    text@,
                    wrap_width_of(config.terminal_width, detected_width),
                )
                &&& renderer.blank() ==> renderer.clock == CycleClock::still_clock(config.easing)
            },
    {
        if config.speed == 0 {
            return Err(ConfigError::ZeroSpeed);
        }
        let grid = wrap_text_to_grid(text, wrap_width(config.terminal_width, detected_width));
        let max_width = max_row_width(&grid);
        if grid.len() == 0 || max_width == 0 {
            let clock = CycleClock::still(config.easing);
            return Ok(Shine2DRenderer { grid, config, clock, max_width, diagonal: 0 });
        }
        let clock = match CycleClock::new(config.speed, config.duration, config.cycles, config.easing) {
            Ok(clock) => clock,
            Err(e) => {
                return Err(e);
            },
        };
        if grid.len() > MAX_EXTENT || max_width > MAX_EXTENT || config.padding > MAX_EXTENT {
            return Err(ConfigError::TooLarge);
        }
        let diagonal = grid_diagonal(max_width, grid.len());
        Ok(Shine2DRenderer { grid, config, clock, max_width, diagonal })
    }

    /// Whether there is nothing to animate: the grid has no rows, or only empty
    /// ones. A single blank line stands for such a text.
    pub fn is_blank(&self) -> (r: bool)
        requires
            self.wf(),
        ensures
            r == self.blank(),
    {
        self.grid.len() == 0 || self.max_width == 0
    }

    /// The place of the bright line on `frame`, in millionths of a cell.
    pub fn position(&self, frame: u64) -> (position: i64)
        requires
            self.wf(),
            !self.blank(),
            frame < self.clock.total_frames,
        ensures
            position as int == self.position_at(frame as int),
            -self.config.padding * SCALE <= position <= self.range() - self.config.padding * SCALE,
            self.range() <= 0x4_0000_0000 * SCALE,
    {
        let covered = along_way(self.clock.sweep_progress(frame), self.config.start);
        let margin: u64 = self.config.padding as u64 * SCALE;
        let range: u64 = self.diagonal + 2 * margin;
        proof {
            assert(self.config.padding * SCALE == margin);
            assert(2 * self.config.padding * SCALE == 2 * margin) by (nonlinear_arith)
                requires
                    self.config.padding * SCALE == margin,
            ;
        }
        let reached: u64 = covered.of(range);
        reached as i64 - margin as i64
    }

    /// The waits around `frame`.
    pub fn timing(&self, frame: u64) -> (timing: FrameTiming)
        requires
            self.wf(),
            !self.blank(),
            frame < self.clock.total_frames,
        ensures
            timing == self.timing_at(frame as int),
    {
        let position = self.position(frame);
        let margin: u64 = self.config.padding as u64 * SCALE;
        let range: u64 = self.diagonal + 2 * margin;
        proof {
            assert(2 * self.config.padding * SCALE == 2 * margin) by (nonlinear_arith)
                requires
                    self.config.padding * SCALE == margin,
            ;
        }
        let offset: u64 = (position + margin as i64) as u64;
        let lingers = is_in_pause_band(offset, range, self.config.pause_position);
        FrameTiming {
            cycle_pre_delay: if frame == 0 {
                self.config.cycle_pre_delay
            } else {
                None
            },
            switchback_delay: if self.clock.crosses_midpoint(frame) {
                self.config.cycle_switchback_delay
            } else {
                None
            },
            pause: if lingers {
                self.config.pause_length
            } else {
                None
            },
            frame_delay: self.config.speed,
            cycle_post_delay: if self.clock.is_last_frame(frame) {
                self.config.cycle_post_delay
            } else {
                None
            },
        }
    }

    /// Row `y` of the grid as it is drawn with the bright line at `position`.
    fn render_row(&self, y: usize, position: i64, frame: Ghost<int>) -> (cells: Vec<Cell>)
        requires
            self.wf(),
            !self.blank(),
            y < self.grid@.len(),
            position as int == self.position_at(frame@),
        ensures
            cells@.len() == self.grid@[y as int]@.len(),
            forall|x: int| 0 <= x < cells@.len() ==> cells@[x] == self.cell_at(frame@, x, y as int),
    {
        let row = &self.grid[y];
        let opacity: u64 = if self.config.opacity > SCALE {
            SCALE
        } else {
            self.config.opacity
        };
        proof {
            lemma_widest_bounds(rows_of(self.grid@), y as int);
        }
        let mut cells: Vec<Cell> = Vec::new();
        let mut x: usize = 0;
        while x < row.len()
            invariant
                self.wf(),
                !self.blank(),
                y < self.grid@.len(),
                row@ == self.grid@[y as int]@,
                row@.len() <= MAX_EXTENT,
                position as int == self.position_at(frame@),
                opacity as int == opacity_of(self.config.opacity as int),
                x <= row@.len(),
                cells@.len() == x,
                forall|j: int| 0 <= j < x ==> cells@[j] == self.cell_at(frame@, j, y as int),
            decreases row@.len() - x,
        {
            let pos = Position2D { x, y };
            let intensity = calculate_2d_shine_intensity(
                &pos,
                position,
                &self.config.angle,
                self.config.width,
                self.config.blur,
            );
            let color = if intensity > 0 {
                blend_colors(
                    self.config.base_color,
                    self.config.shine_color,
                    share_of(intensity, opacity, SCALE) as i64,
                )
            } else {
                self.config.base_color
            };
            let cell = Cell { glyph: row[x], color };
            let ghost drawn = cells@;
            assert(cell == self.cell_at(frame@, x as int, y as int));
            cells.push(cell);
            assert(cells@ == drawn.push(cell));
            x += 1;
        }
        cells
    }

    /// The rows of a blank grid: as many as the grid has, all of them empty.
    fn render_blank(&self) -> (rows: Vec<Vec<Cell>>)
        requires
            self.wf(),
            self.blank(),
        ensures
            rows@.len() == self.grid@.len(),
            forall|y: int| 0 <= y < rows@.len() ==> (#[trigger] rows@[y])@.len() == 0
                && self.grid@[y]@.len() == 0,
    {
        let mut rows: Vec<Vec<Cell>> = Vec::new();
        let mut y: usize = 0;
        while y < self.grid.len()
            invariant
                self.wf(),
                self.blank(),
                y <= self.grid@.len(),
                rows@.len() == y,
                forall|r: int| 0 <= r < y ==> (#[trigger] rows@[r])@.len() == 0
                    && self.grid@[r]@.len() == 0,
            decreases self.grid@.len() - y,
        {
            proof {
                lemma_widest_bounds(rows_of(self.grid@), y as int);
            }
            let ghost drawn = rows@;
            let row: Vec<Cell> = Vec::new();
            rows.push(row);
            assert(rows@ == drawn.push(row));
            y += 1;
        }
        rows
    }

    /// The grid as it is drawn on `frame`, row by row.
    pub fn render(&self, frame: u64) -> (rows: Vec<Vec<Cell>>)
        requires
            self.wf(),
            frame < self.clock.total_frames,
        ensures
            rows@.len() == self.grid@.len(),
            forall|y: int| 0 <= y < rows@.len() ==> (#[trigger] rows@[y])@.len() == self.grid@[y]@.len(),
            forall|y: int, x: int|
                0 <= y < rows@.len() && 0 <= x < rows@[y]@.len() ==> #[trigger] rows@[y]@[x]
                    == self.cell_at(frame as int, x, y),
    {
        if self.is_blank() {
            return self.render_blank();
        }
        let position = self.position(frame);
        let mut rows: Vec<Vec<Cell>> = Vec::new();
        let mut y: usize = 0;
        while y < self.grid.len()
            invariant
                self.wf(),
                !self.blank(),
                position as int == self.position_at(frame as int),
                y <= self.grid@.len(),
                rows@.len() == y,
                forall|r: int| 0 <= r < y ==> (#[trigger] rows@[r])@.len() == self.grid@[r]@.len(),
                forall|r: int, x: int|
                    0 <= r < y && 0 <= x < rows@[r]@.len() ==> #[trigger] rows@[r]@[x] == self.cell_at(
                        frame as int,
                        x,
                        r,
                    ),
            decreases self.grid@.len() - y,
        {
            let cells = self.render_row(y, position, Ghost(frame as int));
            let ghost drawn = rows@;
            rows.push(cells);
            assert(rows@ == drawn.push(cells));
            y += 1;
        }
        rows
    }
}

/// A grid with nothing to animate: it has no rows, or only empty ones.
pub open spec fn is_blank_grid(rows: Seq<Seq<char>>) -> bool {
    rows.len() == 0 || widest(rows) == 0
}

/// A grid has more rows or columns, or a sweep more padding, than `MAX_EXTENT`.
pub open spec fn too_large(rows: Seq<Seq<char>>, padding: int) -> bool {
    rows.len() > MAX_EXTENT || widest(rows) > MAX_EXTENT || padding > MAX_EXTENT
}

} // verus!
