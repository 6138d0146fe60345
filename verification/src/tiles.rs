//! The grid of tiles that the host draws: its size and the number of each
//! tile, as they stand in a text.
//!
//! The first line of the text holds the width and the height; what follows
//! it holds the tiles, row by row, parted by white space.

use crate::text::{
    chars_of, count_of, is_line_feed, line_end, lines_of, literal_of, parse_count, parse_literal,
    part, run_length, split_lines, split_tokens, texts, tokens_of,
};
use vstd::prelude::*;

verus! {

/// Why a text is no grid.
#[derive(Debug, Clone, Copy, PartialEq, Eq, Structural)]
pub enum GridError {
    /// The first line does not hold two tokens.
    NoSize,
    /// The width, the height or a tile is no number.
    BadNumber,
    /// Nothing follows the first line, not even a line feed.
    NoTiles,
    /// There are fewer tiles than the width and the height ask for.
    TooFewTiles,
}

/// A grid of tiles.
#[derive(Debug, PartialEq, Eq)]
pub struct TileGrid {
    pub width: usize,
    pub height: usize,
    pub tiles: Vec<u32>,
}

/// A `TileGrid` as a value.
pub struct Grid {
    pub width: usize,
    pub height: usize,
    pub tiles: Seq<u32>,
}

impl Grid {
    /// Whether there is a tile for every place of the grid.
    pub open spec fn wf(self) -> bool {
        self.width * self.height <= self.tiles.len()
    }
}

impl View for TileGrid {
    type V = Grid;

    open spec fn view(&self) -> Grid {
        Grid { width: self.width, height: self.height, tiles: self.tiles@ }
    }
}

/// How much of its place a tile bars.
#[derive(Debug, Clone, Copy, PartialEq, Eq, Structural)]
pub enum Wall {
    /// The whole place.
    Whole,
    /// The part to the left.
    LeftPart,
    /// The part to the right.
    RightPart,
    /// The lower part.
    LowerPart,
    /// The upper part.
    UpperPart,
}

/// What the tile with the number `tile` bars: tiles 5, 7, 21 and 23 their
/// whole place, tiles 6, 22, 13 and 15 a part of it, and every other tile
/// nothing.
pub open spec fn wall(tile: u32) -> Option<Wall> {
    if tile == 5 || tile == 7 || tile == 21 || tile == 23 {
        Some(Wall::Whole)
    } else if tile == 6 {
        Some(Wall::LeftPart)
    } else if tile == 22 {
        Some(Wall::RightPart)
    } else if tile == 13 {
        Some(Wall::LowerPart)
    } else if tile == 15 {
        Some(Wall::UpperPart)
    } else {
        None
    }
}

/// What the tile with the number `tile` bars.
pub fn wall_of(tile: u32) -> (barred: Option<Wall>)
    ensures
        barred == wall(tile),
{
    match tile {
        5 | 7 | 21 | 23 => Some(Wall::Whole),
        6 => Some(Wall::LeftPart),
        22 => Some(Wall::RightPart),
        13 => Some(Wall::LowerPart),
        15 => Some(Wall::UpperPart),
        _ => None,
    }
}

/// The numbers that the tokens stand for, or `None` where one of them
/// stands for none.
pub open spec fn values_of(tokens: Seq<Seq<char>>) -> Option<Seq<u32>>
    decreases tokens.len(),
{
    if tokens.len() == 0 {
        Some(Seq::empty())
    } else {
        match (values_of(tokens.drop_last()), literal_of(tokens.last())) {
            (Some(values), Some(value)) => Some(values.push(value)),
            _ => None,
        }
    }
}

/// Once a token stands for no number, more tokens do not change that.
pub proof fn lemma_values_stay_missing(tokens: Seq<Seq<char>>, n: int)
    requires
        0 <= n <= tokens.len(),
        values_of(tokens.take(n)) is None,
    ensures
        values_of(tokens) is None,
    decreases tokens.len() - n,
{
    if n == tokens.len() {
        assert(tokens.take(n) =~= tokens);
    } else {
        assert(tokens.take(n + 1).drop_last() =~= tokens.take(n));
        lemma_values_stay_missing(tokens, n + 1);
    }
}

/// The grid that a text holds, or why it holds none.
pub open spec fn grid_of(text: Seq<char>) -> Result<Grid, GridError> {
    let lines = lines_of(text);
    let sizes = tokens_of(lines[0]);
    let feed = run_length(text, is_line_feed());
    let cells = values_of(tokens_of(text.skip(feed + 1)));
    if lines.len() == 0 || sizes.len() < 2 {
        Err(GridError::NoSize)
    } else if count_of(sizes[0]) is None || count_of(sizes[1]) is None {
        Err(GridError::BadNumber)
    } else if feed >= text.len() {
        Err(GridError::NoTiles)
    } else if cells is None {
        Err(GridError::BadNumber)
    } else if count_of(sizes[0])->Some_0 * count_of(sizes[1])->Some_0 > cells->Some_0.len() {
        Err(GridError::TooFewTiles)
    } else {
        Ok(
            Grid {
                width: count_of(sizes[0])->Some_0,
                height: count_of(sizes[1])->Some_0,
                tiles: cells->Some_0,
            },
        )
    }
}

/// Reads the numbers that the tokens stand for.
pub fn parse_values(tokens: &Vec<Vec<char>>) -> (values: Option<Vec<u32>>)
    ensures
        values is Some <==> values_of(texts(tokens@)) is Some,
        values matches Some(read) ==> values_of(texts(tokens@)) == Some(read@),
{
    let mut read: Vec<u32> = Vec::new();
    let mut i: usize = 0;
    assert(texts(tokens@).take(0) =~= Seq::empty());
    while i < tokens.len()
        invariant
            i <= tokens.len(),
            values_of(texts(tokens@).take(i as int)) == Some(read@),
        decreases tokens.len() - i,
    {
        proof {
            assert(texts(tokens@).take(i + 1).drop_last() =~= texts(tokens@).take(i as int));
            assert(texts(tokens@).take(i + 1).last() == tokens@[i as int]@);
        }
        match parse_literal(&tokens[i]) {
            None => {
                proof {
                    lemma_values_stay_missing(texts(tokens@), i + 1);
                }
                return None;
            },
            Some(value) => {
                read.push(value);
            },
        }
        i += 1;
    }
    assert(texts(tokens@).take(i as int) =~= texts(tokens@));
    Some(read)
}

/// Reads a grid.
pub fn parse_grid(text: &str) -> (parsed: Result<TileGrid, GridError>)
    ensures
        match grid_of(text@) {
            Ok(grid) => parsed is Ok && parsed->Ok_0@ == grid && grid.wf(),
            Err(error) => parsed == Err::<TileGrid, GridError>(error),
        },
{
    let chars = chars_of(text);
    let lines = split_lines(&chars);
    if lines.len() == 0 {
        return Err(GridError::NoSize);
    }
    assert(texts(lines@)[0] == lines@[0]@);
    let sizes = split_tokens(&lines[0]);
    if sizes.len() < 2 {
        return Err(GridError::NoSize);
    }
    assert(texts(sizes@)[0] == sizes@[0]@);
    assert(texts(sizes@)[1] == sizes@[1]@);
    let width = match parse_count(&sizes[0]) {
        None => {
            return Err(GridError::BadNumber);
        },
        Some(width) => width,
    };
    let height = match parse_count(&sizes[1]) {
        None => {
            return Err(GridError::BadNumber);
        },
        Some(height) => height,
    };
    assert(chars@.skip(0) =~= chars@);
    let feed = line_end(&chars, 0);
    if feed >= chars.len() {
        return Err(GridError::NoTiles);
    }
    let rest = part(&chars, feed + 1, chars.len());
    assert(rest@ =~= chars@.skip(feed + 1));
    let cells = split_tokens(&rest);
    let tiles = match parse_values(&cells) {
        None => {
            return Err(GridError::BadNumber);
        },
        Some(tiles) => tiles,
    };
    let count = tiles.len();
    match width.checked_mul(height) {
        None => Err(GridError::TooFewTiles),
        Some(places) => {
            if places > count {
                Err(GridError::TooFewTiles)
            } else {
                Ok(TileGrid { width, height, tiles })
            }
        },
    }
}

impl TileGrid {
    /// Whether there is a tile for every place of the grid.
    pub open spec fn wf(&self) -> bool {
        self@.wf()
    }

    /// The tile in column `x` of row `y`.
    pub fn tile(&self, x: usize, y: usize) -> (tile: u32)
        requires
            self.wf(),
            x < self.width,
            y < self.height,
        ensures
            tile == self.tiles@[y * self.width + x],
            y * self.width + x < self.width * self.height,
    {
        let count = self.tiles.len();
        proof {
            lemma_place_is_in_grid(x as int, y as int, self.width as int, self.height as int);
            assert(y * self.width + x < count);
        }
        self.tiles[y * self.width + x]
    }

    /// The tile in column `x` of row `y`, or `None` where the grid has no
    /// such place.
    pub fn get(&self, x: usize, y: usize) -> (tile: Option<u32>)
        requires
            self.wf(),
        ensures
            tile == if x < self.width && y < self.height {
                Some(self.tiles@[y * self.width + x])
            } else {
                None
            },
    {
        if x < self.width && y < self.height {
            Some(self.tile(x, y))
        } else {
            None
        }
    }
}

/// The places of a grid, counted row by row, are below the width times the
/// height.
pub proof fn lemma_place_is_in_grid(x: int, y: int, width: int, height: int)
    requires
        0 <= x < width,
        0 <= y < height,
    ensures
        0 <= y * width + x < width * height,
        0 <= y * width,
{
    assert(y * width + width <= height * width) by (nonlinear_arith)
        requires
            0 <= y < height,
            0 <= width,
    ;
    assert(0 <= y * width) by (nonlinear_arith)
        requires
            0 <= y,
            0 <= width,
    ;
    assert(height * width == width * height) by (nonlinear_arith);
}

} // verus!
