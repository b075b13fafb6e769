//! What a drawing of a board shows: the colour of each tile and which tile
//! covers a pixel.
use vstd::prelude::*;
use crate::grid::cells;

verus! {

/// A colour as red, green and blue intensities.
#[derive(Debug, Clone, Copy, PartialEq, Eq, Structural)]
pub struct Rgb {
    pub red: u8,
    pub green: u8,
    pub blue: u8,
}

/// The number of tiles that have a colour.
pub const PALETTE_SIZE: u32 = 5;

/// The colour of each tile; tiles from `PALETTE_SIZE` on have none.
pub open spec fn palette(tile: u32) -> Option<Rgb> {
    if tile == 0 {
        Some(Rgb { red: 160, green: 70, blue: 70 })
    } else if tile == 1 {
        Some(Rgb { red: 172, green: 124, blue: 73 })
    } else if tile == 2 {
        Some(Rgb { red: 129, green: 186, blue: 178 })
    } else if tile == 3 {
        Some(Rgb { red: 221, green: 209, blue: 213 })
    } else if tile == 4 {
        Some(Rgb { red: 59, green: 64, blue: 85 })
    } else {
        None
    }
}

/// The colour in which a tile is drawn, if it has one.
pub fn tile_rgb(tile: u32) -> (r: Option<Rgb>)
    ensures
        r == palette(tile),
        r is Some <==> tile < PALETTE_SIZE,
{
    match tile {
        0 => Some(Rgb { red: 160, green: 70, blue: 70 }),
        1 => Some(Rgb { red: 172, green: 124, blue: 73 }),
        2 => Some(Rgb { red: 129, green: 186, blue: 178 }),
        3 => Some(Rgb { red: 221, green: 209, blue: 213 }),
        4 => Some(Rgb { red: 59, green: 64, blue: 85 }),
        _ => None,
    }
}

/// Where a board is drawn: the pixel of its top-left corner and the side of
/// one square tile, in pixels. Columns run along `x`, rows along `y`.
#[derive(Debug, Clone, Copy, PartialEq, Eq, Structural)]
pub struct Layout {
    pub x0: u32,
    pub y0: u32,
    pub tile_width: u32,
}

/// The tile drawn at pixel `(x, y)`: the one at row `r`, column `c` covers
/// `x0 + c * w <= x < x0 + (c + 1) * w` and `y0 + r * w <= y < y0 + (r + 1) * w`.
/// Pixels that no tile covers show none.
pub open spec fn tile_under(board: Seq<Seq<u32>>, layout: Layout, x: int, y: int) -> Option<u32> {
    let w = layout.tile_width as int;
    if w > 0 && x >= layout.x0 && y >= layout.y0 {
        let c = (x - layout.x0) / w;
        let r = (y - layout.y0) / w;
        if r < board.len() && c < board[r].len() {
            Some(board[r][c])
        } else {
            None
        }
    } else {
        None
    }
}

/// The tile that a drawing of `board` in `layout` shows at pixel `(x, y)`,
/// if any.
pub fn tile_at_pixel(board: &Vec<Vec<u32>>, layout: Layout, x: u32, y: u32) -> (r: Option<u32>)
    ensures
        r == tile_under(cells(board), layout, x as int, y as int),
{
    let w = layout.tile_width;
    if w == 0 || x < layout.x0 || y < layout.y0 {
        return None;
    }
    let c = ((x - layout.x0) / w) as usize;
    let r = ((y - layout.y0) / w) as usize;
    if r < board.len() && c < board[r].len() {
        Some(board[r][c])
    } else {
        None
    }
}

} // verus!
