//! Fixed layout geometry and game tuning constants.

use vstd::prelude::*;

verus! {

/// Number of columns on the board.
pub const COLUMNS: usize = 2;

/// Displayed rows per column.
pub const ROWS: usize = 16;

/// Characters per displayed row of a column.
pub const WORD_COLUMN_WIDTH: i32 = 12;

/// Characters held by one column buffer: `ROWS * WORD_COLUMN_WIDTH`.
pub const CHARACTERS_PER_COLUMN: usize = 192;

/// Outer screen margin, in cells.
pub const MARGIN: i32 = 2;

/// Width of the cosmetic hexadecimal address gutter.
pub const ADDRESS_COLUMN_WIDTH: i32 = 6;

/// Gap between an address gutter and its column text.
pub const INNER_COLUMN_PADDING: i32 = 1;

/// Gap between the two columns.
pub const COLUMN_PADDING: i32 = 3;

/// Full width of one column with its address gutter.
pub const COLUMN_WIDTH: i32 = ADDRESS_COLUMN_WIDTH + INNER_COLUMN_PADDING + WORD_COLUMN_WIDTH;

/// First screen row occupied by the columns.
pub const COLUMN_START_ROW: i32 = 7;

/// Last screen row occupied by the columns: `COLUMN_START_ROW + ROWS - 1`.
pub const COLUMN_END_ROW: i32 = 22;

/// First screen cell of the left column's text band.
pub const LEFT_COLUMN_START: i32 = MARGIN + ADDRESS_COLUMN_WIDTH + INNER_COLUMN_PADDING;

/// First screen cell of the right column's text band.
pub const RIGHT_COLUMN_START: i32 = LEFT_COLUMN_START + WORD_COLUMN_WIDTH + COLUMN_PADDING
    + ADDRESS_COLUMN_WIDTH + INNER_COLUMN_PADDING;

/// Buffer span occupied by one bracket pair.
pub const BRACKET_LENGTH: usize = 8;

/// Bracket pairs placed in each column.
pub const BRACKETS_PER_COLUMN: usize = 8;

/// Attempt budget at the start of a game, and after a replenishment.
pub const STARTING_ATTEMPTS: i32 = 4;

/// Words hidden across the whole board.
pub const NUM_WORDS: usize = 12;

/// Lowest cosmetic address a column may start at.
pub const ADDRESS_BASE: u16 = 0xF000;

/// Size of the window the starting address is drawn from.
pub const ADDRESS_RANGE: u16 = 0x900;

/// Cosmetic address increment from one row to the next.
pub const ADDRESS_STRIDE: u16 = 0xC;

} // verus!
