//! Geometry of the puzzle board that the Win32 fallback painter draws when
//! no Vulkan device is usable: the 9x9 cells, the digits given at the
//! start, and the 3x3 digit keypad, all in window pixels.
use vstd::prelude::*;

verus! {

/// A rectangle in window pixels; `right` and `bottom` are exclusive.
#[derive(Clone, Copy, Debug, PartialEq, Eq, Structural)]
pub struct PixelRect {
    pub left: i32,
    pub top: i32,
    pub right: i32,
    pub bottom: i32,
}

/// A given digit and the point its text is drawn at.
#[derive(Clone, Copy, Debug, PartialEq, Eq, Structural)]
pub struct DigitMark {
    pub x: i32,
    pub y: i32,
    pub digit: u8,
}

/// A keypad button and the digit it enters.
#[derive(Clone, Copy, Debug, PartialEq, Eq, Structural)]
pub struct KeypadButton {
    pub rect: PixelRect,
    pub digit: u8,
}

/// Left edge of the board.
pub const BOARD_LEFT: i32 = 72;

/// Top edge of the board.
pub const BOARD_TOP: i32 = 140;

/// Pitch of one cell; each cell leaves a 2-pixel gutter.
pub const BOARD_CELL: i32 = 72;

/// Left edge of the keypad.
pub const KEYPAD_LEFT: i32 = 655;

/// Top edge of the keypad.
pub const KEYPAD_TOP: i32 = 390;

/// Pitch of one keypad button; each button is 55 pixels square.
pub const KEYPAD_PITCH: i32 = 65;

/// The cell at `row`, `column`.
pub open spec fn spec_cell_rect(row: int, column: int) -> PixelRect {
    PixelRect {
        left: (BOARD_LEFT + column * BOARD_CELL) as i32,
        top: (BOARD_TOP + row * BOARD_CELL) as i32,
        right: (BOARD_LEFT + (column + 1) * BOARD_CELL - 2) as i32,
        bottom: (BOARD_TOP + (row + 1) * BOARD_CELL - 2) as i32,
    }
}

/// The digits shown when the board opens, row by row; 0 is an empty cell.
pub open spec fn spec_givens() -> Seq<Seq<u8>> {
    seq![
        seq![0u8, 0, 0, 0, 5, 0, 0, 0, 0],
        seq![7u8, 0, 0, 0, 0, 0, 9, 0, 4],
        seq![9u8, 0, 0, 3, 0, 6, 0, 5, 0],
        seq![0u8, 0, 0, 0, 3, 0, 1, 0, 7],
        seq![0u8, 1, 7, 9, 6, 4, 0, 0, 0],
        seq![0u8, 0, 9, 0, 0, 0, 4, 0, 8],
        seq![4u8, 5, 0, 0, 9, 1, 8, 0, 0],
        seq![3u8, 0, 0, 0, 0, 5, 0, 0, 2],
        seq![0u8, 7, 8, 6, 4, 3, 0, 0, 0],
    ]
}

/// The marks of the given digits of cells `k` and up, in row-major order,
/// each drawn at an offset inside its cell.
pub open spec fn spec_digit_marks(k: int) -> Seq<DigitMark>
    decreases 81 - k,
{
    if k >= 81 || k < 0 {
        Seq::empty()
    } else {
        let row = k / 9;
        let column = k % 9;
        let digit = spec_givens()[row][column];
        let here = if digit != 0 {
            seq![
                DigitMark {
                    x: (BOARD_LEFT + column * BOARD_CELL + 28) as i32,
                    y: (BOARD_TOP + row * BOARD_CELL + 22) as i32,
                    digit,
                },
            ]
        } else {
            Seq::empty()
        };
        here + spec_digit_marks(k + 1)
    }
}

/// The keypad button at `row`, `column`.
pub open spec fn spec_keypad_rect(row: int, column: int) -> PixelRect {
    PixelRect {
        left: (KEYPAD_LEFT + column * KEYPAD_PITCH) as i32,
        top: (KEYPAD_TOP + row * KEYPAD_PITCH) as i32,
        right: (KEYPAD_LEFT + column * KEYPAD_PITCH + 55) as i32,
        bottom: (KEYPAD_TOP + row * KEYPAD_PITCH + 55) as i32,
    }
}

/// Everything the painter draws on the board, in drawing order.
pub struct BoardLayout {
    pub cells: Vec<PixelRect>,
    pub digits: Vec<DigitMark>,
    pub keypad: Vec<KeypadButton>,
}

/// One row of the given digits.
fn givens_row(row: usize) -> (r: [u8; 9])
    requires
        row < 9,
    ensures
        r@ == spec_givens()[row as int],
{
    let r: [u8; 9] = match row {
        0 => [0, 0, 0, 0, 5, 0, 0, 0, 0],
        1 => [7, 0, 0, 0, 0, 0, 9, 0, 4],
        2 => [9, 0, 0, 3, 0, 6, 0, 5, 0],
        3 => [0, 0, 0, 0, 3, 0, 1, 0, 7],
        4 => [0, 1, 7, 9, 6, 4, 0, 0, 0],
        5 => [0, 0, 9, 0, 0, 0, 4, 0, 8],
        6 => [4, 5, 0, 0, 9, 1, 8, 0, 0],
        7 => [3, 0, 0, 0, 0, 5, 0, 0, 2],
        _ => [0, 7, 8, 6, 4, 3, 0, 0, 0],
    };
    assert(r@ =~= spec_givens()[row as int]);
    r
}

/// The board's cells in row-major order, the given digits in row-major
/// order, and the keypad buttons for 1 to 9 in row-major order.
pub fn board_layout() -> (r: BoardLayout)
    ensures
        r.cells@.len() == 81,
        forall|k: int| 0 <= k < 81 ==> #[trigger] r.cells@[k] == spec_cell_rect(k / 9, k % 9),
        r.digits@ == spec_digit_marks(0),
        r.keypad@.len() == 9,
        forall|k: int|
            0 <= k < 9 ==> #[trigger] r.keypad@[k] == (KeypadButton {
                rect: spec_keypad_rect(k / 3, k % 3),
                digit: (k + 1) as u8,
            }),
{
    let mut cells: Vec<PixelRect> = Vec::new();
    let mut digits: Vec<DigitMark> = Vec::new();
    let mut k: usize = 0;
    while k < 81
        invariant
            k <= 81,
            cells@.len() == k,
            forall|j: int| 0 <= j < k ==> #[trigger] cells@[j] == spec_cell_rect(j / 9, j % 9),
            spec_digit_marks(0) == digits@ + spec_digit_marks(k as int),
        decreases 81 - k,
    {
        let row = k / 9;
        let column = k % 9;
        let left = BOARD_LEFT + (column as i32) * BOARD_CELL;
        let top = BOARD_TOP + (row as i32) * BOARD_CELL;
        cells.push(PixelRect { left, top, right: left + BOARD_CELL - 2, bottom: top + BOARD_CELL - 2 });
        let digit = givens_row(row)[column];
        let ghost before = digits@;
        if digit != 0 {
            digits.push(DigitMark { x: left + 28, y: top + 22, digit });
        }
        proof {
            assert(digits@ + spec_digit_marks(k + 1) =~= before + spec_digit_marks(k as int));
        }
        k = k + 1;
    }
    let mut keypad: Vec<KeypadButton> = Vec::new();
    let mut b: usize = 0;
    while b < 9
        invariant
            b <= 9,
            keypad@.len() == b,
            forall|j: int|
                0 <= j < b ==> #[trigger] keypad@[j] == (KeypadButton {
                    rect: spec_keypad_rect(j / 3, j % 3),
                    digit: (j + 1) as u8,
                }),
        decreases 9 - b,
    {
        let left = KEYPAD_LEFT + ((b % 3) as i32) * KEYPAD_PITCH;
        let top = KEYPAD_TOP + ((b / 3) as i32) * KEYPAD_PITCH;
        keypad.push(
            KeypadButton {
                rect: PixelRect { left, top, right: left + 55, bottom: top + 55 },
                digit: (b + 1) as u8,
            },
        );
        b = b + 1;
    }
    proof {
        assert(spec_digit_marks(81) =~= Seq::<DigitMark>::empty());
        assert(digits@ =~= spec_digit_marks(0));
    }
    BoardLayout { cells, digits, keypad }
}

} // verus!
