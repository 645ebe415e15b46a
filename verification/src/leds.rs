//! A five-by-five LED frame used as a gauge: LEDs are lit one after the
//! other, row by row from the top left.

use vstd::prelude::*;

verus! {

/// The place of row `row`, column `col` in the order in which a frame fills
/// up: the top row first, each row from left to right.
pub open spec fn fill_order(row: int, col: int) -> int {
    5 * row + col
}

/// Whether row `row`, column `col` is the first dark LED of `leds` in fill
/// order.
pub open spec fn is_first_dark(leds: [[u8; 5]; 5], row: int, col: int) -> bool {
    &&& 0 <= row < 5
    &&& 0 <= col < 5
    &&& leds[row][col] == 0
    &&& forall|r: int, c: int|
        0 <= r < 5 && 0 <= c < 5 && fill_order(r, c) < fill_order(row, col) ==> #[trigger] leds[r][c] != 0
}

/// Lights the first dark LED in fill order and leaves every other LED as it
/// is.  A frame without a dark LED comes back unchanged.
pub fn increment_led(leds: [[u8; 5]; 5]) -> (out: [[u8; 5]; 5])
    ensures
        forall|r: int, c: int|
            0 <= r < 5 && 0 <= c < 5 ==> #[trigger] out[r][c] == (if is_first_dark(leds, r, c) {
                1u8
            } else {
                leds[r][c]
            }),
{
    let mut out = leds;
    let mut row: usize = 0;
    while row < 5
        invariant
            row <= 5,
            out == leds,
            forall|r: int, c: int| 0 <= r < row && 0 <= c < 5 ==> #[trigger] leds[r][c] != 0,
        decreases 5 - row,
    {
        let mut col: usize = 0;
        while col < 5
            invariant
                row < 5,
                col <= 5,
                out == leds,
                forall|r: int, c: int| 0 <= r < row && 0 <= c < 5 ==> #[trigger] leds[r][c] != 0,
                forall|c: int| 0 <= c < col ==> #[trigger] leds[row as int][c] != 0,
            decreases 5 - col,
        {
            if out[row][col] == 0 {
                let mut line = out[row];
                line[col] = 1;
                out[row] = line;
                assert(is_first_dark(leds, row as int, col as int));
                return out;
            }
            col = col + 1;
        }
        row = row + 1;
    }
    out
}

/// A frame with the first `count` LEDs in fill order lit and the rest dark.
/// From 25 on, every LED is lit.
pub fn increment_led_by(count: u8) -> (out: [[u8; 5]; 5])
    ensures
        forall|r: int, c: int|
            0 <= r < 5 && 0 <= c < 5 ==> #[trigger] out[r][c] == (if fill_order(r, c) < count {
                1u8
            } else {
                0u8
            }),
{
    let mut out: [[u8; 5]; 5] = [[0, 0, 0, 0, 0], [0, 0, 0, 0, 0], [0, 0, 0, 0, 0], [0, 0, 0, 0, 0], [0, 0, 0, 0, 0]];
    let mut left: u8 = count;
    let mut row: usize = 0;
    while row < 5 && left > 0
        invariant
            row <= 5,
            left <= count,
            left > 0 ==> count - left == 5 * row,
            left == 0 ==> count <= 5 * row,
            forall|r: int, c: int|
                0 <= r < 5 && 0 <= c < 5 ==> #[trigger] out[r][c] == (if fill_order(r, c) < count - left {
                    1u8
                } else {
                    0u8
                }),
        decreases 5 - row,
    {
        let mut line = out[row];
        let mut col: usize = 0;
        while col < 5 && left > 0
            invariant
                row < 5,
                col <= 5,
                left <= count,
                count - left == 5 * row + col,
                line == out[row as int],
                forall|r: int, c: int|
                    0 <= r < 5 && 0 <= c < 5 ==> #[trigger] out[r][c] == (if fill_order(r, c) < count - left {
                        1u8
                    } else {
                        0u8
                    }),
            decreases 5 - col,
        {
            line[col] = 1;
            out[row] = line;
            left = left - 1;
            col = col + 1;
        }
        row = row + 1;
    }
    out
}

} // verus!
