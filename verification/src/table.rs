//! The reference table of the codepoints 33 to 127: five columns that
//! read top to bottom, printed as nineteen rows.

use crate::base::Base;
use crate::text::{join, joined, texts};
use vstd::prelude::*;
use vstd::string::StringExecFns;

verus! {

/// The transpose of `input`, taken as `height` rows of `width` items
/// each, row after row: what stood in row `y` at place `x` stands in
/// row `x` at place `y` of the result, whose rows have `height` items.
pub open spec fn transposed<T>(input: Seq<T>, width: nat, height: nat) -> Seq<T> {
    Seq::new(width * height, |k: int| input[transposed_source(k, width, height)])
}

/// The place in the input of the item that the transpose has at `k`.
pub open spec fn transposed_source(k: int, width: nat, height: nat) -> int {
    (k % (height as int)) * width + k / (height as int)
}

/// Where the transpose takes its item at place `k` from lies within the
/// input.
pub proof fn lemma_transposed_source(k: int, width: nat, height: nat)
    requires
        0 <= k < width * height,
    ensures
        0 <= transposed_source(k, width, height) < width * height,
        height > 0,
{
    let h = height as int;
    let w = width as int;
    assert(h > 0) by (nonlinear_arith)
        requires
            0 <= k < w * h,
            w >= 0,
            h >= 0,
    ;
    let x = k / h;
    let y = k % h;
    assert(0 <= y < h && 0 <= x < w && 0 <= y * w + x < w * h) by (nonlinear_arith)
        requires
            h > 0,
            0 <= k < w * h,
            x == k / h,
            y == k % h,
    ;
}

/// The item of row `y`, place `x`, of the input is the item of row `x`,
/// place `y`, of its transpose.
pub proof fn lemma_transposed_cell<T>(input: Seq<T>, width: nat, height: nat, x: int, y: int)
    requires
        0 <= x < width,
        0 <= y < height,
    ensures
        0 <= x * height + y < width * height,
        transposed(input, width, height)[x * height + y] == input[y * width + x],
{
    let h = height as int;
    let w = width as int;
    let k = x * h + y;
    assert(0 <= k < w * h && k / h == x && k % h == y) by (nonlinear_arith)
        requires
            0 <= x < w,
            0 <= y < h,
            k == x * h + y,
    ;
}

/// Transposes `input`, taken as `height` rows of `width` items each.
pub fn transpose<T: Copy>(input: &Vec<T>, width: usize, height: usize) -> (output: Vec<T>)
    requires
        input.len() == width * height,
    ensures
        output@ == transposed(input@, width as nat, height as nat),
{
    let n = input.len();
    let mut output: Vec<T> = Vec::new();
    let mut k: usize = 0;
    while k < n
        invariant
            n == input.len(),
            n == width * height,
            k <= n,
            output.len() == k,
            forall|j: int|
                0 <= j < k ==> output@[j] == transposed(input@, width as nat, height as nat)[j],
        decreases n - k,
    {
        proof {
            lemma_transposed_source(k as int, width as nat, height as nat);
        }
        let y = k % height;
        let x = k / height;
        assert(y * width <= y * width + x) by (nonlinear_arith)
            requires
                x >= 0,
        ;
        output.push(input[y * width + x]);
        k = k + 1;
    }
    assert(output@ =~= transposed(input@, width as nat, height as nat));
    output
}

/// The first codepoint of the table.
pub const FIRST: u8 = 33;

/// The last codepoint of the table, the control code DEL.
pub const LAST: u8 = 127;

/// The number of rows of the table.
pub const ROWS: usize = 19;

/// The number of columns of the table.
pub const COLUMNS: usize = 5;

/// The codepoints of the table in rising order.
pub open spec fn codepoints() -> Seq<u8> {
    Seq::new((LAST - FIRST + 1) as nat, |i: int| (FIRST + i) as u8)
}

/// The codepoints in the order in which the table shows them, row after
/// row: the rising sequence cut into columns of `ROWS` codepoints each,
/// and then read across.
pub open spec fn table_order() -> Seq<u8> {
    transposed(codepoints(), ROWS as nat, COLUMNS as nat)
}

/// How a codepoint is drawn: by its character, but DEL by its name.
pub open spec fn glyph(codepoint: u8) -> Seq<char> {
    if codepoint == LAST {
        "DEL"@
    } else {
        seq![codepoint as char]
    }
}

/// The entry of a codepoint: its number in the base, a colon, a space,
/// and how it is drawn.
pub open spec fn entry(base: Base, codepoint: u8) -> Seq<char> {
    base.spec_field(codepoint) + ": "@ + glyph(codepoint)
}

/// The entries of the table in the order in which it shows them.
pub open spec fn entries(base: Base) -> Seq<Seq<char>> {
    table_order().map_values(|codepoint: u8| entry(base, codepoint))
}

/// Row `row` of the table: its entries with two spaces between them.
pub open spec fn table_row(base: Base, row: int) -> Seq<char> {
    joined(entries(base).subrange(row * COLUMNS, row * COLUMNS + COLUMNS), "  "@)
}

/// The table: `ROWS` rows.
pub open spec fn table(base: Base) -> Seq<Seq<char>> {
    Seq::new(ROWS as nat, |row: int| table_row(base, row))
}

/// In row `row`, column `col` of the table stands the codepoint that is
/// `row` places down column `col`: columns read top to bottom, and each
/// starts `ROWS` codepoints after the one to its left.
pub proof fn law_table_order(row: int, col: int)
    requires
        0 <= row < ROWS,
        0 <= col < COLUMNS,
    ensures
        table_order().len() == ROWS * COLUMNS,
        table_order()[row * COLUMNS + col] == FIRST + col * ROWS + row,
{
    lemma_transposed_cell(codepoints(), ROWS as nat, COLUMNS as nat, row, col);
}

/// The codepoints of the table in rising order.
pub fn codepoint_range() -> (range: Vec<u8>)
    ensures
        range@ == codepoints(),
{
    let mut range: Vec<u8> = Vec::new();
    let mut codepoint: u8 = FIRST;
    while codepoint <= LAST
        invariant
            FIRST <= codepoint <= LAST + 1,
            range.len() == codepoint - FIRST,
            forall|i: int| 0 <= i < range.len() ==> range@[i] == FIRST + i,
        decreases LAST + 1 - codepoint,
    {
        range.push(codepoint);
        codepoint = codepoint + 1;
    }
    assert(range@ =~= codepoints());
    range
}

/// Writes the entry of `codepoint`.
pub fn entry_text(base: Base, codepoint: u8) -> (text: String)
    ensures
        text@ == entry(base, codepoint),
{
    let mut text = base.field(codepoint);
    text.append(": ");
    if codepoint == LAST {
        text.append("DEL");
    } else {
        text.push(codepoint as char);
    }
    assert(text@ =~= entry(base, codepoint));
    text
}

/// The rows of the table of the codepoints 33 to 127 in `base`.
pub fn ascii_table(base: Base) -> (rows: Vec<String>)
    ensures
        texts(rows@) == table(base),
        rows@.len() == ROWS,
        forall|row: int| 0 <= row < ROWS ==> (#[trigger] rows@[row])@ == table_row(base, row),
{
    let range = codepoint_range();
    let nums = transpose(&range, ROWS, COLUMNS);
    let mut vals: Vec<String> = Vec::new();
    let mut k: usize = 0;
    while k < nums.len()
        invariant
            nums@ == table_order(),
            nums.len() == ROWS * COLUMNS,
            k <= nums.len(),
            vals.len() == k,
            forall|j: int| 0 <= j < k ==> (#[trigger] vals@[j])@ == entry(base, nums@[j]),
        decreases nums.len() - k,
    {
        vals.push(entry_text(base, nums[k]));
        k = k + 1;
    }
    assert(texts(vals@) =~= entries(base));
    let mut rows: Vec<String> = Vec::new();
    let mut row: usize = 0;
    while row < ROWS
        invariant
            row <= ROWS,
            vals.len() == ROWS * COLUMNS,
            texts(vals@) == entries(base),
            rows.len() == row,
            forall|r: int| 0 <= r < row ==> (#[trigger] rows@[r])@ == table_row(base, r),
        decreases ROWS - row,
    {
        rows.push(join(&vals, row * COLUMNS, row * COLUMNS + COLUMNS, "  "));
        row = row + 1;
    }
    assert(texts(rows@) =~= table(base));
    rows
}

/// The table as one text: its rows with a line break between them.
pub fn table_text(base: Base) -> (text: String)
    ensures
        text@ == joined(table(base), "\n"@),
{
    let rows = ascii_table(base);
    let text = join(&rows, 0, rows.len(), "\n");
    assert(texts(rows@).subrange(0, rows.len() as int) =~= texts(rows@));
    text
}

} // verus!
