use vstd::prelude::*;
use vstd::string::StringSliceAdditionalSpecFns;
use crate::map::{Cell, Enemy, EnemyKind, MAP_HEIGHT, MAP_WIDTH};

verus! {


/// The length of the whitespace character that starts at byte `k`, within a line that ends
/// at `e`, or 0 when none starts there. Whitespace is Unicode's: tab, the line-breaking
/// controls 0x0A to 0x0D and space (one byte each); U+0085 and U+00A0 (two bytes); U+1680,
/// U+2000 to U+200A, U+2028, U+2029, U+202F, U+205F and U+3000 (three bytes), in UTF-8.
pub open spec fn space_width(s: Seq<u8>, k: int, e: int) -> int {
    if k < 0 || k >= e || e > s.len() {
        0
    } else if s[k] == 32 || (9 <= s[k] && s[k] <= 13) {
        1
    } else if k + 1 < e && s[k] == 0xC2 && (s[k + 1] == 0x85 || s[k + 1] == 0xA0) {
        2
    } else if k + 2 < e && ((s[k] == 0xE1 && s[k + 1] == 0x9A && s[k + 2] == 0x80) || (s[k] == 0xE2
        && s[k + 1] == 0x80 && ((0x80 <= s[k + 2] && s[k + 2] <= 0x8A) || s[k + 2] == 0xA8 || s[k + 2]
        == 0xA9 || s[k + 2] == 0xAF)) || (s[k] == 0xE2 && s[k + 1] == 0x81 && s[k + 2] == 0x9F) || (
    s[k] == 0xE3 && s[k + 1] == 0x80 && s[k + 2] == 0x80)) {
        3
    } else {
        0
    }
}

/// Position of the first newline at or after `i`, or the end of the text.
pub open spec fn line_end(s: Seq<u8>, i: int) -> int
    decreases s.len() - i,
{
    if i >= s.len() {
        s.len() as int
    } else if s[i] == 10 {
        i
    } else {
        line_end(s, i + 1)
    }
}

/// End of the token that starts at `j`, within a line that ends at `e`: the first byte
/// where whitespace starts, or `e`.
pub open spec fn token_end(s: Seq<u8>, j: int, e: int) -> int
    decreases e - j,
{
    if j >= e || space_width(s, j, e) > 0 {
        j
    } else {
        token_end(s, j + 1, e)
    }
}

/// `s[a..e]` is whitespace alone.
pub open spec fn all_space(s: Seq<u8>, a: int, e: int) -> bool
    decreases e - a,
{
    if a >= e {
        true
    } else if space_width(s, a, e) == 0 {
        false
    } else {
        all_space(s, a + space_width(s, a, e), e)
    }
}

/// A line is left out when it starts with `#` or holds nothing but whitespace.
pub open spec fn skipped(s: Seq<u8>, a: int, e: int) -> bool {
    (a < e && s[a] == 35) || all_space(s, a, e)
}

pub proof fn lemma_line_end(s: Seq<u8>, i: int)
    requires
        0 <= i,
    ensures
        i <= s.len() ==> i <= line_end(s, i) <= s.len(),
        line_end(s, i) < s.len() ==> s[line_end(s, i)] == 10,
        forall|k: int| i <= k < line_end(s, i) ==> s[k] != 10,
    decreases s.len() - i,
{
    if i < s.len() && s[i] != 10 {
        lemma_line_end(s, i + 1);
    }
}

pub proof fn lemma_token_end(s: Seq<u8>, j: int, e: int)
    requires
        0 <= j,
        e <= s.len(),
    ensures
        j <= e ==> j <= token_end(s, j, e) <= e,
        forall|k: int| j <= k < token_end(s, j, e) ==> #[trigger] space_width(s, k, e) == 0,
    decreases e - j,
{
    if j < e && space_width(s, j, e) == 0 {
        lemma_token_end(s, j + 1, e);
    }
}

#[via_fn]
proof fn rows_from_decreases(s: Seq<u8>, i: int) {
    if 0 <= i < s.len() {
        lemma_line_end(s, i);
    }
}

#[via_fn]
proof fn tokens_in_decreases(s: Seq<u8>, j: int, e: int) {
    if 0 <= j < e && e <= s.len() && space_width(s, j, e) == 0 {
        lemma_token_end(s, j + 1, e);
    }
}

/// The lines from position `i` on that are not left out, as (start, end) ranges.
pub open spec fn rows_from(s: Seq<u8>, i: int) -> Seq<(int, int)>
    decreases s.len() + 1 - i,
    via rows_from_decreases
{
    if i < 0 || i >= s.len() {
        seq![]
    } else {
        let e = line_end(s, i);
        if skipped(s, i, e) {
            rows_from(s, e + 1)
        } else {
            seq![(i, e)].add(rows_from(s, e + 1))
        }
    }
}

/// The whitespace-separated tokens between `j` and `e`, as (start, end) ranges.
pub open spec fn tokens_in(s: Seq<u8>, j: int, e: int) -> Seq<(int, int)>
    decreases e - j,
    via tokens_in_decreases
{
    if j < 0 || j >= e || e > s.len() {
        seq![]
    } else if space_width(s, j, e) > 0 {
        tokens_in(s, j + space_width(s, j, e), e)
    } else {
        let k = token_end(s, j, e);
        seq![(j, k)].add(tokens_in(s, k, e))
    }
}

/// The rows of a grid text.
pub open spec fn grid_rows(s: Seq<u8>) -> Seq<(int, int)> {
    rows_from(s, 0)
}

/// The tokens of row `r` of a grid text.
pub open spec fn row_tokens(s: Seq<u8>, r: int) -> Seq<(int, int)> {
    tokens_in(s, grid_rows(s)[r].0, grid_rows(s)[r].1)
}

/// The text of token `c` of row `r`.
pub open spec fn token_text(s: Seq<u8>, r: int, c: int) -> Seq<u8> {
    s.subrange(row_tokens(s, r)[c].0, row_tokens(s, r)[c].1)
}

/// True when row `r` of the text has a token `c`.
pub open spec fn has_token(s: Seq<u8>, r: int, c: int) -> bool {
    0 <= r < grid_rows(s).len() && 0 <= c < row_tokens(s, r).len()
}

/// An ASCII decimal digit.
pub open spec fn is_digit(b: u8) -> bool {
    48 <= b <= 57
}

/// The number written by a string of decimal digits.
pub open spec fn digits_value(d: Seq<u8>) -> int
    decreases d.len(),
{
    if d.len() == 0 {
        0
    } else {
        digits_value(d.drop_last()) * 10 + (d.last() - 48)
    }
}

/// A token without its leading `+`, if it has one.
pub open spec fn digit_part(t: Seq<u8>) -> Seq<u8> {
    if t.len() > 0 && t[0] == 43 {
        t.drop_first()
    } else {
        t
    }
}

/// What reading a token as an unsigned byte gives: an optional `+`, then one or more
/// decimal digits whose value is at most 255.
pub open spec fn byte_value(t: Seq<u8>) -> Option<u8> {
    let d = digit_part(t);
    if d.len() > 0 && (forall|k: int| 0 <= k < d.len() ==> is_digit(#[trigger] d[k])) && digits_value(d)
        <= 255 {
        Some(digits_value(d) as u8)
    } else {
        None
    }
}

/// The cell a wall-grid token stands for.
pub open spec fn token_cell(t: Seq<u8>) -> Cell {
    if t == seq![48u8] {
        Cell::Empty
    } else if t == seq![52u8] {
        Cell::Door
    } else {
        match byte_value(t) {
            Some(v) => Cell::Wall(v),
            None => Cell::Wall(1),
        }
    }
}

/// The cell for token `c` of the line `s[row.0..row.1]`: empty where it has no such token.
pub open spec fn row_cell(s: Seq<u8>, row: (int, int), c: int) -> Cell {
    let toks = tokens_in(s, row.0, row.1);
    if 0 <= c < toks.len() {
        token_cell(s.subrange(toks[c].0, toks[c].1))
    } else {
        Cell::Empty
    }
}

/// The cell that a wall-grid text puts at row `r`, column `c`: empty where the text has
/// no such token.
pub open spec fn wall_cell(s: Seq<u8>, r: int, c: int) -> Cell {
    if 0 <= r < grid_rows(s).len() {
        row_cell(s, grid_rows(s)[r], c)
    } else {
        Cell::Empty
    }
}

proof fn lemma_digits_prefix(d: Seq<u8>, n: int)
    requires
        0 <= n <= d.len(),
        forall|k: int| 0 <= k < d.len() ==> is_digit(#[trigger] d[k]),
    ensures
        digits_value(d.subrange(0, n)) <= digits_value(d),
        0 <= digits_value(d.subrange(0, n)),
    decreases d.len(),
{
    if n == d.len() {
        assert(d.subrange(0, n) =~= d);
        lemma_digits_nonneg(d);
    } else {
        let p = d.drop_last();
        assert(p.subrange(0, n) =~= d.subrange(0, n));
        lemma_digits_prefix(p, n);
        lemma_digits_nonneg(p);
    }
}

proof fn lemma_digits_nonneg(d: Seq<u8>)
    requires
        forall|k: int| 0 <= k < d.len() ==> is_digit(#[trigger] d[k]),
    ensures
        0 <= digits_value(d),
    decreases d.len(),
{
    if d.len() > 0 {
        lemma_digits_nonneg(d.drop_last());
    }
}

/// Reads `s[a..b]` as an unsigned byte.
fn parse_byte(s: &[u8], a: usize, b: usize) -> (r: Option<u8>)
    requires
        a <= b <= s@.len(),
    ensures
        r == byte_value(s@.subrange(a as int, b as int)),
{
    let ghost t = s@.subrange(a as int, b as int);
    let mut k = a;
    if k < b && s[k] == 43 {
        k = k + 1;
    }
    let d0 = k;
    let ghost d = s@.subrange(d0 as int, b as int);
    assert(d =~= digit_part(t));
    if k >= b {
        return None;
    }
    let mut v: u32 = 0;
    while k < b
        invariant
            a <= d0 <= k <= b <= s@.len(),
            d == s@.subrange(d0 as int, b as int),
            t == s@.subrange(a as int, b as int),
            d == digit_part(t),
            v as int == digits_value(s@.subrange(d0 as int, k as int)),
            v <= 255,
            forall|i: int| d0 <= i < k ==> is_digit(#[trigger] s@[i]),
        decreases b - k,
    {
        let c = s[k];
        if c < 48 || c > 57 {
            assert(d[k - d0] == c);
            assert(!is_digit(d[k - d0]));
            assert(!(forall|i: int| 0 <= i < d.len() ==> is_digit(#[trigger] d[i])));
            assert(byte_value(t) is None);
            return None;
        }
        assert(s@.subrange(d0 as int, k + 1).drop_last() =~= s@.subrange(d0 as int, k as int));
        v = v * 10 + (c - 48) as u32;
        if v > 255 {
            proof {
                if forall|i: int| 0 <= i < d.len() ==> is_digit(#[trigger] d[i]) {
                    assert(d.subrange(0, k + 1 - d0) =~= s@.subrange(d0 as int, k + 1));
                    lemma_digits_prefix(d, k + 1 - d0);
                    assert(digits_value(d) > 255);
                }
                assert(byte_value(t) is None);
            }
            return None;
        }
        k = k + 1;
    }
    assert(s@.subrange(d0 as int, k as int) =~= d);
    Some(v as u8)
}

/// The cell for the token `s[a..b]` of a wall grid.
fn parse_cell(s: &[u8], a: usize, b: usize) -> (c: Cell)
    requires
        a <= b <= s@.len(),
    ensures
        c == token_cell(s@.subrange(a as int, b as int)),
{
    let ghost t = s@.subrange(a as int, b as int);
    if b - a == 1 && s[a] == 48 {
        assert(t =~= seq![48u8]);
        return Cell::Empty;
    }
    if b - a == 1 && s[a] == 52 {
        assert(t =~= seq![52u8]);
        assert(seq![48u8][0] == 48u8);
        return Cell::Door;
    }
    assert(t.len() == 1 ==> t[0] == s@[a as int]);
    assert(t != seq![48u8] && t != seq![52u8]) by {
        if t.len() == 1 {
            assert(seq![48u8][0] == 48u8);
            assert(seq![52u8][0] == 52u8);
        }
    }
    match parse_byte(s, a, b) {
        Some(v) => Cell::Wall(v),
        None => Cell::Wall(1),
    }
}

/// The length of the whitespace character at byte `k` of the line ending at `e`, or 0.
fn space_at(s: &[u8], k: usize, e: usize) -> (w: usize)
    requires
        k <= e <= s@.len(),
    ensures
        w as int == space_width(s@, k as int, e as int),
        k + w <= e,
{
    if k >= e {
        return 0;
    }
    let b = s[k];
    if b == 32 || (9 <= b && b <= 13) {
        return 1;
    }
    if e - k >= 2 && b == 0xC2 && (s[k + 1] == 0x85 || s[k + 1] == 0xA0) {
        return 2;
    }
    if e - k >= 3 {
        let b1 = s[k + 1];
        let b2 = s[k + 2];
        if (b == 0xE1 && b1 == 0x9A && b2 == 0x80) || (b == 0xE2 && b1 == 0x80 && ((0x80 <= b2 && b2
            <= 0x8A) || b2 == 0xA8 || b2 == 0xA9 || b2 == 0xAF)) || (b == 0xE2 && b1 == 0x81 && b2
            == 0x9F) || (b == 0xE3 && b1 == 0x80 && b2 == 0x80) {
            return 3;
        }
    }
    0
}

/// Finds where the line that starts at `i` ends.
fn find_line_end(s: &[u8], i: usize) -> (e: usize)
    requires
        i <= s@.len(),
    ensures
        e == line_end(s@, i as int),
{
    let mut j = i;
    while j < s.len() && s[j] != 10
        invariant
            i <= j <= s@.len(),
            line_end(s@, i as int) == line_end(s@, j as int),
        decreases s@.len() - j,
    {
        j = j + 1;
    }
    j
}

/// Whether the line `s[a..e]` is left out of the grid.
fn is_skipped(s: &[u8], a: usize, e: usize) -> (r: bool)
    requires
        a <= e <= s@.len(),
    ensures
        r == skipped(s@, a as int, e as int),
{
    if a < e && s[a] == 35 {
        return true;
    }
    let mut k = a;
    while k < e
        invariant
            a <= k <= e <= s@.len(),
            !(a < e && s@[a as int] == 35),
            all_space(s@, a as int, e as int) == all_space(s@, k as int, e as int),
        decreases e - k,
    {
        let w = space_at(s, k, e);
        if w == 0 {
            return false;
        }
        k = k + w;
    }
    true
}

/// The next kept line at or after `i`, as its start, its end, and where the text goes on
/// after it; `None` when no kept line is left.
fn next_row(s: &[u8], i: usize) -> (r: Option<(usize, usize, usize)>)
    requires
        i <= s@.len(),
    ensures
        match r {
            None => rows_from(s@, i as int).len() == 0,
            Some((a, e, n)) => i <= a <= e <= s@.len() && a < n <= s@.len() && rows_from(s@, i as int)
                == seq![(a as int, e as int)].add(rows_from(s@, n as int)),
        },
{
    let mut a = i;
    while a < s.len()
        invariant
            i <= a <= s@.len(),
            rows_from(s@, i as int) == rows_from(s@, a as int),
        decreases s@.len() - a,
    {
        let e = find_line_end(s, a);
        proof {
            lemma_line_end(s@, a as int);
        }
        let n = if e >= s.len() {
            s.len()
        } else {
            e + 1
        };
        assert(rows_from(s@, n as int) == rows_from(s@, e + 1));
        if !is_skipped(s, a, e) {
            return Some((a, e, n));
        }
        a = n;
    }
    None
}

/// The next token of the line at or after `j`, if any, and what follows it.
fn next_token(s: &[u8], j: usize, e: usize) -> (r: Option<(usize, usize)>)
    requires
        j <= e <= s@.len(),
    ensures
        match r {
            None => tokens_in(s@, j as int, e as int).len() == 0,
            Some((a, k)) => j <= a < k <= e && tokens_in(s@, j as int, e as int) == seq![(
            a as int,
            k as int,
            )].add(tokens_in(s@, k as int, e as int)),
        },
{
    let mut a = j;
    while a < e
        invariant
            j <= a <= e <= s@.len(),
            tokens_in(s@, j as int, e as int) == tokens_in(s@, a as int, e as int),
        ensures
            a == e || space_width(s@, a as int, e as int) == 0,
        decreases e - a,
    {
        let w = space_at(s, a, e);
        if w == 0 {
            break;
        }
        a = a + w;
    }
    if a == e {
        return None;
    }
    let mut k = a + 1;
    while k < e && space_at(s, k, e) == 0
        invariant
            a < k <= e <= s@.len(),
            space_width(s@, a as int, e as int) == 0,
            token_end(s@, a as int, e as int) == token_end(s@, k as int, e as int),
        decreases e - k,
    {
        k = k + 1;
    }
    Some((a, k))
}

/// Reads a wall grid: row `r`, column `c` of the result (at `r * MAP_WIDTH + c`) holds the
/// cell for token `c` of the `r`-th kept line. Lines starting with `#` and blank lines are
/// not counted; rows and columns beyond the grid are ignored; missing ones stay empty.
/// `0` is empty, `4` a door, a byte value a wall of that material, anything else a wall of
/// material 1.
pub fn parse_walls(content: &str) -> (grid: Vec<Cell>)
    ensures
        grid@.len() == MAP_WIDTH * MAP_HEIGHT,
        forall|r: int, c: int|
            0 <= r < MAP_HEIGHT && 0 <= c < MAP_WIDTH ==> #[trigger] grid@[r * 16 + c] == wall_cell(
                content.spec_bytes(),
                r,
                c,
            ),
{
    let s = content.as_bytes();
    let mut grid: Vec<Cell> = Vec::new();
    while grid.len() < MAP_WIDTH * MAP_HEIGHT
        invariant
            grid@.len() <= 256,
            forall|k: int| 0 <= k < grid@.len() ==> grid@[k] == Cell::Empty,
        decreases 256 - grid@.len(),
    {
        grid.push(Cell::Empty);
    }
    let ghost sb = s@;
    let ghost mut done: Seq<(int, int)> = seq![];
    let mut i: usize = 0;
    let mut row: usize = 0;
    while row < MAP_HEIGHT
        invariant
            sb == s@,
            sb == content.spec_bytes(),
            i <= s@.len(),
            row <= 16,
            done.len() == row,
            grid@.len() == 256,
            grid_rows(sb) == done.add(rows_from(sb, i as int)),
            forall|r: int, c: int|
                0 <= r < 16 && 0 <= c < 16 ==> #[trigger] grid@[r * 16 + c] == (if r < row {
                    row_cell(sb, done[r], c)
                } else {
                    Cell::Empty
                }),
        ensures
            row == 16 || rows_from(sb, i as int).len() == 0,
        decreases s@.len() - i,
    {
        let (a0, e, n) = match next_row(s, i) {
            None => {
                break;
            },
            Some(t) => t,
        };
        let mut j = a0;
        let mut col: usize = 0;
        let ghost mut tdone: Seq<(int, int)> = seq![];
        while col < MAP_WIDTH
            invariant
                sb == s@,
                a0 <= j <= e <= s@.len(),
                row < 16,
                col <= 16,
                tdone.len() == col,
                grid@.len() == 256,
                tokens_in(sb, a0 as int, e as int) == tdone.add(tokens_in(sb, j as int, e as int)),
                forall|r: int, c: int|
                    0 <= r < 16 && 0 <= c < 16 ==> #[trigger] grid@[r * 16 + c] == (if r < row {
                        row_cell(sb, done[r], c)
                    } else if r == row && c < col {
                        token_cell(sb.subrange(tdone[c].0, tdone[c].1))
                    } else {
                        Cell::Empty
                    }),
            ensures
                col == 16 || tokens_in(sb, j as int, e as int).len() == 0,
            decreases 16 - col,
        {
            match next_token(s, j, e) {
                None => {
                    break;
                },
                Some((a, k)) => {
                    let cell = parse_cell(s, a, k);
                    grid.set(row * MAP_WIDTH + col, cell);
                    proof {
                        tdone = tdone.push((a as int, k as int));
                    }
                    col = col + 1;
                    j = k;
                },
            }
        }
        let ghost toks = tokens_in(sb, a0 as int, e as int);
        let ghost done2 = done.push((a0 as int, e as int));
        assert forall|r: int, c: int| 0 <= r < 16 && 0 <= c < 16 implies #[trigger] grid@[r * 16 + c]
            == (if r < row + 1 {
            row_cell(sb, done2[r], c)
        } else {
            Cell::Empty
        }) by {
            if r == row && c < col {
                assert(toks[c] == tdone[c]);
            }
            if r < row {
                assert(done2[r] == done[r]);
            }
        }
        assert(grid_rows(sb) =~= done2.add(rows_from(sb, n as int)));
        proof {
            done = done2;
        }
        row = row + 1;
        i = n;
    }
    proof {
        if row < 16 {
            assert(grid_rows(sb) =~= done);
        }
    }
    grid
}

/// The enemy an enemy-grid token places, if any.
pub open spec fn enemy_kind(t: Seq<u8>) -> Option<EnemyKind> {
    if t == seq![49u8] {
        Some(EnemyKind::Guard)
    } else if t == seq![50u8] {
        Some(EnemyKind::Ss)
    } else if t == seq![51u8] {
        Some(EnemyKind::Officer)
    } else {
        None
    }
}

/// The enemies placed by the first `n` tokens of the line `s[line.0..line.1]`, which is
/// row `r` of the grid, in order.
pub open spec fn row_enemies(s: Seq<u8>, line: (int, int), r: int, n: int) -> Seq<Enemy>
    decreases n,
{
    if n <= 0 {
        seq![]
    } else {
        let toks = tokens_in(s, line.0, line.1);
        let prev = row_enemies(s, line, r, n - 1);
        match enemy_kind(s.subrange(toks[n - 1].0, toks[n - 1].1)) {
            Some(k) => prev.push(Enemy { kind: k, col: (n - 1) as usize, row: r as usize, alive: true }),
            None => prev,
        }
    }
}

/// `n`, but at most the grid's width.
pub open spec fn min16(n: int) -> int {
    if n < 16 {
        n
    } else {
        16
    }
}

/// The enemies placed by the first `m` rows of an enemy grid, row by row.
pub open spec fn enemies_upto(s: Seq<u8>, m: int) -> Seq<Enemy>
    decreases m,
{
    if m <= 0 {
        seq![]
    } else {
        let line = grid_rows(s)[m - 1];
        enemies_upto(s, m - 1).add(
            row_enemies(s, line, m - 1, min16(tokens_in(s, line.0, line.1).len() as int)),
        )
    }
}

/// Every enemy that an enemy-grid text places, in row-major order, within the grid.
pub open spec fn enemy_placements(s: Seq<u8>) -> Seq<Enemy> {
    enemies_upto(s, min16(grid_rows(s).len() as int))
}

/// Token `c` of row `r`, both within the grid, is `P`.
pub open spec fn is_spawn_token(s: Seq<u8>, r: int, c: int) -> bool {
    0 <= r < 16 && 0 <= c < 16 && has_token(s, r, c) && token_text(s, r, c) == seq![80u8]
}

/// (r, c) comes before (r2, c2) in row-major order.
pub open spec fn before(r: int, c: int, r2: int, c2: int) -> bool {
    r < r2 || (r == r2 && c < c2)
}

/// The enemy for the token `s[a..b]`, if it names one.
fn parse_enemy_kind(s: &[u8], a: usize, b: usize) -> (k: Option<EnemyKind>)
    requires
        a <= b <= s@.len(),
    ensures
        k == enemy_kind(s@.subrange(a as int, b as int)),
{
    let ghost t = s@.subrange(a as int, b as int);
    if b - a != 1 {
        assert(t.len() != seq![49u8].len());
        assert(t.len() != seq![50u8].len());
        assert(t.len() != seq![51u8].len());
        return None;
    }
    let c = s[a];
    assert(t.len() == 1 && t[0] == c);
    assert(seq![49u8][0] == 49u8 && seq![50u8][0] == 50u8 && seq![51u8][0] == 51u8);
    if c == 49 {
        assert(t =~= seq![49u8]);
        Some(EnemyKind::Guard)
    } else if c == 50 {
        assert(t =~= seq![50u8]);
        Some(EnemyKind::Ss)
    } else if c == 51 {
        assert(t =~= seq![51u8]);
        Some(EnemyKind::Officer)
    } else {
        None
    }
}

/// Reads an enemy grid: `1` places a guard, `2` an SS, `3` an officer, at the centre of
/// its tile; other tokens place nothing. Line skipping and truncation are as for walls.
pub fn parse_enemies(content: &str) -> (enemies: Vec<Enemy>)
    ensures
        enemies@ == enemy_placements(content.spec_bytes()),
{
    let s = content.as_bytes();
    let ghost sb = s@;
    let ghost mut done: Seq<(int, int)> = seq![];
    let mut out: Vec<Enemy> = Vec::new();
    let mut i: usize = 0;
    let mut row: usize = 0;
    while row < MAP_HEIGHT
        invariant
            sb == s@,
            sb == content.spec_bytes(),
            i <= s@.len(),
            row <= 16,
            done.len() == row,
            grid_rows(sb) == done.add(rows_from(sb, i as int)),
            out@ == enemies_upto(sb, row as int),
        ensures
            row == 16 || rows_from(sb, i as int).len() == 0,
        decreases s@.len() - i,
    {
        let (a0, e, n) = match next_row(s, i) {
            None => {
                break;
            },
            Some(t) => t,
        };
        let ghost line = (a0 as int, e as int);
        assert(grid_rows(sb)[row as int] == line);
        let ghost before_row = out@;
        let mut j = a0;
        let mut col: usize = 0;
        let ghost mut tdone: Seq<(int, int)> = seq![];
        while col < MAP_WIDTH
            invariant
                sb == s@,
                a0 <= j <= e <= s@.len(),
                line == (a0 as int, e as int),
                row < 16,
                col <= 16,
                tdone.len() == col,
                tokens_in(sb, a0 as int, e as int) == tdone.add(tokens_in(sb, j as int, e as int)),
                out@ == before_row.add(row_enemies(sb, line, row as int, col as int)),
            ensures
                col == 16 || tokens_in(sb, j as int, e as int).len() == 0,
            decreases 16 - col,
        {
            match next_token(s, j, e) {
                None => {
                    break;
                },
                Some((a, k)) => {
                    assert(tokens_in(sb, a0 as int, e as int)[col as int] == (a as int, k as int));
                    match parse_enemy_kind(s, a, k) {
                        Some(kind) => {
                            out.push(Enemy { kind, col, row, alive: true });
                        },
                        None => {},
                    }
                    assert(out@ =~= before_row.add(row_enemies(sb, line, row as int, col + 1)));
                    proof {
                        tdone = tdone.push((a as int, k as int));
                    }
                    col = col + 1;
                    j = k;
                },
            }
        }
        assert(min16(tokens_in(sb, a0 as int, e as int).len() as int) == col);
        let ghost done2 = done.push((a0 as int, e as int));
        assert(grid_rows(sb) =~= done2.add(rows_from(sb, n as int)));
        proof {
            done = done2;
        }
        row = row + 1;
        i = n;
    }
    proof {
        if row < 16 {
            assert(grid_rows(sb) =~= done);
        }
    }
    out
}

/// Finds the first `P` of a spawn grid, row by row and column by column, within the grid.
/// `None` when there is none.
pub fn find_spawn(content: &str) -> (r: Option<(usize, usize)>)
    ensures
        match r {
            Some((c, row)) => is_spawn_token(content.spec_bytes(), row as int, c as int) && forall|
                r2: int,
                c2: int,
            |
                #![trigger is_spawn_token(content.spec_bytes(), r2, c2)]
                before(r2, c2, row as int, c as int) ==> !is_spawn_token(content.spec_bytes(), r2, c2),
            None => forall|r2: int, c2: int| !is_spawn_token(content.spec_bytes(), r2, c2),
        },
{
    let s = content.as_bytes();
    let ghost sb = s@;
    let ghost mut done: Seq<(int, int)> = seq![];
    let mut i: usize = 0;
    let mut row: usize = 0;
    while row < MAP_HEIGHT
        invariant
            sb == s@,
            sb == content.spec_bytes(),
            i <= s@.len(),
            row <= 16,
            done.len() == row,
            grid_rows(sb) == done.add(rows_from(sb, i as int)),
            forall|r2: int, c2: int|
                #![trigger is_spawn_token(sb, r2, c2)]
                r2 < row ==> !is_spawn_token(sb, r2, c2),
        ensures
            row == 16 || rows_from(sb, i as int).len() == 0,
        decreases s@.len() - i,
    {
        let (a0, e, n) = match next_row(s, i) {
            None => {
                break;
            },
            Some(t) => t,
        };
        assert(grid_rows(sb)[row as int] == (a0 as int, e as int));
        let mut j = a0;
        let mut col: usize = 0;
        let ghost mut tdone: Seq<(int, int)> = seq![];
        while col < MAP_WIDTH
            invariant
                sb == s@,
                sb == content.spec_bytes(),
                a0 <= j <= e <= s@.len(),
                col <= 16,
                row < 16,
                row < grid_rows(sb).len(),
                grid_rows(sb)[row as int] == (a0 as int, e as int),
                tdone.len() == col,
                tokens_in(sb, a0 as int, e as int) == tdone.add(tokens_in(sb, j as int, e as int)),
                forall|r2: int, c2: int|
                    #![trigger is_spawn_token(sb, r2, c2)]
                    before(r2, c2, row as int, col as int) ==> !is_spawn_token(sb, r2, c2),
            ensures
                col == 16 || tokens_in(sb, j as int, e as int).len() == 0,
                tokens_in(sb, j as int, e as int).len() == 0 ==> tokens_in(sb, a0 as int, e as int).len()
                    == col,
            decreases 16 - col,
        {
            match next_token(s, j, e) {
                None => {
                    break;
                },
                Some((a, k)) => {
                    assert(tokens_in(sb, a0 as int, e as int)[col as int] == (a as int, k as int));
                    if k - a == 1 && s[a] == 80 {
                        assert(sb.subrange(a as int, k as int) =~= seq![80u8]);
                        assert(is_spawn_token(sb, row as int, col as int));
                        return Some((col, row));
                    }
                    assert(!is_spawn_token(sb, row as int, col as int)) by {
                        let t = sb.subrange(a as int, k as int);
                        if t.len() == 1 {
                            assert(t[0] == sb[a as int]);
                            assert(seq![80u8][0] == 80u8);
                        }
                    }
                    proof {
                        tdone = tdone.push((a as int, k as int));
                    }
                    col = col + 1;
                    j = k;
                },
            }
        }
        let ghost done2 = done.push((a0 as int, e as int));
        assert(grid_rows(sb) =~= done2.add(rows_from(sb, n as int)));
        proof {
            done = done2;
        }
        row = row + 1;
        i = n;
    }
    proof {
        if row < 16 {
            assert(grid_rows(sb) =~= done);
        }
    }
    None
}

/// `start` is the tile whose centre the player starts on by the spawn-grid text `s`: the
/// first `P` in row-major order, or tile (1, 1) when there is none.
pub open spec fn spawn_start(s: Seq<u8>, start: (usize, usize)) -> bool {
    let (c, r) = start;
    if exists|r2: int, c2: int| is_spawn_token(s, r2, c2) {
        is_spawn_token(s, r as int, c as int) && forall|r2: int, c2: int|
            #![trigger is_spawn_token(s, r2, c2)]
            before(r2, c2, r as int, c as int) ==> !is_spawn_token(s, r2, c2)
    } else {
        start == (1usize, 1usize)
    }
}

/// Reads the enemy grid and the spawn grid: the enemies they place, and the tile the
/// player starts on.
pub fn parse_actors(enemy_content: &str, spawn_content: &str) -> (r: (Vec<Enemy>, (usize, usize)))
    ensures
        r.0@ == enemy_placements(enemy_content.spec_bytes()),
        spawn_start(spawn_content.spec_bytes(), r.1),
{
    let enemies = parse_enemies(enemy_content);
    let start = match find_spawn(spawn_content) {
        Some(t) => t,
        None => (1, 1),
    };
    (enemies, start)
}

} // verus!
