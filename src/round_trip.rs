use vstd::prelude::*;
use crate::map::Cell;
use crate::grid_text::{
    all_space, line_end, lemma_line_end, lemma_token_end, rows_from, skipped, space_width,
    token_cell, token_end, tokens_in, wall_cell,
};

verus! {

/// A grid written as text: each row's tokens joined by single spaces, each row ended by a
/// newline.
pub open spec fn grid_text(rows: Seq<Seq<Seq<u8>>>) -> Seq<u8>
    decreases rows.len(),
{
    if rows.len() == 0 {
        seq![]
    } else {
        join_tokens(rows[0]).add(seq![10u8]).add(grid_text(rows.drop_first()))
    }
}

/// Tokens joined by single spaces.
pub open spec fn join_tokens(toks: Seq<Seq<u8>>) -> Seq<u8>
    decreases toks.len(),
{
    if toks.len() == 0 {
        seq![]
    } else if toks.len() == 1 {
        toks[0]
    } else {
        toks[0].add(seq![32u8]).add(join_tokens(toks.drop_first()))
    }
}

/// A token that can be written into a grid text: not empty, no whitespace.
pub open spec fn plain_token(t: Seq<u8>) -> bool {
    t.len() > 0 && forall|k: int| 0 <= k < t.len() ==> #[trigger] space_width(t, k, t.len() as int) == 0
}

/// A grid whose text reads back row for row: every row has a first token that does not
/// start a comment, and every token is plain.
pub open spec fn plain_grid(rows: Seq<Seq<Seq<u8>>>) -> bool {
    forall|r: int|
        0 <= r < rows.len() ==> {
            &&& (#[trigger] rows[r]).len() > 0
            &&& rows[r][0][0] != 35
            &&& forall|c: int| 0 <= c < rows[r].len() ==> plain_token(#[trigger] rows[r][c])
        }
}

/// The cell a grid of tokens puts at row `r`, column `c`: empty where it has no token.
pub open spec fn pattern_cell(rows: Seq<Seq<Seq<u8>>>, r: int, c: int) -> Cell {
    if 0 <= r < rows.len() && 0 <= c < rows[r].len() {
        token_cell(rows[r][c])
    } else {
        Cell::Empty
    }
}

/// The ranges `rs`, each moved `n` places on.
pub open spec fn shift(rs: Seq<(int, int)>, n: int) -> Seq<(int, int)> {
    rs.map_values(|p: (int, int)| (p.0 + n, p.1 + n))
}

proof fn lemma_line_end_shift(a: Seq<u8>, b: Seq<u8>, j: int)
    requires
        0 <= j,
    ensures
        line_end(a.add(b), a.len() + j) == a.len() + line_end(b, j),
    decreases b.len() - j,
{
    if j < b.len() {
        assert(a.add(b)[a.len() + j] == b[j]);
        if b[j] != 10 {
            lemma_line_end_shift(a, b, j + 1);
        }
    }
}

proof fn lemma_width_shift(a: Seq<u8>, b: Seq<u8>, k: int, e: int)
    requires
        0 <= k,
        e <= b.len(),
    ensures
        space_width(a.add(b), a.len() + k, a.len() + e) == space_width(b, k, e),
{
    let n = a.len() as int;
    let s = a.add(b);
    if k < e {
        assert(s[n + k] == b[k]);
        if k + 1 < e {
            assert(s[n + k + 1] == b[k + 1]);
        }
        if k + 2 < e {
            assert(s[n + k + 2] == b[k + 2]);
        }
    }
}

proof fn lemma_all_space_shift(a: Seq<u8>, b: Seq<u8>, i: int, e: int)
    requires
        0 <= i,
        e <= b.len(),
    ensures
        all_space(a.add(b), a.len() + i, a.len() + e) == all_space(b, i, e),
    decreases e - i,
{
    if i < e {
        lemma_width_shift(a, b, i, e);
        let w = space_width(b, i, e);
        if w > 0 {
            lemma_all_space_shift(a, b, i + w, e);
        }
    }
}

/// A plain token `t` written at `off` in `s`, and followed there by a space, a newline or
/// the end `e` of its line, holds no whitespace in `s` either.
proof fn lemma_plain_width(t: Seq<u8>, s: Seq<u8>, off: int, e: int)
    requires
        plain_token(t),
        0 <= off,
        off + t.len() <= e <= s.len(),
        forall|i: int| 0 <= i < t.len() ==> s[off + i] == #[trigger] t[i],
        off + t.len() == e || s[off + t.len()] == 32 || s[off + t.len()] == 10,
    ensures
        forall|i: int| 0 <= i < t.len() ==> #[trigger] space_width(s, off + i, e) == 0,
{
    assert forall|i: int| 0 <= i < t.len() implies #[trigger] space_width(s, off + i, e) == 0 by {
        assert(s[off + i] == t[i]);
        if i + 1 < t.len() {
            assert(s[off + i + 1] == t[i + 1]);
        }
        if i + 2 < t.len() {
            assert(s[off + i + 2] == t[i + 2]);
        }
        assert(space_width(t, i, t.len() as int) == 0);
    }
}

proof fn lemma_token_end_shift(a: Seq<u8>, b: Seq<u8>, j: int, e: int)
    requires
        0 <= j,
        e <= b.len(),
    ensures
        token_end(a.add(b), a.len() + j, a.len() + e) == a.len() + token_end(b, j, e),
    decreases e - j,
{
    if j < e {
        lemma_width_shift(a, b, j, e);
        if space_width(b, j, e) == 0 {
            lemma_token_end_shift(a, b, j + 1, e);
        }
    }
}

proof fn lemma_tokens_shift(a: Seq<u8>, b: Seq<u8>, j: int, e: int)
    requires
        0 <= j,
        e <= b.len(),
    ensures
        tokens_in(a.add(b), a.len() + j, a.len() + e) == shift(tokens_in(b, j, e), a.len() as int),
    decreases e - j,
{
    let n = a.len() as int;
    let s = a.add(b);
    if j < e {
        lemma_width_shift(a, b, j, e);
        if space_width(b, j, e) > 0 {
            lemma_tokens_shift(a, b, j + space_width(b, j, e), e);
        } else {
            lemma_token_end_shift(a, b, j, e);
            lemma_token_end(b, j + 1, e);
            let k = token_end(b, j, e);
            lemma_tokens_shift(a, b, k, e);
            assert(tokens_in(s, n + j, n + e) =~= shift(tokens_in(b, j, e), n));
        }
    } else {
        assert(shift(tokens_in(b, j, e), n) =~= seq![]);
    }
}

proof fn lemma_skipped_shift(a: Seq<u8>, b: Seq<u8>, i: int, e: int)
    requires
        0 <= i <= e <= b.len(),
    ensures
        skipped(a.add(b), a.len() + i, a.len() + e) == skipped(b, i, e),
{
    let n = a.len() as int;
    let s = a.add(b);
    if i < e {
        assert(s[n + i] == b[i]);
    }
    lemma_all_space_shift(a, b, i, e);
}

proof fn lemma_rows_shift(a: Seq<u8>, b: Seq<u8>, j: int)
    requires
        0 <= j,
    ensures
        rows_from(a.add(b), a.len() + j) == shift(rows_from(b, j), a.len() as int),
    decreases b.len() + 1 - j,
{
    let n = a.len() as int;
    let s = a.add(b);
    if j < b.len() {
        lemma_line_end_shift(a, b, j);
        lemma_line_end(b, j);
        let e = line_end(b, j);
        lemma_skipped_shift(a, b, j, e);
        lemma_rows_shift(a, b, e + 1);
        assert(rows_from(s, n + j) =~= shift(rows_from(b, j), n));
    } else {
        assert(shift(rows_from(b, j), n) =~= seq![]);
    }
}

proof fn lemma_tokens_bounds(s: Seq<u8>, j: int, e: int)
    requires
        0 <= j,
        e <= s.len(),
    ensures
        forall|c: int|
            0 <= c < tokens_in(s, j, e).len() ==> j <= (#[trigger] tokens_in(s, j, e)[c]).0 <= tokens_in(
                s,
                j,
                e,
            )[c].1 <= e,
    decreases e - j,
{
    if j < e {
        let w = space_width(s, j, e);
        if w > 0 {
            lemma_tokens_bounds(s, j + w, e);
            let t = tokens_in(s, j, e);
            assert forall|c: int| 0 <= c < t.len() implies j <= (#[trigger] t[c]).0 <= t[c].1 <= e by {
                assert(t[c] == tokens_in(s, j + w, e)[c]);
            }
        } else {
            lemma_token_end(s, j, e);
            lemma_token_end(s, j + 1, e);
            let k = token_end(s, j, e);
            lemma_tokens_bounds(s, k, e);
            let t = tokens_in(s, j, e);
            assert forall|c: int| 0 <= c < t.len() implies j <= (#[trigger] t[c]).0 <= t[c].1 <= e by {
                if c > 0 {
                    assert(t[c] == tokens_in(s, k, e)[c - 1]);
                }
            }
        }
    }
}

proof fn lemma_token_end_at(s: Seq<u8>, j: int, e: int, t: int)
    requires
        0 <= j <= t <= e <= s.len(),
        forall|k: int| j <= k < t ==> #[trigger] space_width(s, k, e) == 0,
        t == e || space_width(s, t, e) > 0,
    ensures
        token_end(s, j, e) == t,
    decreases t - j,
{
    if j < t {
        lemma_token_end_at(s, j + 1, e, t);
    }
}

proof fn lemma_line_end_at(s: Seq<u8>, j: int, t: int)
    requires
        0 <= j <= t < s.len(),
        forall|k: int| j <= k < t ==> #[trigger] s[k] != 10,
        s[t] == 10,
    ensures
        line_end(s, j) == t,
    decreases t - j,
{
    if j < t {
        lemma_line_end_at(s, j + 1, t);
    }
}

proof fn lemma_join_tokens(toks: Seq<Seq<u8>>, x: Seq<u8>)
    requires
        forall|c: int| 0 <= c < toks.len() ==> plain_token(#[trigger] toks[c]),
    ensures
        ({
            let m = join_tokens(toks).len() as int;
            let s = join_tokens(toks).add(x);
            let t = tokens_in(s, 0, m);
            &&& t.len() == toks.len()
            &&& forall|c: int|
                0 <= c < t.len() ==> 0 <= (#[trigger] t[c]).0 <= t[c].1 <= m && s.subrange(t[c].0, t[c].1)
                    == toks[c]
            &&& forall|k: int| 0 <= k < m ==> join_tokens(toks)[k] != 10
            &&& toks.len() > 0 ==> m > 0 && join_tokens(toks)[0] == toks[0][0] && space_width(s, 0, m) == 0
        }),
    decreases toks.len(),
{
    let j = join_tokens(toks);
    let m = j.len() as int;
    let s = j.add(x);
    if toks.len() == 0 {
    } else if toks.len() == 1 {
        let t0 = toks[0];
        assert(plain_token(toks[0]));
        assert(j == t0);
        assert forall|i: int| 0 <= i < t0.len() implies s[0 + i] == #[trigger] t0[i] by {
            assert(s[i] == j[i]);
        }
        lemma_plain_width(t0, s, 0, m);
        assert(space_width(s, 0, m) == 0);
        lemma_token_end_at(s, 0, m, m);
        assert forall|k: int| 0 <= k < m implies j[k] != 10 by {
            assert(space_width(t0, k, t0.len() as int) == 0);
        }
        assert(tokens_in(s, m, m) =~= seq![]);
        assert(tokens_in(s, 0, m) =~= seq![(0int, m)]);
        assert(s.subrange(0, m) =~= t0);
    } else {
        let t0 = toks[0];
        let rest = toks.drop_first();
        assert(plain_token(toks[0]));
        assert forall|c: int| 0 <= c < rest.len() implies plain_token(#[trigger] rest[c]) by {
            assert(rest[c] == toks[c + 1]);
        }
        lemma_join_tokens(rest, x);
        let jr = join_tokens(rest);
        let pre = t0.add(seq![32u8]);
        let b = jr.add(x);
        assert(s =~= pre.add(b));
        assert(j =~= pre.add(jr));
        let n = pre.len() as int;
        assert(s[t0.len() as int] == 32);
        assert forall|i: int| 0 <= i < t0.len() implies s[0 + i] == #[trigger] t0[i] by {
            assert(s[i] == j[i]);
        }
        lemma_plain_width(t0, s, 0, m);
        assert(space_width(s, 0, m) == 0);
        assert(space_width(s, t0.len() as int, m) == 1);
        lemma_token_end_at(s, 0, m, t0.len() as int);
        lemma_tokens_shift(pre, b, 0, jr.len() as int);
        let tr = tokens_in(b, 0, jr.len() as int);
        assert(tokens_in(s, t0.len() as int, m) == tokens_in(s, n, m));
        let t = tokens_in(s, 0, m);
        assert(t =~= seq![(0int, t0.len() as int)].add(shift(tr, n)));
        assert forall|c: int| 0 <= c < t.len() implies 0 <= (#[trigger] t[c]).0 <= t[c].1 <= m && s.subrange(
            t[c].0,
            t[c].1,
        ) == toks[c] by {
            if c == 0 {
                assert(s.subrange(0, t0.len() as int) =~= t0);
            } else {
                let p = tr[c - 1];
                assert(t[c] == (p.0 + n, p.1 + n));
                assert(s.subrange(p.0 + n, p.1 + n) =~= b.subrange(p.0, p.1));
                assert(rest[c - 1] == toks[c]);
            }
        }
        assert forall|k: int| 0 <= k < m implies j[k] != 10 by {
            if k < t0.len() {
                assert(j[k] == t0[k]);
                assert(space_width(t0, k, t0.len() as int) == 0);
            } else if k > t0.len() {
                assert(j[k] == jr[k - n]);
            }
        }
    }
}

proof fn lemma_grid_rows(rows: Seq<Seq<Seq<u8>>>)
    requires
        plain_grid(rows),
    ensures
        ({
            let s = grid_text(rows);
            let g = rows_from(s, 0);
            &&& g.len() == rows.len()
            &&& forall|r: int|
                0 <= r < g.len() ==> {
                    let t = tokens_in(s, (#[trigger] g[r]).0, g[r].1);
                    &&& 0 <= g[r].0 <= g[r].1 <= s.len()
                    &&& t.len() == rows[r].len()
                    &&& forall|c: int|
                        0 <= c < t.len() ==> #[trigger] s.subrange(t[c].0, t[c].1) == rows[r][c]
                }
        }),
    decreases rows.len(),
{
    let s = grid_text(rows);
    if rows.len() > 0 {
        let rest = rows.drop_first();
        assert(plain_grid(rest)) by {
            assert forall|r: int| 0 <= r < rest.len() implies #[trigger] rest[r] == rows[r + 1] by {}
        }
        lemma_grid_rows(rest);
        let row0 = rows[0];
        assert(row0.len() > 0 && row0[0][0] != 35);
        assert(forall|c: int| 0 <= c < row0.len() ==> plain_token(#[trigger] row0[c]));
        let j = join_tokens(row0);
        let m = j.len() as int;
        let b = grid_text(rest);
        let pre = j.add(seq![10u8]);
        assert(s =~= pre.add(b));
        assert(s =~= j.add(seq![10u8].add(b)));
        lemma_join_tokens(row0, seq![10u8].add(b));
        assert(plain_token(row0[0]));
        assert forall|k: int| 0 <= k < m implies #[trigger] s[k] != 10 by {
            assert(s[k] == j[k]);
        }
        assert(s[m] == 10);
        lemma_line_end_at(s, 0, m);
        assert(!skipped(s, 0, m)) by {
            assert(s[0] == j[0]);
            assert(!all_space(s, 0, m));
        }
        let n = pre.len() as int;
        lemma_rows_shift(pre, b, 0);
        let gr = rows_from(b, 0);
        let g = rows_from(s, 0);
        assert(g =~= seq![(0int, m)].add(shift(gr, n)));
        assert forall|r: int| 0 <= r < g.len() implies {
            let t = tokens_in(s, (#[trigger] g[r]).0, g[r].1);
            &&& 0 <= g[r].0 <= g[r].1 <= s.len()
            &&& t.len() == rows[r].len()
            &&& forall|c: int| 0 <= c < t.len() ==> #[trigger] s.subrange(t[c].0, t[c].1) == rows[r][c]
        } by {
            if r > 0 {
                let p = gr[r - 1];
                assert(g[r] == (p.0 + n, p.1 + n));
                lemma_tokens_shift(pre, b, p.0, p.1);
                let tb = tokens_in(b, p.0, p.1);
                lemma_tokens_bounds(b, p.0, p.1);
                let t = tokens_in(s, g[r].0, g[r].1);
                assert(rest[r - 1] == rows[r]);
                assert forall|c: int| 0 <= c < t.len() implies #[trigger] s.subrange(t[c].0, t[c].1) == rows[r][c] by {
                    assert(t[c] == (tb[c].0 + n, tb[c].1 + n));
                    assert(s.subrange(tb[c].0 + n, tb[c].1 + n) =~= b.subrange(tb[c].0, tb[c].1));
                }
            }
        }
    }
}

/// Round trip: writing a grid of plain tokens as text and reading it back gives, at every
/// tile of the map, the cell of the token written there, and an empty tile where none was;
/// rows and columns beyond the map are dropped.
pub proof fn lemma_walls_round_trip(rows: Seq<Seq<Seq<u8>>>)
    requires
        plain_grid(rows),
    ensures
        forall|r: int, c: int|
            0 <= r < 16 && 0 <= c < 16 ==> #[trigger] wall_cell(grid_text(rows), r, c) == pattern_cell(
                rows,
                r,
                c,
            ),
{
    lemma_grid_rows(rows);
}

proof fn lemma_line_end_prefix(t: Seq<u8>, u: Seq<u8>, i: int)
    requires
        0 <= i,
        line_end(t.add(u), i) < t.len(),
    ensures
        line_end(t, i) == line_end(t.add(u), i),
    decreases t.len() - i,
{
    let s = t.add(u);
    lemma_line_end(s, i);
    if i < t.len() {
        assert(s[i] == t[i]);
        if t[i] != 10 {
            lemma_line_end_prefix(t, u, i + 1);
        }
    }
}

proof fn lemma_width_prefix(t: Seq<u8>, u: Seq<u8>, k: int, e: int)
    requires
        e <= t.len(),
    ensures
        space_width(t, k, e) == space_width(t.add(u), k, e),
{
    let s = t.add(u);
    if 0 <= k < e {
        assert(s[k] == t[k]);
        if k + 1 < e {
            assert(s[k + 1] == t[k + 1]);
        }
        if k + 2 < e {
            assert(s[k + 2] == t[k + 2]);
        }
    }
}

proof fn lemma_all_space_prefix(t: Seq<u8>, u: Seq<u8>, i: int, e: int)
    requires
        e <= t.len(),
    ensures
        all_space(t, i, e) == all_space(t.add(u), i, e),
    decreases e - i,
{
    if i < e {
        lemma_width_prefix(t, u, i, e);
        let w = space_width(t, i, e);
        if w > 0 {
            lemma_all_space_prefix(t, u, i + w, e);
        }
    }
}

proof fn lemma_token_end_prefix(t: Seq<u8>, u: Seq<u8>, j: int, e: int)
    requires
        e <= t.len(),
    ensures
        token_end(t, j, e) == token_end(t.add(u), j, e),
    decreases e - j,
{
    if j < e {
        lemma_width_prefix(t, u, j, e);
        if space_width(t, j, e) == 0 {
            lemma_token_end_prefix(t, u, j + 1, e);
        }
    }
}

proof fn lemma_tokens_prefix(t: Seq<u8>, u: Seq<u8>, j: int, e: int)
    requires
        0 <= j,
        e <= t.len(),
    ensures
        tokens_in(t, j, e) == tokens_in(t.add(u), j, e),
    decreases e - j,
{
    if j < e {
        lemma_width_prefix(t, u, j, e);
        let w = space_width(t, j, e);
        if w > 0 {
            lemma_tokens_prefix(t, u, j + w, e);
        } else {
            lemma_token_end_prefix(t, u, j, e);
            lemma_token_end(t, j + 1, e);
            lemma_tokens_prefix(t, u, token_end(t, j, e), e);
        }
    }
}

/// The rows of `t + u` from `i` on are those of `t` followed by those of `u`, when `t` is
/// empty or ends a line.
proof fn lemma_rows_append(t: Seq<u8>, u: Seq<u8>, i: int)
    requires
        0 <= i <= t.len(),
        t.len() == 0 || t[t.len() - 1] == 10,
    ensures
        rows_from(t.add(u), i) == rows_from(t, i).add(rows_from(t.add(u), t.len() as int)),
        forall|r: int|
            0 <= r < rows_from(t, i).len() ==> i <= (#[trigger] rows_from(t, i)[r]).0 <= rows_from(
                t,
                i,
            )[r].1 < t.len(),
    decreases t.len() - i,
{
    let s = t.add(u);
    if i < t.len() {
        lemma_line_end(s, i);
        assert(s[t.len() - 1] == 10);
        let e = line_end(s, i);
        assert(e <= t.len() - 1) by {
            if e > t.len() - 1 {
                assert(s[t.len() - 1] != 10);
            }
        }
        lemma_line_end_prefix(t, u, i);
        lemma_all_space_prefix(t, u, i, e);
        if i < e {
            assert(s[i] == t[i]);
        }
        lemma_rows_append(t, u, e + 1);
        assert(rows_from(s, i) =~= rows_from(t, i).add(rows_from(s, t.len() as int)));
        let g = rows_from(t, i);
        assert forall|r: int| 0 <= r < g.len() implies i <= (#[trigger] g[r]).0 <= g[r].1 < t.len() by {
            if !skipped(t, i, e) && r > 0 {
                assert(g[r] == rows_from(t, e + 1)[r - 1]);
            } else if skipped(t, i, e) {
                assert(g[r] == rows_from(t, e + 1)[r]);
            }
        }
    } else {
        assert(rows_from(t, i) =~= seq![]);
        assert(rows_from(s, i) =~= rows_from(t, i).add(rows_from(s, t.len() as int)));
    }
}

/// Rows past the grid are ignored: text added after a text that ends a line and already
/// holds a full grid of kept rows changes no cell of the grid.
pub proof fn lemma_extra_rows_ignored(t: Seq<u8>, u: Seq<u8>)
    requires
        t.len() == 0 || t[t.len() - 1] == 10,
        rows_from(t, 0).len() >= 16,
    ensures
        forall|r: int, c: int|
            0 <= r < 16 && 0 <= c < 16 ==> #[trigger] wall_cell(t.add(u), r, c) == wall_cell(t, r, c),
{
    lemma_rows_append(t, u, 0);
    assert forall|r: int, c: int| 0 <= r < 16 && 0 <= c < 16 implies #[trigger] wall_cell(t.add(u), r, c)
        == wall_cell(t, r, c) by {
        let g = rows_from(t, 0);
        assert(rows_from(t.add(u), 0)[r] == g[r]);
        assert(0 <= g[r].0 <= g[r].1 < t.len());
        lemma_tokens_prefix(t, u, g[r].0, g[r].1);
        let toks = tokens_in(t, g[r].0, g[r].1);
        if 0 <= c < toks.len() {
            lemma_tokens_bounds(t, g[r].0, g[r].1);
            assert(t.add(u).subrange(toks[c].0, toks[c].1) =~= t.subrange(toks[c].0, toks[c].1));
        }
    }
}

} // verus!
