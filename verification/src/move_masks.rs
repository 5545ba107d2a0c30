//! Squares that a piece on a given square attacks or may move to.
use vstd::prelude::*;
use crate::bitboard::Bitboard;
use crate::bits::{bit, lemma_or, lemma_single, lemma_zero};
use crate::color::Color;
use crate::square::Square;

verus! {

/// Row of a square: 0 is rank 8, 7 is rank 1.
pub open spec fn row(s: int) -> int {
    s / 8
}

/// Column of a square: 0 is file a, 7 is file h.
pub open spec fn col(s: int) -> int {
    s % 8
}

pub open spec fn on_board(s: int) -> bool {
    0 <= s < 64
}

pub open spec fn abs(x: int) -> int {
    if x < 0 {
        -x
    } else {
        x
    }
}

/// A knight on `s` attacks `t`.
pub open spec fn knight_attack(s: int, t: int) -> bool {
    on_board(s) && on_board(t) && ((abs(row(t) - row(s)) == 1 && abs(col(t) - col(s)) == 2) || (
    abs(row(t) - row(s)) == 2 && abs(col(t) - col(s)) == 1))
}

/// A king on `s` attacks `t`.
pub open spec fn king_attack(s: int, t: int) -> bool {
    on_board(s) && on_board(t) && s != t && abs(row(t) - row(s)) <= 1 && abs(col(t) - col(s))
        <= 1
}

/// Direction in which pawns of `side` advance, in rows.
pub open spec fn forward(side: Color) -> int {
    match side {
        Color::White => -1,
        Color::Black => 1,
    }
}

/// Row on which pawns of `side` start.
pub open spec fn pawn_start_row(side: Color) -> int {
    match side {
        Color::White => 6,
        Color::Black => 1,
    }
}

/// A pawn of `side` on `s` attacks `t` (diagonally forward).
pub open spec fn pawn_capture_attack(side: Color, s: int, t: int) -> bool {
    on_board(s) && on_board(t) && row(t) - row(s) == forward(side) && abs(col(t) - col(s)) == 1
}

/// A pawn of `side` on `s` may advance to `t`, if the way is free: one row
/// forward, or two from its starting row.
pub open spec fn pawn_push(side: Color, s: int, t: int) -> bool {
    on_board(s) && on_board(t) && col(t) == col(s) && (row(t) - row(s) == forward(side) || (row(
        s,
    ) == pawn_start_row(side) && row(t) - row(s) == 2 * forward(side)))
}

/// Moving from `s` by `dr` rows and `dc` columns stays on the board.
pub open spec fn step_ok(s: int, dr: int, dc: int) -> bool {
    0 <= row(s) + dr < 8 && 0 <= col(s) + dc < 8
}

pub open spec fn step(s: int, dr: int, dc: int) -> int {
    (row(s) + dr) * 8 + col(s) + dc
}

/// A sliding piece on `s` moving in direction (`dr`, `dc`) reaches `t`
/// within `k` steps: every square before `t` on the way is empty in `occ`.
pub open spec fn ray(s: int, dr: int, dc: int, occ: u64, t: int, k: nat) -> bool
    decreases k,
{
    if k == 0 || !step_ok(s, dr, dc) {
        false
    } else if step(s, dr, dc) == t {
        true
    } else if bit(occ, step(s, dr, dc)) {
        false
    } else {
        ray(step(s, dr, dc), dr, dc, occ, t, (k - 1) as nat)
    }
}

/// A bishop on `s` attacks `t`, with the squares of `occ` occupied.
pub open spec fn bishop_attack(s: int, t: int, occ: u64) -> bool {
    ray(s, -1, -1, occ, t, 7) || ray(s, -1, 1, occ, t, 7) || ray(s, 1, -1, occ, t, 7) || ray(
        s,
        1,
        1,
        occ,
        t,
        7,
    )
}

/// A rook on `s` attacks `t`, with the squares of `occ` occupied.
pub open spec fn rook_attack(s: int, t: int, occ: u64) -> bool {
    ray(s, -1, 0, occ, t, 7) || ray(s, 1, 0, occ, t, 7) || ray(s, 0, -1, occ, t, 7) || ray(
        s,
        0,
        1,
        occ,
        t,
        7,
    )
}

/// A queen on `s` attacks `t`, with the squares of `occ` occupied.
pub open spec fn queen_attack(s: int, t: int, occ: u64) -> bool {
    bishop_attack(s, t, occ) || rook_attack(s, t, occ)
}

/// Adds the square at row `r`, column `c` to `mask` when it is on the board.
fn add_at(mask: u64, r: i32, c: i32) -> (res: u64)
    ensures
        forall|t: int| #[trigger]
            bit(res, t) <==> bit(mask, t) || (0 <= r < 8 && 0 <= c < 8 && t == r * 8 + c),
{
    if 0 <= r && r < 8 && 0 <= c && c < 8 {
        let sq = (r * 8 + c) as u64;
        proof {
            lemma_single(sq);
            lemma_or(mask, 1u64 << sq);
        }
        mask | (1u64 << sq)
    } else {
        mask
    }
}

/// Squares that a sliding piece on `square` reaches in direction
/// (`dr`, `dc`): every square up to and including the first occupied one.
fn ray_mask(square: Square, dr: i32, dc: i32, occ: u64) -> (res: u64)
    requires
        square.valid(),
        -1 <= dr <= 1,
        -1 <= dc <= 1,
    ensures
        forall|t: int| #[trigger] bit(res, t) <==> ray(square.0 as int, dr as int, dc as int, occ, t, 7),
{
    let ghost s = square.0 as int;
    let mut m = 0u64;
    let mut r = (square.0 / 8) as i32 + dr;
    let mut c = (square.0 % 8) as i32 + dc;
    let mut k: u32 = 7;
    let mut done = false;
    let ghost mut p = s;
    proof {
        lemma_zero();
    }
    while !done && 0 <= r && r < 8 && 0 <= c && c < 8 && k > 0
        invariant
            on_board(p),
            r == row(p) + dr,
            c == col(p) + dc,
            -1 <= dr <= 1,
            -1 <= dc <= 1,
            k <= 7,
            done ==> forall|t: int| #[trigger] ray(s, dr as int, dc as int, occ, t, 7) <==> bit(m, t),
            !done ==> forall|t: int| #[trigger]
                ray(s, dr as int, dc as int, occ, t, 7) <==> (bit(m, t) || ray(
                    p,
                    dr as int,
                    dc as int,
                    occ,
                    t,
                    k as nat,
                )),
        decreases 2 * k + (if done { 0int } else { 1int }),
    {
        let sq = (r * 8 + c) as u64;
        proof {
            lemma_single(sq);
            lemma_or(m, 1u64 << sq);
            assert(step(p, dr as int, dc as int) == sq);
            assert forall|t: int| #[trigger] ray(p, dr as int, dc as int, occ, t, k as nat) <==> (t
                == sq || (!bit(occ, sq as int) && ray(
                sq as int,
                dr as int,
                dc as int,
                occ,
                t,
                (k - 1) as nat,
            ))) by {}
        }
        m = m | (1u64 << sq);
        if (occ >> sq) & 1 == 1 {
            done = true;
        } else {
            proof {
                p = sq as int;
            }
            r = r + dr;
            c = c + dc;
            k = k - 1;
        }
    }
    proof {
        if !done {
            assert forall|t: int| !#[trigger] ray(p, dr as int, dc as int, occ, t, k as nat) by {}
        }
    }
    m
}

pub struct MoveMasks;

impl MoveMasks {
    /// Squares a knight on `square` attacks.
    pub fn get_knight_mask(square: Square) -> (r: Bitboard)
        requires
            square.valid(),
        ensures
            forall|t: int| #[trigger] r.has(t) <==> knight_attack(square.0 as int, t),
    {
        let r = (square.0 / 8) as i32;
        let c = (square.0 % 8) as i32;
        proof {
            lemma_zero();
        }
        let mut m = 0u64;
        m = add_at(m, r - 2, c - 1);
        m = add_at(m, r - 2, c + 1);
        m = add_at(m, r - 1, c - 2);
        m = add_at(m, r - 1, c + 2);
        m = add_at(m, r + 1, c - 2);
        m = add_at(m, r + 1, c + 2);
        m = add_at(m, r + 2, c - 1);
        m = add_at(m, r + 2, c + 1);
        proof {
            assert forall|t: int| #[trigger] bit(m, t) <==> knight_attack(square.0 as int, t) by {
                if 0 <= t < 64 {
                    assert(t == (t / 8) * 8 + t % 8);
                }
            }
        }
        Bitboard(m)
    }

    /// Squares a king on `square` attacks.
    pub fn get_king_mask(square: Square) -> (r: Bitboard)
        requires
            square.valid(),
        ensures
            forall|t: int| #[trigger] r.has(t) <==> king_attack(square.0 as int, t),
    {
        let r = (square.0 / 8) as i32;
        let c = (square.0 % 8) as i32;
        proof {
            lemma_zero();
        }
        let mut m = 0u64;
        m = add_at(m, r - 1, c - 1);
        m = add_at(m, r - 1, c);
        m = add_at(m, r - 1, c + 1);
        m = add_at(m, r, c - 1);
        m = add_at(m, r, c + 1);
        m = add_at(m, r + 1, c - 1);
        m = add_at(m, r + 1, c);
        m = add_at(m, r + 1, c + 1);
        proof {
            assert forall|t: int| #[trigger] bit(m, t) <==> king_attack(square.0 as int, t) by {
                if 0 <= t < 64 {
                    assert(t == (t / 8) * 8 + t % 8);
                }
            }
        }
        Bitboard(m)
    }

    /// Squares a pawn of `color` on `square` attacks.
    pub fn get_pawn_capture_mask(color: Color, square: Square) -> (r: Bitboard)
        requires
            square.valid(),
        ensures
            forall|t: int| #[trigger] r.has(t) <==> pawn_capture_attack(color, square.0 as int, t),
    {
        let r = (square.0 / 8) as i32;
        let c = (square.0 % 8) as i32;
        let dr: i32 = match color {
            Color::White => -1,
            Color::Black => 1,
        };
        proof {
            lemma_zero();
        }
        let mut m = 0u64;
        m = add_at(m, r + dr, c - 1);
        m = add_at(m, r + dr, c + 1);
        proof {
            assert forall|t: int| #[trigger]
                bit(m, t) <==> pawn_capture_attack(color, square.0 as int, t) by {
                if 0 <= t < 64 {
                    assert(t == (t / 8) * 8 + t % 8);
                }
            }
        }
        Bitboard(m)
    }

    /// Squares a pawn of `color` on `square` may advance to on an empty board.
    pub fn get_pawn_quiet_mask(color: Color, square: Square) -> (r: Bitboard)
        requires
            square.valid(),
        ensures
            forall|t: int| #[trigger] r.has(t) <==> pawn_push(color, square.0 as int, t),
    {
        let r = (square.0 / 8) as i32;
        let c = (square.0 % 8) as i32;
        let (dr, start): (i32, i32) = match color {
            Color::White => (-1, 6),
            Color::Black => (1, 1),
        };
        proof {
            lemma_zero();
        }
        let mut m = 0u64;
        m = add_at(m, r + dr, c);
        if r == start {
            m = add_at(m, r + 2 * dr, c);
        }
        proof {
            assert forall|t: int| #[trigger] bit(m, t) <==> pawn_push(color, square.0 as int, t) by {
                if 0 <= t < 64 {
                    assert(t == (t / 8) * 8 + t % 8);
                }
            }
        }
        Bitboard(m)
    }

    /// Squares a bishop on `square` attacks, with the squares of `occupancy` occupied.
    pub fn get_bishop_mask(square: Square, occupancy: Bitboard) -> (r: Bitboard)
        requires
            square.valid(),
        ensures
            forall|t: int| #[trigger] r.has(t) <==> bishop_attack(square.0 as int, t, occupancy.0),
    {
        let a = ray_mask(square, -1, -1, occupancy.0);
        let b = ray_mask(square, -1, 1, occupancy.0);
        let c = ray_mask(square, 1, -1, occupancy.0);
        let d = ray_mask(square, 1, 1, occupancy.0);
        proof {
            lemma_or(a, b);
            lemma_or(a | b, c);
            lemma_or(a | b | c, d);
        }
        Bitboard(a | b | c | d)
    }

    /// Squares a rook on `square` attacks, with the squares of `occupancy` occupied.
    pub fn get_rook_mask(square: Square, occupancy: Bitboard) -> (r: Bitboard)
        requires
            square.valid(),
        ensures
            forall|t: int| #[trigger] r.has(t) <==> rook_attack(square.0 as int, t, occupancy.0),
    {
        let a = ray_mask(square, -1, 0, occupancy.0);
        let b = ray_mask(square, 1, 0, occupancy.0);
        let c = ray_mask(square, 0, -1, occupancy.0);
        let d = ray_mask(square, 0, 1, occupancy.0);
        proof {
            lemma_or(a, b);
            lemma_or(a | b, c);
            lemma_or(a | b | c, d);
        }
        Bitboard(a | b | c | d)
    }

    /// Squares a queen on `square` attacks, with the squares of `occupancy` occupied.
    pub fn get_queen_mask(square: Square, occupancy: Bitboard) -> (r: Bitboard)
        requires
            square.valid(),
        ensures
            forall|t: int| #[trigger] r.has(t) <==> queen_attack(square.0 as int, t, occupancy.0),
    {
        let b = Self::get_bishop_mask(square, occupancy);
        let rk = Self::get_rook_mask(square, occupancy);
        b.or(rk)
    }
}

} // verus!
