//! Pieces of both sides, and the marker for an empty square.
use vstd::prelude::*;
use crate::color::Color;

verus! {

#[derive(Clone, Copy, PartialEq, Eq, Structural, Debug, Hash)]
pub enum PieceType {
    WP,
    WN,
    WB,
    WR,
    WQ,
    WK,
    BP,
    BN,
    BB,
    BR,
    BQ,
    BK,
    NoPiece,
}

/// Kinds of pieces, without their side.
pub const PAWN: usize = 0;
pub const KNIGHT: usize = 1;
pub const BISHOP: usize = 2;
pub const ROOK: usize = 3;
pub const QUEEN: usize = 4;
pub const KING: usize = 5;

impl PieceType {
    /// Number of the piece: white pawn to king are 0 to 5, black pawn to
    /// king 6 to 11, and the empty marker is 12.
    pub open spec fn index(self) -> int {
        match self {
            PieceType::WP => 0,
            PieceType::WN => 1,
            PieceType::WB => 2,
            PieceType::WR => 3,
            PieceType::WQ => 4,
            PieceType::WK => 5,
            PieceType::BP => 6,
            PieceType::BN => 7,
            PieceType::BB => 8,
            PieceType::BR => 9,
            PieceType::BQ => 10,
            PieceType::BK => 11,
            PieceType::NoPiece => 12,
        }
    }

    /// The piece with number `i`; numbers from 12 on give the empty marker.
    pub open spec fn of_index(i: int) -> PieceType {
        if i == 0 {
            PieceType::WP
        } else if i == 1 {
            PieceType::WN
        } else if i == 2 {
            PieceType::WB
        } else if i == 3 {
            PieceType::WR
        } else if i == 4 {
            PieceType::WQ
        } else if i == 5 {
            PieceType::WK
        } else if i == 6 {
            PieceType::BP
        } else if i == 7 {
            PieceType::BN
        } else if i == 8 {
            PieceType::BB
        } else if i == 9 {
            PieceType::BR
        } else if i == 10 {
            PieceType::BQ
        } else if i == 11 {
            PieceType::BK
        } else {
            PieceType::NoPiece
        }
    }

    /// The kind of a piece: 0 pawn, 1 knight, 2 bishop, 3 rook, 4 queen, 5 king.
    pub open spec fn kind(self) -> int {
        self.index() % 6
    }

    /// Whether the piece belongs to `side`.
    pub open spec fn is_of(self, side: Color) -> bool {
        match side {
            Color::White => self.index() < 6,
            Color::Black => 6 <= self.index() < 12,
        }
    }

    /// The piece of `side` of the given kind.
    pub open spec fn of_side_kind(side: Color, kind: int) -> PieceType {
        PieceType::of_index(side.index() * 6 + kind)
    }

    /// Number of the piece.
    pub fn to_index(self) -> (r: usize)
        ensures
            r == self.index(),
    {
        match self {
            PieceType::WP => 0,
            PieceType::WN => 1,
            PieceType::WB => 2,
            PieceType::WR => 3,
            PieceType::WQ => 4,
            PieceType::WK => 5,
            PieceType::BP => 6,
            PieceType::BN => 7,
            PieceType::BB => 8,
            PieceType::BR => 9,
            PieceType::BQ => 10,
            PieceType::BK => 11,
            PieceType::NoPiece => 12,
        }
    }

    /// The piece with number `i`.
    pub fn from_index(i: usize) -> (r: PieceType)
        ensures
            r == PieceType::of_index(i as int),
    {
        match i {
            0 => PieceType::WP,
            1 => PieceType::WN,
            2 => PieceType::WB,
            3 => PieceType::WR,
            4 => PieceType::WQ,
            5 => PieceType::WK,
            6 => PieceType::BP,
            7 => PieceType::BN,
            8 => PieceType::BB,
            9 => PieceType::BR,
            10 => PieceType::BQ,
            11 => PieceType::BK,
            _ => PieceType::NoPiece,
        }
    }

    /// The side of a piece.
    pub fn color(self) -> (r: Color)
        requires
            self != PieceType::NoPiece,
        ensures
            self.is_of(r),
            r == Color::White <==> self.index() < 6,
    {
        match self {
            PieceType::WP | PieceType::WN | PieceType::WB | PieceType::WR | PieceType::WQ
            | PieceType::WK => Color::White,
            _ => Color::Black,
        }
    }

    /// The piece of `side` of the given kind.
    pub fn from_side_kind(side: Color, kind: usize) -> (r: PieceType)
        requires
            kind < 6,
        ensures
            r == PieceType::of_side_kind(side, kind as int),
            r.kind() == kind,
            r.is_of(side),
    {
        match side {
            Color::White => PieceType::from_index(kind),
            Color::Black => PieceType::from_index(6 + kind),
        }
    }

    /// The piece that a letter of FEN notation names: upper case for white,
    /// lower case for black.
    pub open spec fn of_fen_byte(b: u8) -> PieceType {
        if b == 'P' as u8 {
            PieceType::WP
        } else if b == 'N' as u8 {
            PieceType::WN
        } else if b == 'B' as u8 {
            PieceType::WB
        } else if b == 'R' as u8 {
            PieceType::WR
        } else if b == 'Q' as u8 {
            PieceType::WQ
        } else if b == 'K' as u8 {
            PieceType::WK
        } else if b == 'p' as u8 {
            PieceType::BP
        } else if b == 'n' as u8 {
            PieceType::BN
        } else if b == 'b' as u8 {
            PieceType::BB
        } else if b == 'r' as u8 {
            PieceType::BR
        } else if b == 'q' as u8 {
            PieceType::BQ
        } else if b == 'k' as u8 {
            PieceType::BK
        } else {
            PieceType::NoPiece
        }
    }

    /// The piece that a letter of FEN notation names.
    pub fn from_fen_byte(b: u8) -> (r: PieceType)
        ensures
            r == PieceType::of_fen_byte(b),
    {
        if b == 80 {
            PieceType::WP
        } else if b == 78 {
            PieceType::WN
        } else if b == 66 {
            PieceType::WB
        } else if b == 82 {
            PieceType::WR
        } else if b == 81 {
            PieceType::WQ
        } else if b == 75 {
            PieceType::WK
        } else if b == 112 {
            PieceType::BP
        } else if b == 110 {
            PieceType::BN
        } else if b == 98 {
            PieceType::BB
        } else if b == 114 {
            PieceType::BR
        } else if b == 113 {
            PieceType::BQ
        } else if b == 107 {
            PieceType::BK
        } else {
            PieceType::NoPiece
        }
    }

    /// The symbol that shows the piece on a board.
    pub open spec fn symbol(self) -> &'static str {
        match self {
            PieceType::WP => "♟",
            PieceType::WN => "♞",
            PieceType::WB => "♝",
            PieceType::WR => "♜",
            PieceType::WQ => "♛",
            PieceType::WK => "♚",
            PieceType::BP => "♙",
            PieceType::BN => "♘",
            PieceType::BB => "♗",
            PieceType::BR => "♖",
            PieceType::BQ => "♕",
            PieceType::BK => "♔",
            PieceType::NoPiece => "No Piece",
        }
    }

    /// The symbol that shows the piece on a board, and its length in characters.
    pub fn to_symbol(self) -> (r: (&'static str, usize))
        ensures
            r.0 == self.symbol(),
            r.1 == self.symbol()@.len(),
    {
        match self {
            PieceType::WP => {
                proof {
                    reveal_strlit("♟");
                }
                ("♟", 1)
            },
            PieceType::WN => {
                proof {
                    reveal_strlit("♞");
                }
                ("♞", 1)
            },
            PieceType::WB => {
                proof {
                    reveal_strlit("♝");
                }
                ("♝", 1)
            },
            PieceType::WR => {
                proof {
                    reveal_strlit("♜");
                }
                ("♜", 1)
            },
            PieceType::WQ => {
                proof {
                    reveal_strlit("♛");
                }
                ("♛", 1)
            },
            PieceType::WK => {
                proof {
                    reveal_strlit("♚");
                }
                ("♚", 1)
            },
            PieceType::BP => {
                proof {
                    reveal_strlit("♙");
                }
                ("♙", 1)
            },
            PieceType::BN => {
                proof {
                    reveal_strlit("♘");
                }
                ("♘", 1)
            },
            PieceType::BB => {
                proof {
                    reveal_strlit("♗");
                }
                ("♗", 1)
            },
            PieceType::BR => {
                proof {
                    reveal_strlit("♖");
                }
                ("♖", 1)
            },
            PieceType::BQ => {
                proof {
                    reveal_strlit("♕");
                }
                ("♕", 1)
            },
            PieceType::BK => {
                proof {
                    reveal_strlit("♔");
                }
                ("♔", 1)
            },
            PieceType::NoPiece => {
                proof {
                    reveal_strlit("No Piece");
                }
                ("No Piece", 8)
            },
        }
    }

    /// The FEN letter of a piece.
    pub open spec fn fen_byte(self) -> u8 {
        match self {
            PieceType::WP => 'P' as u8,
            PieceType::WN => 'N' as u8,
            PieceType::WB => 'B' as u8,
            PieceType::WR => 'R' as u8,
            PieceType::WQ => 'Q' as u8,
            PieceType::WK => 'K' as u8,
            PieceType::BP => 'p' as u8,
            PieceType::BN => 'n' as u8,
            PieceType::BB => 'b' as u8,
            PieceType::BR => 'r' as u8,
            PieceType::BQ => 'q' as u8,
            PieceType::BK => 'k' as u8,
            PieceType::NoPiece => '.' as u8,
        }
    }

    /// The FEN letter of a piece (a dot for the empty marker).
    pub fn to_fen_byte(self) -> (r: u8)
        ensures
            r == self.fen_byte(),
    {
        match self {
            PieceType::WP => 80,
            PieceType::WN => 78,
            PieceType::WB => 66,
            PieceType::WR => 82,
            PieceType::WQ => 81,
            PieceType::WK => 75,
            PieceType::BP => 112,
            PieceType::BN => 110,
            PieceType::BB => 98,
            PieceType::BR => 114,
            PieceType::BQ => 113,
            PieceType::BK => 107,
            PieceType::NoPiece => 46,
        }
    }
}

/// Reading the number of a piece gives the piece back.
pub proof fn law_index_round_trip(p: PieceType)
    ensures
        PieceType::of_index(p.index()) == p,
        0 <= p.index() <= 12,
{
}

/// Every FEN letter of a piece reads back as that piece.
pub proof fn law_fen_byte_round_trip(p: PieceType)
    requires
        p != PieceType::NoPiece,
    ensures
        PieceType::of_fen_byte(p.fen_byte()) == p,
{
}

} // verus!
