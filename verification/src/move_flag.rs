//! Special kinds of moves.
use vstd::prelude::*;

verus! {

#[derive(Clone, Copy, PartialEq, Eq, Structural, Debug, Hash)]
pub enum MoveFlag {
    WEnPassant,
    BEnPassant,
    WDoublePawn,
    BDoublePawn,
    WKCastle,
    WQCastle,
    BKCastle,
    BQCastle,
    PromoN,
    PromoB,
    PromoR,
    PromoQ,
}

impl MoveFlag {
    /// The name of the flag.
    pub open spec fn name(self) -> &'static str {
        match self {
            MoveFlag::WEnPassant => "WEnPassant",
            MoveFlag::BEnPassant => "BEnPassant",
            MoveFlag::WDoublePawn => "WDoublePawn",
            MoveFlag::BDoublePawn => "BDoublePawn",
            MoveFlag::WKCastle => "WKCastle",
            MoveFlag::WQCastle => "WQCastle",
            MoveFlag::BKCastle => "BKCastle",
            MoveFlag::BQCastle => "BQCastle",
            MoveFlag::PromoN => "PromoN",
            MoveFlag::PromoB => "PromoB",
            MoveFlag::PromoR => "PromoR",
            MoveFlag::PromoQ => "PromoQ",
        }
    }

    /// The name of the flag.
    pub fn to_name(self) -> (r: &'static str)
        ensures
            r == self.name(),
    {
        match self {
            MoveFlag::WEnPassant => "WEnPassant",
            MoveFlag::BEnPassant => "BEnPassant",
            MoveFlag::WDoublePawn => "WDoublePawn",
            MoveFlag::BDoublePawn => "BDoublePawn",
            MoveFlag::WKCastle => "WKCastle",
            MoveFlag::WQCastle => "WQCastle",
            MoveFlag::BKCastle => "BKCastle",
            MoveFlag::BQCastle => "BQCastle",
            MoveFlag::PromoN => "PromoN",
            MoveFlag::PromoB => "PromoB",
            MoveFlag::PromoR => "PromoR",
            MoveFlag::PromoQ => "PromoQ",
        }
    }
}

/// Number of an optional flag: 0 when there is none, 1 to 12 for the flags in order.
pub open spec fn flag_code(f: Option<MoveFlag>) -> int {
    match f {
        None => 0,
        Some(MoveFlag::WEnPassant) => 1,
        Some(MoveFlag::BEnPassant) => 2,
        Some(MoveFlag::WDoublePawn) => 3,
        Some(MoveFlag::BDoublePawn) => 4,
        Some(MoveFlag::WKCastle) => 5,
        Some(MoveFlag::WQCastle) => 6,
        Some(MoveFlag::BKCastle) => 7,
        Some(MoveFlag::BQCastle) => 8,
        Some(MoveFlag::PromoN) => 9,
        Some(MoveFlag::PromoB) => 10,
        Some(MoveFlag::PromoR) => 11,
        Some(MoveFlag::PromoQ) => 12,
    }
}

/// The optional flag with number `c` (numbers above 12 give none).
pub open spec fn flag_of_code(c: int) -> Option<MoveFlag> {
    if c == 1 {
        Some(MoveFlag::WEnPassant)
    } else if c == 2 {
        Some(MoveFlag::BEnPassant)
    } else if c == 3 {
        Some(MoveFlag::WDoublePawn)
    } else if c == 4 {
        Some(MoveFlag::BDoublePawn)
    } else if c == 5 {
        Some(MoveFlag::WKCastle)
    } else if c == 6 {
        Some(MoveFlag::WQCastle)
    } else if c == 7 {
        Some(MoveFlag::BKCastle)
    } else if c == 8 {
        Some(MoveFlag::BQCastle)
    } else if c == 9 {
        Some(MoveFlag::PromoN)
    } else if c == 10 {
        Some(MoveFlag::PromoB)
    } else if c == 11 {
        Some(MoveFlag::PromoR)
    } else if c == 12 {
        Some(MoveFlag::PromoQ)
    } else {
        None
    }
}

/// Number of an optional flag.
pub fn flag_to_code(f: Option<MoveFlag>) -> (r: u32)
    ensures
        r == flag_code(f),
{
    match f {
        None => 0,
        Some(MoveFlag::WEnPassant) => 1,
        Some(MoveFlag::BEnPassant) => 2,
        Some(MoveFlag::WDoublePawn) => 3,
        Some(MoveFlag::BDoublePawn) => 4,
        Some(MoveFlag::WKCastle) => 5,
        Some(MoveFlag::WQCastle) => 6,
        Some(MoveFlag::BKCastle) => 7,
        Some(MoveFlag::BQCastle) => 8,
        Some(MoveFlag::PromoN) => 9,
        Some(MoveFlag::PromoB) => 10,
        Some(MoveFlag::PromoR) => 11,
        Some(MoveFlag::PromoQ) => 12,
    }
}

/// The optional flag with number `c`.
pub fn flag_from_code(c: u32) -> (r: Option<MoveFlag>)
    ensures
        r == flag_of_code(c as int),
{
    match c {
        1 => Some(MoveFlag::WEnPassant),
        2 => Some(MoveFlag::BEnPassant),
        3 => Some(MoveFlag::WDoublePawn),
        4 => Some(MoveFlag::BDoublePawn),
        5 => Some(MoveFlag::WKCastle),
        6 => Some(MoveFlag::WQCastle),
        7 => Some(MoveFlag::BKCastle),
        8 => Some(MoveFlag::BQCastle),
        9 => Some(MoveFlag::PromoN),
        10 => Some(MoveFlag::PromoB),
        11 => Some(MoveFlag::PromoR),
        12 => Some(MoveFlag::PromoQ),
        _ => None,
    }
}

impl MoveFlag {
    pub open spec fn spec_is_promotion(self) -> bool {
        self == MoveFlag::PromoN || self == MoveFlag::PromoB || self == MoveFlag::PromoR
            || self == MoveFlag::PromoQ
    }

    pub open spec fn spec_is_castle(self) -> bool {
        self == MoveFlag::WKCastle || self == MoveFlag::WQCastle || self == MoveFlag::BKCastle
            || self == MoveFlag::BQCastle
    }

    /// Whether the flag marks a promotion.
    pub fn is_promotion(self) -> (r: bool)
        ensures
            r == self.spec_is_promotion(),
    {
        match self {
            MoveFlag::PromoN | MoveFlag::PromoB | MoveFlag::PromoR | MoveFlag::PromoQ => true,
            _ => false,
        }
    }

    /// Whether the flag marks a castling move.
    pub fn is_castle(self) -> (r: bool)
        ensures
            r == self.spec_is_castle(),
    {
        match self {
            MoveFlag::WKCastle | MoveFlag::WQCastle | MoveFlag::BKCastle | MoveFlag::BQCastle => true,
            _ => false,
        }
    }
}

/// Reading back the number of a flag gives the flag.
pub proof fn law_flag_code_round_trip(f: Option<MoveFlag>)
    ensures
        flag_of_code(flag_code(f)) == f,
        0 <= flag_code(f) <= 12,
{
}

} // verus!
