//! Squares of the board, numbered 0 (a8) to 63 (h1) row by row from rank 8.
use vstd::prelude::*;
use vstd::std_specs::bits::u64_trailing_zeros;
use vstd::string::StringSliceAdditionalSpecFns;
use crate::bits::{bit, lemma_nonzero, lemma_single};
use crate::bitboard::Bitboard;
use crate::file::File;
use crate::rank::Rank;
use crate::text::{ascii_chars, ascii_string};

verus! {

#[derive(Clone, Copy, PartialEq, Eq, Structural, Debug, Hash)]
pub struct Square(pub u8);

/// Error for a text that names no square.
#[derive(Debug)]
pub struct SquareParseError(pub &'static str);

/// Whether the two bytes name a square: a file letter then a rank digit.
pub open spec fn is_square_name(f: u8, r: u8) -> bool {
    'a' as u8 <= f <= 'h' as u8 && '1' as u8 <= r <= '8' as u8
}

/// The square named by a file letter and a rank digit.
pub open spec fn square_of_name(f: u8, r: u8) -> int {
    ('8' as u8 - r) * 8 + (f - 'a' as u8)
}

/// The message of the error for bytes that name no square, or `None` when
/// they name one.
pub open spec fn square_name_failure(b: Seq<u8>) -> Option<&'static str> {
    if b.len() != 2 {
        Some("Invalid string length!")
    } else if !('a' as u8 <= b[0] <= 'h' as u8) {
        Some("Illegal file char!")
    } else if !('1' as u8 <= b[1] <= '8' as u8) {
        Some("Illegal rank char!")
    } else {
        None
    }
}

/// Numbers of the squares by name.
pub const A8: u8 = 0;
pub const B8: u8 = 1;
pub const C8: u8 = 2;
pub const D8: u8 = 3;
pub const E8: u8 = 4;
pub const F8: u8 = 5;
pub const G8: u8 = 6;
pub const H8: u8 = 7;
pub const A7: u8 = 8;
pub const B7: u8 = 9;
pub const C7: u8 = 10;
pub const D7: u8 = 11;
pub const E7: u8 = 12;
pub const F7: u8 = 13;
pub const G7: u8 = 14;
pub const H7: u8 = 15;
pub const A6: u8 = 16;
pub const B6: u8 = 17;
pub const C6: u8 = 18;
pub const D6: u8 = 19;
pub const E6: u8 = 20;
pub const F6: u8 = 21;
pub const G6: u8 = 22;
pub const H6: u8 = 23;
pub const A5: u8 = 24;
pub const B5: u8 = 25;
pub const C5: u8 = 26;
pub const D5: u8 = 27;
pub const E5: u8 = 28;
pub const F5: u8 = 29;
pub const G5: u8 = 30;
pub const H5: u8 = 31;
pub const A4: u8 = 32;
pub const B4: u8 = 33;
pub const C4: u8 = 34;
pub const D4: u8 = 35;
pub const E4: u8 = 36;
pub const F4: u8 = 37;
pub const G4: u8 = 38;
pub const H4: u8 = 39;
pub const A3: u8 = 40;
pub const B3: u8 = 41;
pub const C3: u8 = 42;
pub const D3: u8 = 43;
pub const E3: u8 = 44;
pub const F3: u8 = 45;
pub const G3: u8 = 46;
pub const H3: u8 = 47;
pub const A2: u8 = 48;
pub const B2: u8 = 49;
pub const C2: u8 = 50;
pub const D2: u8 = 51;
pub const E2: u8 = 52;
pub const F2: u8 = 53;
pub const G2: u8 = 54;
pub const H2: u8 = 55;
pub const A1: u8 = 56;
pub const B1: u8 = 57;
pub const C1: u8 = 58;
pub const D1: u8 = 59;
pub const E1: u8 = 60;
pub const F1: u8 = 61;
pub const G1: u8 = 62;
pub const H1: u8 = 63;

impl Square {

    /// Whether the value names a square of the board.
    pub open spec fn valid(self) -> bool {
        self.0 < 64
    }

    /// The square with number `number`.
    pub fn from_index(number: u8) -> (r: Square)
        requires
            number < 64,
        ensures
            r.0 == number,
    {
        Square(number)
    }

    /// The lowest square of a non-empty bitboard.
    pub fn from_bitboard(bb: Bitboard) -> (r: Square)
        requires
            bb.0 != 0,
        ensures
            r.0 == u64_trailing_zeros(bb.0),
            r.valid(),
            bit(bb.0, r.0 as int),
            forall|j: int| 0 <= j < r.0 ==> !#[trigger] bit(bb.0, j),
    {
        proof {
            lemma_nonzero(bb.0);
        }
        Square(bb.0.trailing_zeros() as u8)
    }

    /// The bitboard holding only this square.
    pub fn to_bb(self) -> (r: Bitboard)
        requires
            self.valid(),
        ensures
            r.0 == 1u64 << self.0 as u64,
            forall|j: int| #[trigger] bit(r.0, j) <==> j == self.0,
    {
        proof {
            lemma_single(self.0 as u64);
        }
        Bitboard(1u64 << (self.0 as u64))
    }

    /// The rank of the square.
    pub fn rank(self) -> (r: Rank)
        requires
            self.valid(),
        ensures
            r.index() == self.0 / 8,
    {
        Rank::from_index(self.0 / 8)
    }

    /// The file of the square.
    pub fn file(self) -> (r: File)
        requires
            self.valid(),
        ensures
            r.index() == self.0 % 8,
    {
        File::from_index(self.0 % 8)
    }

    /// The two bytes of the square's name: file letter, then rank digit.
    pub open spec fn name_bytes(self) -> Seq<u8> {
        seq![('a' as u8 + self.0 % 8) as u8, ('8' as u8 - self.0 / 8) as u8]
    }

    /// Appends the square's name, such as `e4`.
    pub fn push_name(self, bytes: &mut Vec<u8>)
        requires
            self.valid(),
        ensures
            final(bytes)@ == old(bytes)@ + self.name_bytes(),
    {
        bytes.push(97u8 + self.0 % 8);
        bytes.push(56u8 - self.0 / 8);
        proof {
            assert(final(bytes)@ =~= old(bytes)@ + self.name_bytes());
        }
    }

    /// The square's name, such as `e4`.
    pub fn to_string(self) -> (r: String)
        requires
            self.valid(),
        ensures
            r@ == ascii_chars(self.name_bytes()),
    {
        let mut bytes: Vec<u8> = Vec::new();
        self.push_name(&mut bytes);
        ascii_string(bytes)
    }

    /// The square one rank closer to rank 8.
    pub fn above(self) -> (r: Square)
        requires
            8 <= self.0 < 64,
        ensures
            r.0 == self.0 - 8,
    {
        Square(self.0 - 8)
    }

    /// The square one rank closer to rank 1.
    pub fn below(self) -> (r: Square)
        requires
            self.0 < 56,
        ensures
            r.0 == self.0 + 8,
    {
        Square(self.0 + 8)
    }

    /// The next square towards file a.
    pub fn left(self) -> (r: Square)
        requires
            1 <= self.0 < 64,
        ensures
            r.0 == self.0 - 1,
    {
        Square(self.0 - 1)
    }

    /// The next square towards file h.
    pub fn right(self) -> (r: Square)
        requires
            self.0 < 63,
        ensures
            r.0 == self.0 + 1,
    {
        Square(self.0 + 1)
    }

    /// Reads a square from its name in coordinates, such as `e4`.
    pub fn parse_str(sq_str: &str) -> (r: Result<Square, SquareParseError>)
        ensures
            r is Ok <==> (sq_str.spec_bytes().len() == 2 && is_square_name(
                sq_str.spec_bytes()[0],
                sq_str.spec_bytes()[1],
            )),
            r matches Ok(sq) ==> sq.0 == square_of_name(sq_str.spec_bytes()[0], sq_str.spec_bytes()[1]),
    {
        let bytes = sq_str.as_bytes();
        Self::parse_bytes(bytes)
    }

    /// Reads a square from the two bytes of its name.
    pub fn parse_bytes(bytes: &[u8]) -> (r: Result<Square, SquareParseError>)
        ensures
            r is Ok <==> (bytes@.len() == 2 && is_square_name(bytes@[0], bytes@[1])),
            r is Ok <==> square_name_failure(bytes@) is None,
            r matches Err(e) ==> square_name_failure(bytes@) == Some(e.0),
            r matches Ok(sq) ==> sq.0 == square_of_name(bytes@[0], bytes@[1]) && sq.valid(),
    {
        if bytes.len() != 2 {
            return Err(SquareParseError("Invalid string length!"));
        }
        let f = bytes[0];
        let r = bytes[1];
        if f < 97u8 || f > 104u8 {
            return Err(SquareParseError("Illegal file char!"));
        }
        if r < 49u8 || r > 56u8 {
            return Err(SquareParseError("Illegal rank char!"));
        }
        Ok(Square((56u8 - r) * 8 + (f - 97u8)))
    }
}

/// Reading a square's name gives the square back.
pub proof fn law_square_name_round_trip(sq: Square)
    requires
        sq.valid(),
    ensures
        square_name_failure(sq.name_bytes()) is None,
        square_of_name(sq.name_bytes()[0], sq.name_bytes()[1]) == sq.0,
{
}

} // verus!
