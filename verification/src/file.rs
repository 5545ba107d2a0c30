//! Files (columns) of the board, a to h.
use vstd::prelude::*;

verus! {

#[derive(Clone, Copy, PartialEq, Eq, Structural, Debug, Hash)]
pub enum File {
    FA,
    FB,
    FC,
    FD,
    FE,
    FF,
    FG,
    FH,
}

impl File {
    /// Column number, 0 for file a up to 7 for file h.
    pub open spec fn index(self) -> int {
        match self {
            File::FA => 0,
            File::FB => 1,
            File::FC => 2,
            File::FD => 3,
            File::FE => 4,
            File::FF => 5,
            File::FG => 6,
            File::FH => 7,
        }
    }

    /// The file with column number `number`.
    pub fn from_index(number: u8) -> (r: File)
        requires
            number < 8,
        ensures
            r.index() == number,
    {
        match number {
            0 => File::FA,
            1 => File::FB,
            2 => File::FC,
            3 => File::FD,
            4 => File::FE,
            5 => File::FF,
            6 => File::FG,
            _ => File::FH,
        }
    }

    /// Column number of the file.
    pub fn to_index(self) -> (r: u8)
        ensures
            r == self.index(),
    {
        match self {
            File::FA => 0,
            File::FB => 1,
            File::FC => 2,
            File::FD => 3,
            File::FE => 4,
            File::FF => 5,
            File::FG => 6,
            File::FH => 7,
        }
    }

    /// The file named by a letter from `a` to `h`.
    pub fn from_char(ch: char) -> (r: File)
        requires
            'a' <= ch <= 'h',
        ensures
            r.index() == ch as int - 'a' as int,
    {
        match ch {
            'a' => File::FA,
            'b' => File::FB,
            'c' => File::FC,
            'd' => File::FD,
            'e' => File::FE,
            'f' => File::FF,
            'g' => File::FG,
            _ => File::FH,
        }
    }

    /// The letter that names the file.
    pub fn to_char(self) -> (r: char)
        ensures
            r as int == 'a' as int + self.index(),
    {
        match self {
            File::FA => 'a',
            File::FB => 'b',
            File::FC => 'c',
            File::FD => 'd',
            File::FE => 'e',
            File::FF => 'f',
            File::FG => 'g',
            File::FH => 'h',
        }
    }
}

} // verus!
