//! The closed set of bidirectional-algorithm class codes, validated at the
//! ingestion boundary like the general categories.

use vstd::prelude::*;
use vstd::string::StrSliceExecFns;

verus! {

#[derive(Clone, Copy, PartialEq, Eq, Structural, Debug)]
pub enum BidiClass {
    L,
    R,
    Al,
    En,
    Es,
    Et,
    An,
    Cs,
    Nsm,
    Bn,
    B,
    S,
    Ws,
    On,
    Lre,
    Lro,
    Rle,
    Rlo,
    Pdf,
    Lri,
    Rli,
    Fsi,
    Pdi,
}

impl BidiClass {
    /// The code of the class, as the base file writes it.
    pub open spec fn code_spec(self) -> Seq<char> {
        match self {
            BidiClass::L => "L"@,
            BidiClass::R => "R"@,
            BidiClass::Al => "AL"@,
            BidiClass::En => "EN"@,
            BidiClass::Es => "ES"@,
            BidiClass::Et => "ET"@,
            BidiClass::An => "AN"@,
            BidiClass::Cs => "CS"@,
            BidiClass::Nsm => "NSM"@,
            BidiClass::Bn => "BN"@,
            BidiClass::B => "B"@,
            BidiClass::S => "S"@,
            BidiClass::Ws => "WS"@,
            BidiClass::On => "ON"@,
            BidiClass::Lre => "LRE"@,
            BidiClass::Lro => "LRO"@,
            BidiClass::Rle => "RLE"@,
            BidiClass::Rlo => "RLO"@,
            BidiClass::Pdf => "PDF"@,
            BidiClass::Lri => "LRI"@,
            BidiClass::Rli => "RLI"@,
            BidiClass::Fsi => "FSI"@,
            BidiClass::Pdi => "PDI"@,
        }
    }

    /// Which class a code denotes, if any.
    pub open spec fn spec_from_code(s: Seq<char>) -> Option<BidiClass> {
        if s.len() == 1 {
            if s[0] == 'L' {
                Some(BidiClass::L)
            } else if s[0] == 'R' {
                Some(BidiClass::R)
            } else if s[0] == 'B' {
                Some(BidiClass::B)
            } else if s[0] == 'S' {
                Some(BidiClass::S)
            } else {
                None
            }
        } else if s.len() == 2 {
            if s[0] == 'A' && s[1] == 'L' {
                Some(BidiClass::Al)
            } else if s[0] == 'E' && s[1] == 'N' {
                Some(BidiClass::En)
            } else if s[0] == 'E' && s[1] == 'S' {
                Some(BidiClass::Es)
            } else if s[0] == 'E' && s[1] == 'T' {
                Some(BidiClass::Et)
            } else if s[0] == 'A' && s[1] == 'N' {
                Some(BidiClass::An)
            } else if s[0] == 'C' && s[1] == 'S' {
                Some(BidiClass::Cs)
            } else if s[0] == 'B' && s[1] == 'N' {
                Some(BidiClass::Bn)
            } else if s[0] == 'W' && s[1] == 'S' {
                Some(BidiClass::Ws)
            } else if s[0] == 'O' && s[1] == 'N' {
                Some(BidiClass::On)
            } else {
                None
            }
        } else if s.len() == 3 {
            if s[0] == 'N' && s[1] == 'S' && s[2] == 'M' {
                Some(BidiClass::Nsm)
            } else if s[0] == 'L' && s[1] == 'R' && s[2] == 'E' {
                Some(BidiClass::Lre)
            } else if s[0] == 'L' && s[1] == 'R' && s[2] == 'O' {
                Some(BidiClass::Lro)
            } else if s[0] == 'R' && s[1] == 'L' && s[2] == 'E' {
                Some(BidiClass::Rle)
            } else if s[0] == 'R' && s[1] == 'L' && s[2] == 'O' {
                Some(BidiClass::Rlo)
            } else if s[0] == 'P' && s[1] == 'D' && s[2] == 'F' {
                Some(BidiClass::Pdf)
            } else if s[0] == 'L' && s[1] == 'R' && s[2] == 'I' {
                Some(BidiClass::Lri)
            } else if s[0] == 'R' && s[1] == 'L' && s[2] == 'I' {
                Some(BidiClass::Rli)
            } else if s[0] == 'F' && s[1] == 'S' && s[2] == 'I' {
                Some(BidiClass::Fsi)
            } else if s[0] == 'P' && s[1] == 'D' && s[2] == 'I' {
                Some(BidiClass::Pdi)
            } else {
                None
            }
        } else {
            None
        }
    }

    /// Parses a bidirectional class code, rejecting anything outside the
    /// closed set.
    pub fn from_code(s: &str) -> (r: Option<BidiClass>)
        ensures
            r == Self::spec_from_code(s@),
    {
        let n = s.unicode_len();
        if n == 1 {
            match s.get_char(0) {
                'L' => Some(BidiClass::L),
                'R' => Some(BidiClass::R),
                'B' => Some(BidiClass::B),
                'S' => Some(BidiClass::S),
                _ => None,
            }
        } else if n == 2 {
            let c0 = s.get_char(0);
            let c1 = s.get_char(1);
            match (c0, c1) {
                ('A', 'L') => Some(BidiClass::Al),
                ('E', 'N') => Some(BidiClass::En),
                ('E', 'S') => Some(BidiClass::Es),
                ('E', 'T') => Some(BidiClass::Et),
                ('A', 'N') => Some(BidiClass::An),
                ('C', 'S') => Some(BidiClass::Cs),
                ('B', 'N') => Some(BidiClass::Bn),
                ('W', 'S') => Some(BidiClass::Ws),
                ('O', 'N') => Some(BidiClass::On),
                _ => None,
            }
        } else if n == 3 {
            let c0 = s.get_char(0);
            let c1 = s.get_char(1);
            let c2 = s.get_char(2);
            match (c0, c1, c2) {
                ('N', 'S', 'M') => Some(BidiClass::Nsm),
                ('L', 'R', 'E') => Some(BidiClass::Lre),
                ('L', 'R', 'O') => Some(BidiClass::Lro),
                ('R', 'L', 'E') => Some(BidiClass::Rle),
                ('R', 'L', 'O') => Some(BidiClass::Rlo),
                ('P', 'D', 'F') => Some(BidiClass::Pdf),
                ('L', 'R', 'I') => Some(BidiClass::Lri),
                ('R', 'L', 'I') => Some(BidiClass::Rli),
                ('F', 'S', 'I') => Some(BidiClass::Fsi),
                ('P', 'D', 'I') => Some(BidiClass::Pdi),
                _ => None,
            }
        } else {
            None
        }
    }

    /// The code of the class.
    pub fn code(&self) -> (r: &'static str)
        ensures
            r@ == self.code_spec(),
    {
        match self {
            BidiClass::L => "L",
            BidiClass::R => "R",
            BidiClass::Al => "AL",
            BidiClass::En => "EN",
            BidiClass::Es => "ES",
            BidiClass::Et => "ET",
            BidiClass::An => "AN",
            BidiClass::Cs => "CS",
            BidiClass::Nsm => "NSM",
            BidiClass::Bn => "BN",
            BidiClass::B => "B",
            BidiClass::S => "S",
            BidiClass::Ws => "WS",
            BidiClass::On => "ON",
            BidiClass::Lre => "LRE",
            BidiClass::Lro => "LRO",
            BidiClass::Rle => "RLE",
            BidiClass::Rlo => "RLO",
            BidiClass::Pdf => "PDF",
            BidiClass::Lri => "LRI",
            BidiClass::Rli => "RLI",
            BidiClass::Fsi => "FSI",
            BidiClass::Pdi => "PDI",
        }
    }
}

/// Writing a class's code and parsing it again gives the class back.
pub proof fn lemma_bidi_code_round_trip(c: BidiClass)
    ensures
        BidiClass::spec_from_code(c.code_spec()) == Some(c),
{
    reveal_strlit("L");
    reveal_strlit("R");
    reveal_strlit("AL");
    reveal_strlit("EN");
    reveal_strlit("ES");
    reveal_strlit("ET");
    reveal_strlit("AN");
    reveal_strlit("CS");
    reveal_strlit("NSM");
    reveal_strlit("BN");
    reveal_strlit("B");
    reveal_strlit("S");
    reveal_strlit("WS");
    reveal_strlit("ON");
    reveal_strlit("LRE");
    reveal_strlit("LRO");
    reveal_strlit("RLE");
    reveal_strlit("RLO");
    reveal_strlit("PDF");
    reveal_strlit("LRI");
    reveal_strlit("RLI");
    reveal_strlit("FSI");
    reveal_strlit("PDI");
}

} // verus!
