//! The closed set of two-letter general-category codes, validated at the
//! ingestion boundary: unknown codes are rejected, never passed through.

use vstd::prelude::*;
use vstd::string::StrSliceExecFns;

verus! {

#[derive(Clone, Copy, PartialEq, Eq, Structural, Debug)]
pub enum Category {
    Lu,
    Ll,
    Lt,
    Lm,
    Lo,
    Mn,
    Mc,
    Me,
    Nd,
    Nl,
    No,
    Pc,
    Pd,
    Ps,
    Pe,
    Pi,
    Pf,
    Po,
    Sm,
    Sc,
    Sk,
    So,
    Zs,
    Zl,
    Zp,
    Cc,
    Cf,
    Cs,
    Co,
    Cn,
}

impl Category {
    /// The two-letter code of the category, as the base file writes it.
    pub open spec fn code_spec(self) -> Seq<char> {
        match self {
            Category::Lu => "Lu"@,
            Category::Ll => "Ll"@,
            Category::Lt => "Lt"@,
            Category::Lm => "Lm"@,
            Category::Lo => "Lo"@,
            Category::Mn => "Mn"@,
            Category::Mc => "Mc"@,
            Category::Me => "Me"@,
            Category::Nd => "Nd"@,
            Category::Nl => "Nl"@,
            Category::No => "No"@,
            Category::Pc => "Pc"@,
            Category::Pd => "Pd"@,
            Category::Ps => "Ps"@,
            Category::Pe => "Pe"@,
            Category::Pi => "Pi"@,
            Category::Pf => "Pf"@,
            Category::Po => "Po"@,
            Category::Sm => "Sm"@,
            Category::Sc => "Sc"@,
            Category::Sk => "Sk"@,
            Category::So => "So"@,
            Category::Zs => "Zs"@,
            Category::Zl => "Zl"@,
            Category::Zp => "Zp"@,
            Category::Cc => "Cc"@,
            Category::Cf => "Cf"@,
            Category::Cs => "Cs"@,
            Category::Co => "Co"@,
            Category::Cn => "Cn"@,
        }
    }

    /// Which category a two-character code denotes, if any.
    pub open spec fn spec_from_code(s: Seq<char>) -> Option<Category> {
        if s.len() != 2 {
            None
        } else if s[0] == 'L' {
            if s[1] == 'u' {
                Some(Category::Lu)
            } else if s[1] == 'l' {
                Some(Category::Ll)
            } else if s[1] == 't' {
                Some(Category::Lt)
            } else if s[1] == 'm' {
                Some(Category::Lm)
            } else if s[1] == 'o' {
                Some(Category::Lo)
            } else {
                None
            }
        } else if s[0] == 'M' {
            if s[1] == 'n' {
                Some(Category::Mn)
            } else if s[1] == 'c' {
                Some(Category::Mc)
            } else if s[1] == 'e' {
                Some(Category::Me)
            } else {
                None
            }
        } else if s[0] == 'N' {
            if s[1] == 'd' {
                Some(Category::Nd)
            } else if s[1] == 'l' {
                Some(Category::Nl)
            } else if s[1] == 'o' {
                Some(Category::No)
            } else {
                None
            }
        } else if s[0] == 'P' {
            if s[1] == 'c' {
                Some(Category::Pc)
            } else if s[1] == 'd' {
                Some(Category::Pd)
            } else if s[1] == 's' {
                Some(Category::Ps)
            } else if s[1] == 'e' {
                Some(Category::Pe)
            } else if s[1] == 'i' {
                Some(Category::Pi)
            } else if s[1] == 'f' {
                Some(Category::Pf)
            } else if s[1] == 'o' {
                Some(Category::Po)
            } else {
                None
            }
        } else if s[0] == 'S' {
            if s[1] == 'm' {
                Some(Category::Sm)
            } else if s[1] == 'c' {
                Some(Category::Sc)
            } else if s[1] == 'k' {
                Some(Category::Sk)
            } else if s[1] == 'o' {
                Some(Category::So)
            } else {
                None
            }
        } else if s[0] == 'Z' {
            if s[1] == 's' {
                Some(Category::Zs)
            } else if s[1] == 'l' {
                Some(Category::Zl)
            } else if s[1] == 'p' {
                Some(Category::Zp)
            } else {
                None
            }
        } else if s[0] == 'C' {
            if s[1] == 'c' {
                Some(Category::Cc)
            } else if s[1] == 'f' {
                Some(Category::Cf)
            } else if s[1] == 's' {
                Some(Category::Cs)
            } else if s[1] == 'o' {
                Some(Category::Co)
            } else if s[1] == 'n' {
                Some(Category::Cn)
            } else {
                None
            }
        } else {
            None
        }
    }

    /// Parses a category code, rejecting anything outside the closed set.
    pub fn from_code(s: &str) -> (r: Option<Category>)
        ensures
            r == Self::spec_from_code(s@),
    {
        if s.unicode_len() != 2 {
            return None;
        }
        let c0 = s.get_char(0);
        let c1 = s.get_char(1);
        match c0 {
            'L' => match c1 {
                'u' => Some(Category::Lu),
                'l' => Some(Category::Ll),
                't' => Some(Category::Lt),
                'm' => Some(Category::Lm),
                'o' => Some(Category::Lo),
                _ => None,
            },
            'M' => match c1 {
                'n' => Some(Category::Mn),
                'c' => Some(Category::Mc),
                'e' => Some(Category::Me),
                _ => None,
            },
            'N' => match c1 {
                'd' => Some(Category::Nd),
                'l' => Some(Category::Nl),
                'o' => Some(Category::No),
                _ => None,
            },
            'P' => match c1 {
                'c' => Some(Category::Pc),
                'd' => Some(Category::Pd),
                's' => Some(Category::Ps),
                'e' => Some(Category::Pe),
                'i' => Some(Category::Pi),
                'f' => Some(Category::Pf),
                'o' => Some(Category::Po),
                _ => None,
            },
            'S' => match c1 {
                'm' => Some(Category::Sm),
                'c' => Some(Category::Sc),
                'k' => Some(Category::Sk),
                'o' => Some(Category::So),
                _ => None,
            },
            'Z' => match c1 {
                's' => Some(Category::Zs),
                'l' => Some(Category::Zl),
                'p' => Some(Category::Zp),
                _ => None,
            },
            'C' => match c1 {
                'c' => Some(Category::Cc),
                'f' => Some(Category::Cf),
                's' => Some(Category::Cs),
                'o' => Some(Category::Co),
                'n' => Some(Category::Cn),
                _ => None,
            },
            _ => None,
        }
    }

    /// The two-letter code of the category.
    pub fn code(&self) -> (r: &'static str)
        ensures
            r@ == self.code_spec(),
    {
        match self {
            Category::Lu => "Lu",
            Category::Ll => "Ll",
            Category::Lt => "Lt",
            Category::Lm => "Lm",
            Category::Lo => "Lo",
            Category::Mn => "Mn",
            Category::Mc => "Mc",
            Category::Me => "Me",
            Category::Nd => "Nd",
            Category::Nl => "Nl",
            Category::No => "No",
            Category::Pc => "Pc",
            Category::Pd => "Pd",
            Category::Ps => "Ps",
            Category::Pe => "Pe",
            Category::Pi => "Pi",
            Category::Pf => "Pf",
            Category::Po => "Po",
            Category::Sm => "Sm",
            Category::Sc => "Sc",
            Category::Sk => "Sk",
            Category::So => "So",
            Category::Zs => "Zs",
            Category::Zl => "Zl",
            Category::Zp => "Zp",
            Category::Cc => "Cc",
            Category::Cf => "Cf",
            Category::Cs => "Cs",
            Category::Co => "Co",
            Category::Cn => "Cn",
        }
    }

    /// The human-readable description shown beside a looked-up character.
    pub open spec fn description_spec(self) -> Seq<char> {
        match self {
            Category::Lu => "Uppercase Letter"@,
            Category::Ll => "Lowercase Letter"@,
            Category::Lt => "Titlecase Letter"@,
            Category::Lm => "Modifier Letter"@,
            Category::Lo => "Other Letter"@,
            Category::Mn => "Non-spacing Mark"@,
            Category::Mc => "Spacing Mark"@,
            Category::Me => "Enclosing Mark"@,
            Category::Nd => "Decimal Number"@,
            Category::Nl => "Letter Number"@,
            Category::No => "Other Number"@,
            Category::Pc => "Connector Punctuation"@,
            Category::Pd => "Dash Punctuation"@,
            Category::Ps => "Opening Punctuation"@,
            Category::Pe => "Closing Punctuation"@,
            Category::Pi => "Initial Quotation Mark"@,
            Category::Pf => "Final Quotation Mark"@,
            Category::Po => "Other Punctuation"@,
            Category::Sm => "Mathematical Symbol"@,
            Category::Sc => "Currency Sign"@,
            Category::Sk => "Non-letter Modifier Symbol"@,
            Category::So => "Other Symbol"@,
            Category::Zs => "Space Separator"@,
            Category::Zl => "Line Separator"@,
            Category::Zp => "Paragraph Separator"@,
            Category::Cc => "Control Character"@,
            Category::Cf => "Format Control Character"@,
            Category::Cs => "Surrogate Code Point"@,
            Category::Co => "Private-use Character"@,
            Category::Cn => "Reserved Unassigned Code Point"@,
        }
    }

    /// The human-readable description of the category.
    pub fn description(&self) -> (r: &'static str)
        ensures
            r@ == self.description_spec(),
    {
        match self {
            Category::Lu => "Uppercase Letter",
            Category::Ll => "Lowercase Letter",
            Category::Lt => "Titlecase Letter",
            Category::Lm => "Modifier Letter",
            Category::Lo => "Other Letter",
            Category::Mn => "Non-spacing Mark",
            Category::Mc => "Spacing Mark",
            Category::Me => "Enclosing Mark",
            Category::Nd => "Decimal Number",
            Category::Nl => "Letter Number",
            Category::No => "Other Number",
            Category::Pc => "Connector Punctuation",
            Category::Pd => "Dash Punctuation",
            Category::Ps => "Opening Punctuation",
            Category::Pe => "Closing Punctuation",
            Category::Pi => "Initial Quotation Mark",
            Category::Pf => "Final Quotation Mark",
            Category::Po => "Other Punctuation",
            Category::Sm => "Mathematical Symbol",
            Category::Sc => "Currency Sign",
            Category::Sk => "Non-letter Modifier Symbol",
            Category::So => "Other Symbol",
            Category::Zs => "Space Separator",
            Category::Zl => "Line Separator",
            Category::Zp => "Paragraph Separator",
            Category::Cc => "Control Character",
            Category::Cf => "Format Control Character",
            Category::Cs => "Surrogate Code Point",
            Category::Co => "Private-use Character",
            Category::Cn => "Reserved Unassigned Code Point",
        }
    }
}

/// Writing a category's code and parsing it again gives the category back:
/// the code set is closed and free of collisions.
pub proof fn lemma_category_code_round_trip(c: Category)
    ensures
        Category::spec_from_code(c.code_spec()) == Some(c),
{
    reveal_strlit("Lu");
    reveal_strlit("Ll");
    reveal_strlit("Lt");
    reveal_strlit("Lm");
    reveal_strlit("Lo");
    reveal_strlit("Mn");
    reveal_strlit("Mc");
    reveal_strlit("Me");
    reveal_strlit("Nd");
    reveal_strlit("Nl");
    reveal_strlit("No");
    reveal_strlit("Pc");
    reveal_strlit("Pd");
    reveal_strlit("Ps");
    reveal_strlit("Pe");
    reveal_strlit("Pi");
    reveal_strlit("Pf");
    reveal_strlit("Po");
    reveal_strlit("Sm");
    reveal_strlit("Sc");
    reveal_strlit("Sk");
    reveal_strlit("So");
    reveal_strlit("Zs");
    reveal_strlit("Zl");
    reveal_strlit("Zp");
    reveal_strlit("Cc");
    reveal_strlit("Cf");
    reveal_strlit("Cs");
    reveal_strlit("Co");
    reveal_strlit("Cn");
}

} // verus!
