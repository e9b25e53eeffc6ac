//! The unified per-codepoint record that the parsers build, the annotators
//! stamp, and the store writer persists.

use vstd::prelude::*;
use crate::category::Category;
use crate::bidi::BidiClass;

verus! {

/// How a record is classified numerically, when it is at all.
#[derive(Clone, Copy, PartialEq, Eq, Structural, Debug)]
pub enum NumericType {
    Decimal,
    Digit,
    Numeric,
}

impl NumericType {
    /// The name of the classification, as the store writes it.
    pub open spec fn code_spec(self) -> Seq<char> {
        match self {
            NumericType::Decimal => "decimal"@,
            NumericType::Digit => "digit"@,
            NumericType::Numeric => "numeric"@,
        }
    }

    pub fn code(&self) -> (r: &'static str)
        ensures
            r@ == self.code_spec(),
    {
        match self {
            NumericType::Decimal => "decimal",
            NumericType::Digit => "digit",
            NumericType::Numeric => "numeric",
        }
    }
}

/// The mathematical image of one record.
pub ghost struct RecordModel {
    pub codepoint: u32,
    pub name: Seq<char>,
    pub category: Category,
    pub block: Seq<char>,
    pub age: Seq<char>,
    pub canonical_combining_class: u32,
    pub bidi_class: BidiClass,
    pub bidi_mirrored: bool,
    pub decomposition_type: Option<Seq<char>>,
    pub decomposition_mapping: Option<Seq<char>>,
    pub numeric_type: Option<NumericType>,
    pub numeric_value: Option<Seq<char>>,
    pub lowercase_mapping: Option<u32>,
    pub uppercase_mapping: Option<u32>,
    pub titlecase_mapping: Option<u32>,
    pub html_entity: Option<Seq<char>>,
}

impl RecordModel {
    /// The same record placed at another codepoint, as range expansion
    /// stamps one decoded row across a whole interval.
    pub open spec fn with_codepoint(self, cp: u32) -> RecordModel {
        RecordModel { codepoint: cp, ..self }
    }

    /// The same record with the block annotation set.
    pub open spec fn with_block(self, block: Seq<char>) -> RecordModel {
        RecordModel { block: block, ..self }
    }

    /// The same record with the age annotation set.
    pub open spec fn with_age(self, age: Seq<char>) -> RecordModel {
        RecordModel { age: age, ..self }
    }

    /// The same record with the entity annotation set.
    pub open spec fn with_entity(self, entity: Seq<char>) -> RecordModel {
        RecordModel { html_entity: Some(entity), ..self }
    }
}

pub open spec fn view_of_opt_string(o: Option<String>) -> Option<Seq<char>> {
    match o {
        Some(s) => Some(s@),
        None => None,
    }
}

/// One per assigned or range-expanded codepoint: every field the base file
/// supplies, plus the three annotations stamped later.
pub struct UnicodeCharRecord {
    pub codepoint: u32,
    pub name: String,
    pub category: Category,
    pub block: String,
    pub age: String,
    pub canonical_combining_class: u32,
    pub bidi_class: BidiClass,
    pub bidi_mirrored: bool,
    pub decomposition_type: Option<String>,
    pub decomposition_mapping: Option<String>,
    pub numeric_type: Option<NumericType>,
    pub numeric_value: Option<String>,
    pub lowercase_mapping: Option<u32>,
    pub uppercase_mapping: Option<u32>,
    pub titlecase_mapping: Option<u32>,
    pub html_entity: Option<String>,
}

impl View for UnicodeCharRecord {
    type V = RecordModel;

    open spec fn view(&self) -> RecordModel {
        RecordModel {
            codepoint: self.codepoint,
            name: self.name@,
            category: self.category,
            block: self.block@,
            age: self.age@,
            canonical_combining_class: self.canonical_combining_class,
            bidi_class: self.bidi_class,
            bidi_mirrored: self.bidi_mirrored,
            decomposition_type: view_of_opt_string(self.decomposition_type),
            decomposition_mapping: view_of_opt_string(self.decomposition_mapping),
            numeric_type: self.numeric_type,
            numeric_value: view_of_opt_string(self.numeric_value),
            lowercase_mapping: self.lowercase_mapping,
            uppercase_mapping: self.uppercase_mapping,
            titlecase_mapping: self.titlecase_mapping,
            html_entity: view_of_opt_string(self.html_entity),
        }
    }
}

fn clone_opt_string(o: &Option<String>) -> (r: Option<String>)
    ensures
        view_of_opt_string(r) == view_of_opt_string(*o),
{
    match o {
        Some(s) => Some(s.clone()),
        None => None,
    }
}

impl UnicodeCharRecord {
    /// A faithful copy, equal to the original in every modelled field.
    pub fn duplicate(&self) -> (r: UnicodeCharRecord)
        ensures
            r@ == self@,
    {
        UnicodeCharRecord {
            codepoint: self.codepoint,
            name: self.name.clone(),
            category: self.category,
            block: self.block.clone(),
            age: self.age.clone(),
            canonical_combining_class: self.canonical_combining_class,
            bidi_class: self.bidi_class,
            bidi_mirrored: self.bidi_mirrored,
            decomposition_type: clone_opt_string(&self.decomposition_type),
            decomposition_mapping: clone_opt_string(&self.decomposition_mapping),
            numeric_type: self.numeric_type,
            numeric_value: clone_opt_string(&self.numeric_value),
            lowercase_mapping: self.lowercase_mapping,
            uppercase_mapping: self.uppercase_mapping,
            titlecase_mapping: self.titlecase_mapping,
            html_entity: clone_opt_string(&self.html_entity),
        }
    }

    /// A faithful copy placed at another codepoint, as range expansion
    /// produces one.
    pub fn duplicate_at(&self, cp: u32) -> (r: UnicodeCharRecord)
        ensures
            r@ == self@.with_codepoint(cp),
    {
        let mut r = self.duplicate();
        r.codepoint = cp;
        r
    }
}

} // verus!
