//! One cell of a metadata column, and the strict total order in which the
//! cells of a column are kept.

use crate::lexing::{integer_text, integer_to_text};
use crate::text::{
    compare_text, lemma_text_lt_irreflexive, lemma_text_lt_total, lemma_text_lt_transitive,
    text_lt, Position,
};
use std::cmp::Ordering;
use vstd::prelude::*;
use vstd::std_specs::cmp::{PartialEqSpecImpl, PartialOrdSpecImpl};

verus! {

/// What a metadata cell holds, with its text as a sequence of characters.
pub enum Scalar {
    Null,
    Bool(bool),
    Integer(i64),
    /// The 64 bits of an IEEE-754 double.
    Float(u64),
    Text(Seq<char>),
    /// An ISO-8601 date, kept as text.
    Date(Seq<char>),
}

/// The rank of a variant: values of a lower rank come first. Strings and
/// dates share one rank and are told apart by their text.
pub open spec fn rank(v: Scalar) -> int {
    match v {
        Scalar::Null => 0,
        Scalar::Bool(_) => 1,
        Scalar::Integer(_) => 2,
        Scalar::Float(_) => 3,
        Scalar::Text(_) => 4,
        Scalar::Date(_) => 4,
    }
}

/// The place of a double in the IEEE-754 total order, from its bits:
/// negative numbers (sign bit set) run backwards below zero, so that
/// `-NaN < -inf < .. < -0 < +0 < .. < +inf < +NaN`.
pub open spec fn float_key(bits: u64) -> int {
    if bits < 0x8000_0000_0000_0000 {
        bits as int
    } else {
        0x7FFF_FFFF_FFFF_FFFF - bits
    }
}

/// The strict order of cell values: by rank, then within a rank `false`
/// before `true`, integers by size, doubles by `float_key`, text by code
/// point; a string comes before a date of the same text.
pub open spec fn scalar_lt(a: Scalar, b: Scalar) -> bool {
    match (a, b) {
        (Scalar::Bool(x), Scalar::Bool(y)) => !x && y,
        (Scalar::Integer(x), Scalar::Integer(y)) => x < y,
        (Scalar::Float(x), Scalar::Float(y)) => float_key(x) < float_key(y),
        (Scalar::Text(x), Scalar::Text(y)) => text_lt(x, y),
        (Scalar::Date(x), Scalar::Date(y)) => text_lt(x, y),
        (Scalar::Text(x), Scalar::Date(y)) => text_lt(x, y) || x == y,
        (Scalar::Date(x), Scalar::Text(y)) => text_lt(x, y),
        _ => rank(a) < rank(b),
    }
}

/// How `a` stands to `b` in the order of cell values.
pub open spec fn scalar_position(a: Scalar, b: Scalar) -> Position {
    if scalar_lt(a, b) {
        Position::Before
    } else if a == b {
        Position::Same
    } else {
        Position::After
    }
}

/// The text of a string or a date.
pub open spec fn scalar_text(v: Scalar) -> Seq<char> {
    match v {
        Scalar::Text(x) => x,
        Scalar::Date(x) => x,
        _ => Seq::empty(),
    }
}

/// The text that shows a value, with `double_text` for a double.
pub open spec fn value_label(v: Scalar, double_text: Seq<char>) -> Seq<char> {
    match v {
        Scalar::Null => "<null>"@,
        Scalar::Bool(b) => if b {
            "true"@
        } else {
            "false"@
        },
        Scalar::Integer(i) => integer_text(i as int),
        Scalar::Float(_) => double_text,
        Scalar::Text(s) => s,
        Scalar::Date(d) => d,
    }
}

/// No value comes before itself.
pub proof fn lemma_scalar_lt_irreflexive(a: Scalar)
    ensures
        !scalar_lt(a, a),
{
    lemma_text_lt_irreflexive(scalar_text(a));
}

/// The order of cell values is transitive.
pub proof fn lemma_scalar_lt_transitive(a: Scalar, b: Scalar, c: Scalar)
    requires
        scalar_lt(a, b),
        scalar_lt(b, c),
    ensures
        scalar_lt(a, c),
{
    if rank(a) == 4 && rank(b) == 4 && rank(c) == 4 {
        let x = scalar_text(a);
        let y = scalar_text(b);
        let z = scalar_text(c);
        if text_lt(x, y) && text_lt(y, z) {
            lemma_text_lt_transitive(x, y, z);
        }
        if x == y && y == z {
            // string, date, string or date, string, date: neither is ordered
            lemma_text_lt_irreflexive(x);
        }
    }
}

/// Any two cell values are equal or ordered one way or the other.
pub proof fn lemma_scalar_lt_total(a: Scalar, b: Scalar)
    ensures
        scalar_lt(a, b) || a == b || scalar_lt(b, a),
{
    lemma_text_lt_total(scalar_text(a), scalar_text(b));
}

/// The order of cell values is a strict total order: of `a < b`, `a == b`
/// and `b < a` exactly one holds, whatever the two values are, doubles that
/// are not numbers included.
pub proof fn lemma_scalar_order_strict_total(a: Scalar, b: Scalar)
    ensures
        scalar_lt(a, b) || a == b || scalar_lt(b, a),
        !(scalar_lt(a, b) && a == b),
        !(scalar_lt(b, a) && a == b),
        !(scalar_lt(a, b) && scalar_lt(b, a)),
{
    lemma_scalar_lt_total(a, b);
    lemma_scalar_lt_irreflexive(a);
    if scalar_lt(a, b) && scalar_lt(b, a) {
        lemma_scalar_lt_transitive(a, b, a);
    }
}

/// A dynamically typed cell of a metadata column.
#[derive(Debug, Hash)]
pub enum MetadataValue {
    String(String),
    Integer(i64),
    /// A double, held as its 64 bits.
    Float(u64),
    Bool(bool),
    /// An ISO-8601 date, kept as text.
    Date(String),
    Null,
}

impl View for MetadataValue {
    type V = Scalar;

    open spec fn view(&self) -> Scalar {
        match self {
            MetadataValue::String(s) => Scalar::Text(s@),
            MetadataValue::Integer(i) => Scalar::Integer(*i),
            MetadataValue::Float(bits) => Scalar::Float(*bits),
            MetadataValue::Bool(b) => Scalar::Bool(*b),
            MetadataValue::Date(s) => Scalar::Date(s@),
            MetadataValue::Null => Scalar::Null,
        }
    }
}

impl Clone for MetadataValue {
    fn clone(&self) -> (r: Self)
        ensures
            r == *self,
    {
        match self {
            MetadataValue::String(s) => MetadataValue::String(s.clone()),
            MetadataValue::Integer(i) => MetadataValue::Integer(*i),
            MetadataValue::Float(bits) => MetadataValue::Float(*bits),
            MetadataValue::Bool(b) => MetadataValue::Bool(*b),
            MetadataValue::Date(s) => MetadataValue::Date(s.clone()),
            MetadataValue::Null => MetadataValue::Null,
        }
    }
}

/// The place of a double in the total order, computed from its bits.
fn float_sort_key(bits: u64) -> (k: i128)
    ensures
        k == float_key(bits),
{
    if bits < 0x8000_0000_0000_0000 {
        bits as i128
    } else {
        0x7FFF_FFFF_FFFF_FFFFi128 - (bits as i128)
    }
}

/// The three-way result for `Position`, as the standard library names it.
pub open spec fn position_ordering(p: Position) -> Ordering {
    match p {
        Position::Before => Ordering::Less,
        Position::Same => Ordering::Equal,
        Position::After => Ordering::Greater,
    }
}

impl MetadataValue {
    /// Where `self` stands relative to `other` in the order of cell values.
    pub fn position(&self, other: &MetadataValue) -> (r: Position)
        ensures
            r == scalar_position(self@, other@),
    {
        proof {
            lemma_scalar_order_strict_total(self@, other@);
        }
        match (self, other) {
            (MetadataValue::Null, MetadataValue::Null) => Position::Same,
            (MetadataValue::Bool(x), MetadataValue::Bool(y)) => {
                if *x == *y {
                    Position::Same
                } else if !*x {
                    Position::Before
                } else {
                    Position::After
                }
            },
            (MetadataValue::Integer(x), MetadataValue::Integer(y)) => {
                if *x < *y {
                    Position::Before
                } else if *x == *y {
                    Position::Same
                } else {
                    Position::After
                }
            },
            (MetadataValue::Float(x), MetadataValue::Float(y)) => {
                let kx = float_sort_key(*x);
                let ky = float_sort_key(*y);
                if kx < ky {
                    Position::Before
                } else if kx == ky {
                    Position::Same
                } else {
                    Position::After
                }
            },
            (MetadataValue::String(x), MetadataValue::String(y)) => compare_text(
                x.as_str(),
                y.as_str(),
            ),
            (MetadataValue::Date(x), MetadataValue::Date(y)) => compare_text(
                x.as_str(),
                y.as_str(),
            ),
            (MetadataValue::String(x), MetadataValue::Date(y)) => {
                match compare_text(x.as_str(), y.as_str()) {
                    Position::After => Position::After,
                    _ => Position::Before,
                }
            },
            (MetadataValue::Date(x), MetadataValue::String(y)) => {
                match compare_text(x.as_str(), y.as_str()) {
                    Position::Before => Position::Before,
                    _ => Position::After,
                }
            },
            _ => {
                if self.variant_rank() < other.variant_rank() {
                    Position::Before
                } else {
                    Position::After
                }
            },
        }
    }

    /// The rank of the value's variant.
    pub fn variant_rank(&self) -> (r: u8)
        ensures
            r == rank(self@),
    {
        match self {
            MetadataValue::Null => 0,
            MetadataValue::Bool(_) => 1,
            MetadataValue::Integer(_) => 2,
            MetadataValue::Float(_) => 3,
            MetadataValue::String(_) => 4,
            MetadataValue::Date(_) => 4,
        }
    }

    /// The text that shows the value: a string or a date as it is, an
    /// integer in decimal, a truth value as `true` or `false`, null as
    /// `<null>`, and a double as the text that the caller made of it.
    pub fn label(&self, double_text: &str) -> (r: String)
        ensures
            r@ == value_label(self@, double_text@),
    {
        match self {
            MetadataValue::String(s) => s.clone(),
            MetadataValue::Integer(i) => integer_to_text(*i),
            MetadataValue::Float(_) => double_text.to_owned(),
            MetadataValue::Bool(b) => if *b {
                "true".to_owned()
            } else {
                "false".to_owned()
            },
            MetadataValue::Date(d) => d.clone(),
            MetadataValue::Null => "<null>".to_owned(),
        }
    }

    /// Three-way comparison in the order of cell values.
    pub fn cmp(&self, other: &MetadataValue) -> (r: Ordering)
        ensures
            r == position_ordering(scalar_position(self@, other@)),
    {
        match self.position(other) {
            Position::Before => Ordering::Less,
            Position::Same => Ordering::Equal,
            Position::After => Ordering::Greater,
        }
    }
}

impl PartialEq for MetadataValue {
    fn eq(&self, other: &MetadataValue) -> (r: bool) {
        proof {
            lemma_scalar_order_strict_total(self@, other@);
        }
        match self.position(other) {
            Position::Same => true,
            _ => false,
        }
    }
}

impl Eq for MetadataValue {

}

impl PartialEqSpecImpl for MetadataValue {
    open spec fn obeys_eq_spec() -> bool {
        true
    }

    open spec fn eq_spec(&self, other: &MetadataValue) -> bool {
        self@ == other@
    }
}

impl PartialOrd for MetadataValue {
    fn partial_cmp(&self, other: &MetadataValue) -> (r: Option<Ordering>) {
        Some(self.cmp(other))
    }
}

impl PartialOrdSpecImpl for MetadataValue {
    open spec fn obeys_partial_cmp_spec() -> bool {
        true
    }

    open spec fn partial_cmp_spec(&self, other: &MetadataValue) -> Option<Ordering> {
        Some(position_ordering(scalar_position(self@, other@)))
    }
}

} // verus!
