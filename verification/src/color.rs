//! Colours for the distinct values of one column: each value gets the
//! colour at its place in the palette, any other value the fallback.

use crate::data::value::{lemma_scalar_order_strict_total, MetadataValue, Scalar};
use crate::data::value_set::{lemma_values_canonical, values_sorted, ValueSet};
use crate::text::Position;
use vstd::prelude::*;

verus! {

/// A displayable colour: red, green, blue and opacity.
#[derive(Clone, Copy, Debug, PartialEq, Eq, Structural)]
pub struct Color {
    pub r: u8,
    pub g: u8,
    pub b: u8,
    pub a: u8,
}

/// The colour of values that a map does not hold: an opaque middle gray.
pub open spec fn fallback_gray() -> Color {
    Color { r: 160, g: 160, b: 160, a: 255 }
}

/// The values paired with the palette, place by place, as far as both
/// reach.
pub open spec fn assignment(values: Seq<Scalar>, palette: Seq<Color>) -> Seq<(Scalar, Color)> {
    Seq::new(
        if values.len() <= palette.len() {
            values.len()
        } else {
            palette.len()
        },
        |i: int| (values[i], palette[i]),
    )
}

/// Place `i` of the entries holds value `v`.
pub open spec fn entry_is(entries: Seq<(Scalar, Color)>, i: int, v: Scalar) -> bool {
    0 <= i < entries.len() && entries[i].0 == v
}

/// The lookup that a sequence of entries stands for.
pub open spec fn entries_lookup(entries: Seq<(Scalar, Color)>) -> Map<Scalar, Color> {
    Map::new(
        |v: Scalar| exists|i: int| entry_is(entries, i, v),
        |v: Scalar| entries[choose|i: int| entry_is(entries, i, v)].1,
    )
}

/// The colour that the entries give to `v`, or `fallback` where they hold
/// no such value.
pub open spec fn color_of(entries: Seq<(Scalar, Color)>, fallback: Color, v: Scalar) -> Color {
    if entries_lookup(entries).contains_key(v) {
        entries_lookup(entries)[v]
    } else {
        fallback
    }
}

/// The values of the entries, in their order.
pub open spec fn entry_values(entries: Seq<(Scalar, Color)>) -> Seq<Scalar> {
    Seq::new(entries.len(), |i: int| entries[i].0)
}

/// With sorted values, the lookup gives each value the colour of its entry.
pub proof fn lemma_lookup_at(entries: Seq<(Scalar, Color)>, i: int)
    requires
        values_sorted(entry_values(entries)),
        0 <= i < entries.len(),
    ensures
        entries_lookup(entries).contains_key(entries[i].0),
        entries_lookup(entries)[entries[i].0] == entries[i].1,
{
    let v = entries[i].0;
    assert(entry_is(entries, i, v));
    let j = choose|j: int| entry_is(entries, j, v);
    let values = entry_values(entries);
    assert(values[i] == v && values[j] == v);
    lemma_scalar_order_strict_total(v, v);
    if i < j {
        assert(crate::data::value::scalar_lt(values[i], values[j]));
    }
    if j < i {
        assert(crate::data::value::scalar_lt(values[j], values[i]));
    }
}

/// The assignment of colours depends on the set of distinct values alone:
/// two sorted sequences of the same values get, with one palette, the same
/// colours.
pub proof fn lemma_assignment_deterministic(a: Seq<Scalar>, b: Seq<Scalar>, palette: Seq<Color>)
    requires
        values_sorted(a),
        values_sorted(b),
        a.to_set() == b.to_set(),
    ensures
        assignment(a, palette) == assignment(b, palette),
        forall|v: Scalar, fallback: Color|
            color_of(assignment(a, palette), fallback, v) == color_of(
                assignment(b, palette),
                fallback,
                v,
            ),
{
    lemma_values_canonical(a, b);
}

/// The colours of the distinct values of one column.
#[derive(Debug)]
pub struct ColorMap {
    column: String,
    mapping: Vec<(MetadataValue, Color)>,
    default_color: Color,
}

impl View for ColorMap {
    type V = Map<Scalar, Color>;

    /// The colour of each value that the map holds.
    open spec fn view(&self) -> Map<Scalar, Color> {
        entries_lookup(self.entries())
    }
}

impl ColorMap {
    /// The entries in the order of their values.
    pub closed spec fn entries(&self) -> Seq<(Scalar, Color)> {
        self.mapping@.map_values(|e: (MetadataValue, Color)| (e.0@, e.1))
    }

    /// The colour given to values that the map does not hold.
    pub closed spec fn fallback(&self) -> Color {
        self.default_color
    }

    /// The name of the column that the map was built for.
    pub closed spec fn column_name(&self) -> Seq<char> {
        self.column@
    }

    /// The values of the entries ascend strictly.
    pub open spec fn wf(&self) -> bool {
        values_sorted(entry_values(self.entries()))
    }

    #[verifier::type_invariant]
    closed spec fn inv(self) -> bool {
        self.wf()
    }

    /// The colour map of a column: the column's distinct values, in their
    /// order, each with the colour at its place in `palette`. Where the
    /// palette is shorter than the values, the values beyond it get no
    /// entry.
    pub fn new(column: &str, unique_values: &ValueSet, palette: &Vec<Color>) -> (r: ColorMap)
        ensures
            r.wf(),
            r.column_name() == column@,
            r.entries() == assignment(unique_values@, palette@),
            r.fallback() == fallback_gray(),
    {
        let n = if unique_values.len() <= palette.len() {
            unique_values.len()
        } else {
            palette.len()
        };
        let mut mapping: Vec<(MetadataValue, Color)> = Vec::new();
        let mut i: usize = 0;
        while i < n
            invariant
                i <= n,
                n <= unique_values@.len(),
                n <= palette@.len(),
                mapping@.len() == i,
                forall|k: int|
                    0 <= k < i ==> (#[trigger] mapping@[k]).0@ == unique_values@[k] && mapping@[k].1
                        == palette@[k],
            decreases n - i,
        {
            mapping.push((unique_values.get(i).clone(), palette[i]));
            i += 1;
        }
        let r = ColorMap {
            column: column.to_owned(),
            mapping,
            default_color: Color { r: 160, g: 160, b: 160, a: 255 },
        };
        proof {
            assert(r.entries() =~= assignment(unique_values@, palette@));
            let values = entry_values(r.entries());
            assert forall|a: int, b: int| 0 <= a < b < values.len() implies crate::data::value::scalar_lt(
                #[trigger] values[a],
                #[trigger] values[b],
            ) by {
                assert(values[a] == unique_values@[a]);
                assert(values[b] == unique_values@[b]);
            }
        }
        r
    }

    /// The column that the map was built for.
    pub fn column(&self) -> (r: &String)
        ensures
            r@ == self.column_name(),
    {
        &self.column
    }

    /// The colour of `value`: the one the map holds for it, or the fallback
    /// where it holds none.
    pub fn color_for(&self, value: &MetadataValue) -> (r: Color)
        ensures
            r == color_of(self.entries(), self.fallback(), value@),
    {
        proof {
            use_type_invariant(self);
        }
        let mut i: usize = 0;
        while i < self.mapping.len()
            invariant
                i <= self.mapping.len(),
                self.wf(),
                self.entries().len() == self.mapping.len(),
                forall|k: int| 0 <= k < i ==> (#[trigger] self.entries()[k]).0 != value@,
            decreases self.mapping.len() - i,
        {
            let place = self.mapping[i].0.position(value);
            proof {
                assert(self.entries()[i as int] == (self.mapping@[i as int].0@, self.mapping@[i as int].1));
                lemma_scalar_order_strict_total(self.entries()[i as int].0, value@);
            }
            if place == Position::Same {
                proof {
                    lemma_lookup_at(self.entries(), i as int);
                }
                return self.mapping[i].1;
            }
            i += 1;
        }
        proof {
            assert forall|k: int| !entry_is(self.entries(), k, value@) by {
                if 0 <= k < self.entries().len() {
                    assert(self.entries()[k].0 != value@);
                }
            }
        }
        self.default_color
    }

    /// The entries for a legend: each value with its colour, in the order of
    /// the values.
    pub fn legend_entries(&self) -> (r: Vec<(MetadataValue, Color)>)
        ensures
            r@.map_values(|e: (MetadataValue, Color)| (e.0@, e.1)) == self.entries(),
    {
        let mut r: Vec<(MetadataValue, Color)> = Vec::new();
        let mut i: usize = 0;
        while i < self.mapping.len()
            invariant
                i <= self.mapping.len(),
                r@.len() == i,
                forall|k: int| 0 <= k < i ==> (#[trigger] r@[k]) == self.mapping@[k],
            decreases self.mapping.len() - i,
        {
            r.push((self.mapping[i].0.clone(), self.mapping[i].1));
            i += 1;
        }
        proof {
            assert(r@ =~= self.mapping@);
        }
        r
    }
}

} // verus!
