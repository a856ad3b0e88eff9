//! Sensors: weighted sums of field values at an agent's cell.
//!
//! Weights are fixed-point numbers in thousandths, so `1000` is the weight
//! one and `-500` is minus one half. A reading is the weighted sum divided by
//! a thousand and rounded to the nearest integer, halves away from zero.

use vstd::prelude::*;
use vstd::string::*;
use crate::engine::field::{Field, FieldView};
use crate::utils::num::clamp_i32;

verus! {

/// How many units of weight make the weight one.
pub const WEIGHT_SCALE: i32 = 1000;

/// One term of a sensor: a field and its weight in thousandths.
#[derive(Debug, Clone)]
pub struct SensorTerm {
    pub field_name: String,
    pub weight: i32,
}

/// A sensor: the variable that receives the reading, and the terms of the
/// sum.
#[derive(Debug, Clone)]
pub struct SensorDef {
    pub name: String,
    pub target_var: usize,
    pub terms: Vec<SensorTerm>,
}

/// The mathematical value of a [`SensorTerm`].
pub struct SensorTermView {
    pub field_name: Seq<char>,
    pub weight: i32,
}

/// The mathematical value of a [`SensorDef`].
pub struct SensorDefView {
    pub name: Seq<char>,
    pub target_var: usize,
    pub terms: Seq<SensorTermView>,
}

impl DeepView for SensorTerm {
    type V = SensorTermView;

    open spec fn deep_view(&self) -> SensorTermView {
        SensorTermView { field_name: self.field_name@, weight: self.weight }
    }
}

impl DeepView for SensorDef {
    type V = SensorDefView;

    open spec fn deep_view(&self) -> SensorDefView {
        SensorDefView {
            name: self.name@,
            target_var: self.target_var,
            terms: self.terms.deep_view(),
        }
    }
}

/// The index of the first field from `from` on that has the name `name`.
pub open spec fn find_field_from(fields: Seq<FieldView>, name: Seq<char>, from: int) -> Option<int>
    decreases fields.len() - from,
{
    if from < 0 || from >= fields.len() {
        None
    } else if fields[from].name == name {
        Some(from)
    } else {
        find_field_from(fields, name, from + 1)
    }
}

/// The index of the first field that has the name `name`.
pub open spec fn find_field(fields: Seq<FieldView>, name: Seq<char>) -> Option<int> {
    find_field_from(fields, name, 0)
}

/// What the agent itself put into the field `name`: the amount of the first
/// entry from `from` on with that name, or zero.
pub open spec fn own_amount_from(own: Seq<(Seq<char>, i32)>, name: Seq<char>, from: int) -> int
    decreases own.len() - from,
{
    if from < 0 || from >= own.len() {
        0
    } else if own[from].0 == name {
        own[from].1 as int
    } else {
        own_amount_from(own, name, from + 1)
    }
}

/// What the agent itself put into the field `name`.
pub open spec fn own_amount(own: Seq<(Seq<char>, i32)>, name: Seq<char>) -> int {
    own_amount_from(own, name, 0)
}

/// What one term adds to the sum: its weight times the field's value at the
/// cell, less what the agent put there itself. A term whose field does not
/// exist, or has no such cell, adds nothing.
pub open spec fn term_value(
    term: SensorTermView,
    fields: Seq<FieldView>,
    cell: int,
    own: Seq<(Seq<char>, i32)>,
) -> int {
    match find_field(fields, term.field_name) {
        Some(k) => if 0 <= cell < fields[k].values.len() {
            term.weight * (fields[k].values[cell] - own_amount(own, term.field_name))
        } else {
            0
        },
        None => 0,
    }
}

/// The sum of the first `n` terms, in thousandths.
pub open spec fn weighted_sum(
    terms: Seq<SensorTermView>,
    fields: Seq<FieldView>,
    cell: int,
    own: Seq<(Seq<char>, i32)>,
    n: int,
) -> int
    decreases n,
{
    if n <= 0 {
        0
    } else {
        weighted_sum(terms, fields, cell, own, n - 1) + term_value(terms[n - 1], fields, cell, own)
    }
}

/// `total / scale` rounded to the nearest integer, halves away from zero.
pub open spec fn rounded(total: int, scale: int) -> int
    recommends
        scale > 0,
{
    if total >= 0 {
        (2 * total + scale) / (2 * scale)
    } else {
        -((2 * (-total) + scale) / (2 * scale))
    }
}

/// The reading of the sensor at the cell with index `cell`, within `i32`.
pub open spec fn reading(
    sensor: SensorDefView,
    fields: Seq<FieldView>,
    cell: int,
    own: Seq<(Seq<char>, i32)>,
) -> i32 {
    clamp_i32(
        rounded(
            weighted_sum(sensor.terms, fields, cell, own, sensor.terms.len() as int),
            WEIGHT_SCALE as int,
        ),
    )
}

/// The first field with the name `name`.
pub fn lookup_field(fields: &[Field], name: &str) -> (r: Option<usize>)
    ensures
        match r {
            Some(k) => find_field(fields.deep_view(), name@) == Some(k as int) && k < fields.len(),
            None => find_field(fields.deep_view(), name@) is None,
        },
{
    let ghost fv = fields.deep_view();
    let mut k: usize = 0;
    while k < fields.len()
        invariant
            k <= fields.len(),
            fv == fields.deep_view(),
            find_field(fv, name@) == find_field_from(fv, name@, k as int),
        decreases fields.len() - k,
    {
        assert(fv[k as int].name == fields[k as int].def.name@);
        if fields[k].def.name.as_str().eq(name) {
            return Some(k);
        }
        k += 1;
    }
    None
}

fn lookup_own(own: &[(String, i32)], name: &str) -> (r: i32)
    ensures
        r == own_amount(own.deep_view(), name@),
{
    let ghost ov = own.deep_view();
    let mut k: usize = 0;
    while k < own.len()
        invariant
            k <= own.len(),
            ov == own.deep_view(),
            own_amount(ov, name@) == own_amount_from(ov, name@, k as int),
        decreases own.len() - k,
    {
        assert(ov[k as int] == (own[k as int].0@, own[k as int].1));
        if own[k].0.as_str().eq(name) {
            return own[k].1;
        }
        k += 1;
    }
    0
}

impl SensorDef {
    /// Evaluates the sensor at the cell with index `pos_index`.
    ///
    /// `self_contrib` lists, by field name, what the agent itself put into
    /// its own cell; that is taken off before weighing.
    pub fn evaluate(&self, fields: &[Field], pos_index: usize, self_contrib: &[(String, i32)]) -> (r: i32)
        ensures
            r == reading(
                self.deep_view(),
                fields.deep_view(),
                pos_index as int,
                self_contrib.deep_view(),
            ),
    {
        let ghost tv = self.terms.deep_view();
        let ghost fv = fields.deep_view();
        let ghost ov = self_contrib.deep_view();
        let mut total: i128 = 0;
        let mut n: usize = 0;
        while n < self.terms.len()
            invariant
                n <= self.terms.len(),
                tv == self.terms.deep_view(),
                fv == fields.deep_view(),
                ov == self_contrib.deep_view(),
                total == weighted_sum(tv, fv, pos_index as int, ov, n as int),
                -(n * 0x8000_0000_0000_0000) <= total <= n * 0x8000_0000_0000_0000,
            decreases self.terms.len() - n,
        {
            let term = &self.terms[n];
            assert(tv[n as int] == term.deep_view());
            let mut value: i128 = 0;
            match lookup_field(fields, term.field_name.as_str()) {
                Some(k) => {
                    let field = &fields[k];
                    assert(fv[k as int].values == field.values@);
                    if pos_index < field.values.len() {
                        let seen: i64 = field.values[pos_index] as i64 - lookup_own(
                            self_contrib,
                            term.field_name.as_str(),
                        ) as i64;
                        assert(-0x8000_0000_0000_0000 <= term.weight * seen
                            <= 0x8000_0000_0000_0000) by (nonlinear_arith)
                            requires
                                -0x8000_0000 <= term.weight <= 0x7FFF_FFFF,
                                -0xFFFF_FFFF <= seen <= 0xFFFF_FFFF,
                        ;
                        value = (term.weight as i128) * (seen as i128);
                    }
                },
                None => {},
            }
            assert(value == term_value(tv[n as int], fv, pos_index as int, ov));
            total = total + value;
            n += 1;
        }
        // Round to the nearest whole, halves away from zero.
        let scale: i128 = WEIGHT_SCALE as i128;
        let size: i128 = if total >= 0 {
            total
        } else {
            -total
        };
        let half_up: i128 = if 2 * (size % scale) >= scale {
            1
        } else {
            0
        };
        let nearest: i128 = size / scale + half_up;
        assert(nearest == (2 * size + 1000) / 2000);
        let whole: i128 = if total >= 0 {
            nearest
        } else {
            -nearest
        };
        assert(whole == rounded(total as int, WEIGHT_SCALE as int));
        if whole > i32::MAX as i128 {
            i32::MAX
        } else if whole < i32::MIN as i128 {
            i32::MIN
        } else {
            whole as i32
        }
    }
}

} // verus!
