//! A numeric value paired with a unit, with textual form `value[unit]`.

use vstd::prelude::*;

use crate::numtext::ParseNumberError;
use crate::numtext::canon_float;
use crate::numtext::canon_float_str;
use crate::numtext::check_float_text;
use crate::numtext::is_float_text;
use crate::numtext::lemma_canon_idempotent;
use crate::numtext::lemma_canon_valid;
use crate::numtext::lemma_float_text_chars;
use crate::scan::lemma_scan_while_is;
use crate::scan::scan_while;
use crate::unit::ParseUnitError;
use crate::unit::Unit;
use crate::unit::lemma_unit_round_trip;
use crate::unit::lemma_unit_symbol_chars;
use crate::unit::unit_from_symbol;
use crate::unit::unit_symbol;

verus! {

pub open spec fn not_bracket_pred() -> spec_fn(char) -> bool {
    |c: char| c != '[' && c != ']'
}

/// End of the maximal bracket-free run starting at `i`.
pub open spec fn bracket_end(s: Seq<char>, i: int) -> int {
    scan_while(s, i, not_bracket_pred())
}

/// Decomposition of `value[unit]`: a bracket-free value, an opening
/// bracket, a bracket-free unit, and a closing bracket that ends the text.
pub open spec fn meas_shape(s: Seq<char>) -> Option<(Seq<char>, Seq<char>)> {
    let i = bracket_end(s, 0);
    if i < s.len() && s[i] == '[' {
        let j = bracket_end(s, i + 1);
        if j == s.len() - 1 && s[j] == ']' {
            Some((s.subrange(0, i), s.subrange(i + 1, j)))
        } else {
            None
        }
    } else {
        None
    }
}

/// Whether the text parses as a measurement.
pub open spec fn meas_ok(s: Seq<char>) -> bool {
    &&& meas_shape(s) is Some
    &&& is_float_text((meas_shape(s)->0).0)
    &&& unit_from_symbol((meas_shape(s)->0).1) is Some
}

/// The canonical value text of a parsed measurement.
pub open spec fn meas_value(s: Seq<char>) -> Seq<char> {
    canon_float((meas_shape(s)->0).0)
}

/// The unit of a parsed measurement.
pub open spec fn meas_unit(s: Seq<char>) -> Unit {
    unit_from_symbol((meas_shape(s)->0).1)->0
}

#[derive(Debug)]
pub enum ParseMeasurementError {
    InvalidValue(ParseNumberError),
    InvalidUnit(ParseUnitError),
    InvalidFormat,
}

impl ParseMeasurementError {
    /// Short description of the failure, as the command line reports it.
    pub fn description(&self) -> (r: &'static str)
        ensures
            self is InvalidValue ==> r@ == "Invalid value"@,
            self is InvalidUnit ==> r@ == "Invalid unit"@,
            self is InvalidFormat ==> r@ == "Invalid format"@,
    {
        match *self {
            ParseMeasurementError::InvalidValue(_) => "Invalid value",
            ParseMeasurementError::InvalidUnit(_) => "Invalid unit",
            ParseMeasurementError::InvalidFormat => "Invalid format",
        }
    }
}

/// A measurement: canonical numeric text and a unit.
#[derive(Debug)]
pub struct Measurement {
    value: String,
    unit: Unit,
}

fn not_bracket_char(c: char) -> (r: bool)
    ensures
        r == (c != '[' && c != ']'),
{
    c != '[' && c != ']'
}

impl Measurement {
    pub closed spec fn spec_value(self) -> Seq<char> {
        self.value@
    }

    pub closed spec fn spec_unit(self) -> Unit {
        self.unit
    }

    /// The stored value is accepted numeric text in canonical form.
    pub open spec fn wf(self) -> bool {
        is_float_text(self.spec_value()) && canon_float(self.spec_value()) == self.spec_value()
    }

    /// The textual form `value[unit]`.
    pub open spec fn fmt_spec(self) -> Seq<char> {
        self.spec_value() + seq!['['] + unit_symbol(self.spec_unit()) + seq![']']
    }

    /// Builds a measurement from numeric text and a unit; the text is
    /// canonicalized, and rejected when it is not an accepted numeric
    /// literal.
    pub fn new(value: &str, unit: Unit) -> (r: Option<Measurement>)
        ensures
            r is Some <==> is_float_text(value@),
            r matches Some(m) ==> {
                &&& m.spec_value() == canon_float(value@)
                &&& m.spec_unit() == unit
                &&& m.wf()
            },
    {
        if check_float_text(value) {
            let v = canon_float_str(value);
            proof {
                lemma_canon_valid(value@);
                lemma_canon_idempotent(value@);
            }
            Some(Measurement { value: v, unit })
        } else {
            None
        }
    }

    /// Parses `value[unit]`.  The shape is checked first, then the value,
    /// then the unit, and the first failure decides the error.
    pub fn from_str(s: &str) -> (r: Result<Measurement, ParseMeasurementError>)
        ensures
            r is Ok <==> meas_ok(s@),
            r matches Ok(m) ==> {
                &&& m.spec_value() == meas_value(s@)
                &&& m.spec_unit() == meas_unit(s@)
                &&& m.wf()
            },
            (r matches Err(e) && e is InvalidFormat) <==> meas_shape(s@) is None,
            (r matches Err(e) && e is InvalidValue) <==> (meas_shape(s@) is Some && !is_float_text(
                (meas_shape(s@)->0).0,
            )),
            (r matches Err(e) && e is InvalidUnit) <==> (meas_shape(s@) is Some && is_float_text(
                (meas_shape(s@)->0).0,
            ) && unit_from_symbol((meas_shape(s@)->0).1) is None),
    {
        let n = s.unicode_len();
        let mut i: usize = 0;
        while i < n && not_bracket_char(s.get_char(i))
            invariant
                n == s@.len(),
                0 <= i <= n,
                forall|k: int| 0 <= k < i ==> s@[k] != '[' && s@[k] != ']',
            decreases n - i,
        {
            i = i + 1;
        }
        proof {
            lemma_scan_while_is(s@, 0, i as int, not_bracket_pred());
        }
        if i == n || s.get_char(i) != '[' {
            return Err(ParseMeasurementError::InvalidFormat);
        }
        let mut j: usize = i + 1;
        while j < n && not_bracket_char(s.get_char(j))
            invariant
                n == s@.len(),
                i + 1 <= j <= n,
                forall|k: int| i + 1 <= k < j ==> s@[k] != '[' && s@[k] != ']',
            decreases n - j,
        {
            j = j + 1;
        }
        proof {
            lemma_scan_while_is(s@, i + 1 as int, j as int, not_bracket_pred());
        }
        if !(j == n - 1 && s.get_char(j) == ']') {
            return Err(ParseMeasurementError::InvalidFormat);
        }
        let value = s.substring_char(0, i);
        let unit_txt = s.substring_char(i + 1, j);
        if !check_float_text(value) {
            return Err(ParseMeasurementError::InvalidValue(ParseNumberError::Invalid));
        }
        let unit = match Unit::from_str(unit_txt) {
            Ok(u) => u,
            Err(e) => {
                return Err(ParseMeasurementError::InvalidUnit(e));
            },
        };
        let v = canon_float_str(value);
        proof {
            lemma_canon_valid(value@);
            lemma_canon_idempotent(value@);
        }
        Ok(Measurement { value: v, unit })
    }

    /// Renders the measurement as `value[unit]`.
    pub fn to_string(&self) -> (r: String)
        ensures
            r@ == self.fmt_spec(),
    {
        let mut out = self.value.clone();
        out.append("[");
        let u = self.unit.to_string();
        out.append(u.as_str());
        out.append("]");
        proof {
            reveal_strlit("[");
            reveal_strlit("]");
            assert(out@ =~= self.fmt_spec());
        }
        out
    }

    pub fn get_value(&self) -> (r: &str)
        ensures
            r@ == self.spec_value(),
    {
        self.value.as_str()
    }

    pub fn get_unit(&self) -> (r: Unit)
        ensures
            r == self.spec_unit(),
    {
        self.unit
    }
}

/// The textual form of a well-formed measurement contains no space, so it
/// survives space-splitting intact.
pub proof fn lemma_measurement_fmt_no_space(m: Measurement)
    requires
        m.wf(),
    ensures
        forall|k: int| 0 <= k < m.fmt_spec().len() ==> m.fmt_spec()[k] != ' ',
{
    let s = m.fmt_spec();
    let v = m.spec_value();
    let u = unit_symbol(m.spec_unit());
    let vl = v.len() as int;
    lemma_float_text_chars(v);
    lemma_unit_symbol_chars(m.spec_unit());
    assert forall|k: int| 0 <= k < s.len() implies s[k] != ' ' by {
        if k < vl {
            assert(s[k] == v[k]);
        } else if k == vl {
            assert(s[k] == '[');
        } else if k < s.len() - 1 {
            assert(s[k] == u[k - vl - 1]);
        } else {
            assert(s[k] == ']');
        }
    }
}

/// Round trip: formatting a well-formed measurement and parsing the result
/// yields the same value text and the same unit.
pub proof fn lemma_measurement_round_trip(m: Measurement)
    requires
        m.wf(),
    ensures
        meas_ok(m.fmt_spec()),
        meas_value(m.fmt_spec()) == m.spec_value(),
        meas_unit(m.fmt_spec()) == m.spec_unit(),
{
    let s = m.fmt_spec();
    let v = m.spec_value();
    let u = unit_symbol(m.spec_unit());
    let vl = v.len() as int;
    let ul = u.len() as int;
    lemma_float_text_chars(v);
    lemma_unit_symbol_chars(m.spec_unit());
    assert(s.len() == vl + ul + 2);
    assert(s[vl] == '[');
    assert(s[s.len() - 1] == ']');
    assert forall|k: int| 0 <= k < vl implies s[k] != '[' && s[k] != ']' by {
        assert(s[k] == v[k]);
    }
    lemma_scan_while_is(s, 0, vl, not_bracket_pred());
    assert forall|k: int| vl + 1 <= k < s.len() - 1 implies s[k] != '[' && s[k] != ']' by {
        assert(s[k] == u[k - vl - 1]);
    }
    lemma_scan_while_is(s, vl + 1, s.len() - 1, not_bracket_pred());
    assert(s.subrange(0, vl) =~= v);
    assert(s.subrange(vl + 1, s.len() - 1) =~= u);
    lemma_unit_round_trip(m.spec_unit());
}

} // verus!
