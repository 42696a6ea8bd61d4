//! The closed set of SI unit symbols and its bidirectional text conversion.

use vstd::prelude::*;

use crate::scan::str_eq;

verus! {

/// An SI unit accepted by the measurement grammar.
#[derive(Debug, Clone, Copy, PartialEq, Eq, Structural)]
pub enum Unit {
    Volt,
    Ohm,
    Ampere,
    Watt,
    Kelvin,
    Second,
    Kilogram,
}

#[derive(Debug, Clone, Copy, PartialEq, Eq, Structural)]
pub enum ParseUnitError {
    Invalid,
}

/// Canonical symbol of each unit: V, Ω, A, W, K, s, kg.
pub open spec fn unit_symbol(u: Unit) -> Seq<char> {
    match u {
        Unit::Volt => "V"@,
        Unit::Ohm => "\u{3a9}"@,
        Unit::Ampere => "A"@,
        Unit::Watt => "W"@,
        Unit::Kelvin => "K"@,
        Unit::Second => "s"@,
        Unit::Kilogram => "kg"@,
    }
}

/// The unit whose canonical symbol is exactly `s`, if any.
pub open spec fn unit_from_symbol(s: Seq<char>) -> Option<Unit> {
    if s == unit_symbol(Unit::Volt) {
        Some(Unit::Volt)
    } else if s == unit_symbol(Unit::Ohm) {
        Some(Unit::Ohm)
    } else if s == unit_symbol(Unit::Ampere) {
        Some(Unit::Ampere)
    } else if s == unit_symbol(Unit::Watt) {
        Some(Unit::Watt)
    } else if s == unit_symbol(Unit::Kelvin) {
        Some(Unit::Kelvin)
    } else if s == unit_symbol(Unit::Second) {
        Some(Unit::Second)
    } else if s == unit_symbol(Unit::Kilogram) {
        Some(Unit::Kilogram)
    } else {
        None
    }
}

proof fn reveal_unit_symbols()
    ensures
        unit_symbol(Unit::Volt) =~= seq!['V'],
        unit_symbol(Unit::Ohm) =~= seq!['\u{3a9}'],
        unit_symbol(Unit::Ampere) =~= seq!['A'],
        unit_symbol(Unit::Watt) =~= seq!['W'],
        unit_symbol(Unit::Kelvin) =~= seq!['K'],
        unit_symbol(Unit::Second) =~= seq!['s'],
        unit_symbol(Unit::Kilogram) =~= seq!['k', 'g'],
{
    reveal_strlit("V");
    reveal_strlit("\u{3a9}");
    reveal_strlit("A");
    reveal_strlit("W");
    reveal_strlit("K");
    reveal_strlit("s");
    reveal_strlit("kg");
}

/// Round trip: every unit's canonical symbol parses back to the same unit.
pub proof fn lemma_unit_round_trip(u: Unit)
    ensures
        unit_from_symbol(unit_symbol(u)) == Some(u),
{
    reveal_unit_symbols();
    assert(unit_symbol(Unit::Volt)[0] == 'V');
    assert(unit_symbol(Unit::Ohm)[0] == '\u{3a9}');
    assert(unit_symbol(Unit::Ampere)[0] == 'A');
    assert(unit_symbol(Unit::Watt)[0] == 'W');
    assert(unit_symbol(Unit::Kelvin)[0] == 'K');
    assert(unit_symbol(Unit::Second)[0] == 's');
    assert(unit_symbol(Unit::Kilogram).len() == 2);
}

/// No unit symbol is empty or contains a space or a bracket, so a formatted
/// measurement keeps the token shape that the list grammar expects.
pub proof fn lemma_unit_symbol_chars(u: Unit)
    ensures
        unit_symbol(u).len() > 0,
        forall|i: int|
            0 <= i < unit_symbol(u).len() ==> unit_symbol(u)[i] != ' ' && unit_symbol(u)[i] != '['
                && unit_symbol(u)[i] != ']',
{
    reveal_unit_symbols();
}

impl Unit {
    /// Parses a unit from its canonical symbol; any other text is rejected.
    pub fn from_str(s: &str) -> (r: Result<Unit, ParseUnitError>)
        ensures
            r is Ok <==> unit_from_symbol(s@) is Some,
            r is Ok ==> Some(r->Ok_0) == unit_from_symbol(s@),
            r is Err ==> r == Err::<Unit, ParseUnitError>(ParseUnitError::Invalid),
    {
        if str_eq(s, "V") {
            Ok(Unit::Volt)
        } else if str_eq(s, "\u{3a9}") {
            Ok(Unit::Ohm)
        } else if str_eq(s, "A") {
            Ok(Unit::Ampere)
        } else if str_eq(s, "W") {
            Ok(Unit::Watt)
        } else if str_eq(s, "K") {
            Ok(Unit::Kelvin)
        } else if str_eq(s, "s") {
            Ok(Unit::Second)
        } else if str_eq(s, "kg") {
            Ok(Unit::Kilogram)
        } else {
            Err(ParseUnitError::Invalid)
        }
    }

    /// Renders the unit as its canonical symbol.
    pub fn to_string(&self) -> (r: String)
        ensures
            r@ == unit_symbol(*self),
    {
        match *self {
            Unit::Volt => String::from_str("V"),
            Unit::Ohm => String::from_str("\u{3a9}"),
            Unit::Ampere => String::from_str("A"),
            Unit::Watt => String::from_str("W"),
            Unit::Kelvin => String::from_str("K"),
            Unit::Second => String::from_str("s"),
            Unit::Kilogram => String::from_str("kg"),
        }
    }
}

impl ParseUnitError {
    /// Short description of the failure, as the command line reports it.
    pub fn description(&self) -> (r: &'static str)
        ensures
            r@ == "Invalid format or unit"@,
    {
        "Invalid format or unit"
    }
}

} // verus!
