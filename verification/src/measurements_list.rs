//! An ordered, space-separated sequence of measurements.

use vstd::prelude::*;

use crate::measurement::Measurement;
use crate::measurement::ParseMeasurementError;
use crate::measurement::lemma_measurement_fmt_no_space;
use crate::measurement::lemma_measurement_round_trip;
use crate::measurement::meas_ok;
use crate::measurement::meas_shape;
use crate::measurement::meas_unit;
use crate::measurement::meas_value;
use crate::numtext::is_float_text;
use crate::numtext::lemma_float_text_chars;
use crate::unit::lemma_unit_symbol_chars;
use crate::unit::unit_from_symbol;
use crate::unit::unit_symbol;

verus! {

/// Splitting on single spaces; consecutive spaces yield empty tokens.
pub open spec fn split_sp(s: Seq<char>) -> Seq<Seq<char>>
    decreases s.len(),
{
    if s.len() == 0 {
        seq![Seq::<char>::empty()]
    } else if s[0] == ' ' {
        seq![Seq::<char>::empty()] + split_sp(s.drop_first())
    } else {
        let rest = split_sp(s.drop_first());
        seq![seq![s[0]] + rest[0]] + rest.drop_first()
    }
}

/// Joining with single spaces; the empty sequence joins to the empty text.
pub open spec fn join_sp(parts: Seq<Seq<char>>) -> Seq<char>
    decreases parts.len(),
{
    if parts.len() == 0 {
        Seq::<char>::empty()
    } else if parts.len() == 1 {
        parts[0]
    } else {
        parts[0] + seq![' '] + join_sp(parts.drop_first())
    }
}

pub proof fn lemma_split_sp_len(s: Seq<char>)
    ensures
        split_sp(s).len() >= 1,
    decreases s.len(),
{
    if s.len() == 0 {
    } else if s[0] == ' ' {
        lemma_split_sp_len(s.drop_first());
    } else {
        lemma_split_sp_len(s.drop_first());
    }
}

/// A text without spaces splits into the single token it is.
pub proof fn lemma_split_sp_nospace(s: Seq<char>)
    requires
        forall|k: int| 0 <= k < s.len() ==> s[k] != ' ',
    ensures
        split_sp(s) =~~= seq![s],
    decreases s.len(),
{
    if s.len() == 0 {
        assert(s =~= Seq::<char>::empty());
    } else {
        let d = s.drop_first();
        assert(forall|k: int| 0 <= k < d.len() ==> d[k] == s[k + 1]);
        lemma_split_sp_nospace(d);
        let rest = split_sp(d);
        assert(rest[0] == d);
        assert(seq![s[0]] + d =~= s);
        assert(rest.drop_first() =~~= Seq::<Seq<char>>::empty());
    }
}

/// Splitting unfolds at the first space.
pub proof fn lemma_split_sp_at(s: Seq<char>, j: int)
    requires
        0 <= j < s.len(),
        s[j] == ' ',
        forall|k: int| 0 <= k < j ==> s[k] != ' ',
    ensures
        split_sp(s) =~~= seq![s.subrange(0, j)] + split_sp(s.subrange(j + 1, s.len() as int)),
    decreases j,
{
    if j == 0 {
        assert(s.subrange(0, 0) =~= Seq::<char>::empty());
        assert(s.drop_first() =~= s.subrange(1, s.len() as int));
    } else {
        let d = s.drop_first();
        assert(forall|k: int| 0 <= k < d.len() ==> d[k] == s[k + 1]);
        lemma_split_sp_at(d, j - 1);
        assert(d.subrange(0, j - 1) =~= s.subrange(1, j));
        assert(d.subrange(j, d.len() as int) =~= s.subrange(j + 1, s.len() as int));
        let rest = split_sp(d);
        lemma_split_sp_len(d.subrange(j, d.len() as int));
        assert(rest[0] == s.subrange(1, j));
        assert(seq![s[0]] + s.subrange(1, j) =~= s.subrange(0, j));
        assert(rest.drop_first() =~~= split_sp(s.subrange(j + 1, s.len() as int)));
    }
}

/// Splitting a join of space-free parts gives back exactly those parts.
pub proof fn lemma_split_join(parts: Seq<Seq<char>>)
    requires
        parts.len() >= 1,
        forall|i: int, k: int|
            0 <= i < parts.len() && 0 <= k < parts[i].len() ==> parts[i][k] != ' ',
    ensures
        split_sp(join_sp(parts)) =~~= parts,
    decreases parts.len(),
{
    if parts.len() == 1 {
        lemma_split_sp_nospace(parts[0]);
    } else {
        let s = join_sp(parts);
        let p0 = parts[0];
        let jl = p0.len() as int;
        let tail = parts.drop_first();
        assert(forall|i: int| 0 <= i < tail.len() ==> tail[i] == parts[i + 1]);
        assert(s == p0 + seq![' '] + join_sp(tail));
        assert(s[jl] == ' ');
        assert forall|k: int| 0 <= k < jl implies s[k] != ' ' by {
            assert(s[k] == p0[k]);
        }
        lemma_split_sp_at(s, jl);
        assert(s.subrange(0, jl) =~= p0);
        assert(s.subrange(jl + 1, s.len() as int) =~= join_sp(tail));
        lemma_split_join(tail);
        assert(split_sp(s) =~~= seq![p0] + tail);
        assert(seq![p0] + tail =~~= parts);
    }
}

/// Joining after appending one more part appends a space and that part.
pub proof fn lemma_join_push(parts: Seq<Seq<char>>, p: Seq<char>)
    ensures
        parts.len() == 0 ==> join_sp(parts.push(p)) == p,
        parts.len() > 0 ==> join_sp(parts.push(p)) == join_sp(parts) + seq![' '] + p,
    decreases parts.len(),
{
    let w = parts.push(p);
    if parts.len() == 0 {
        assert(w.len() == 1);
        assert(w[0] == p);
    } else if parts.len() == 1 {
        assert(w.len() == 2);
        assert(w[0] == parts[0]);
        assert(w.drop_first() =~~= seq![p]);
        assert(join_sp(seq![p]) == p);
    } else {
        assert(w.drop_first() =~~= parts.drop_first().push(p));
        lemma_join_push(parts.drop_first(), p);
        assert(w[0] == parts[0]);
        assert(join_sp(parts) == parts[0] + seq![' '] + join_sp(parts.drop_first()));
        assert(parts[0] + seq![' '] + (join_sp(parts.drop_first()) + seq![' '] + p) =~= (parts[0]
            + seq![' '] + join_sp(parts.drop_first())) + seq![' '] + p);
    }
}

/// A token of the loose measurement shape: an opening bracket closed later
/// with no closing bracket or space in between.
pub open spec fn token_at(s: Seq<char>, i: int, j: int) -> bool {
    &&& 0 <= i < j < s.len()
    &&& s[i] == '['
    &&& s[j] == ']'
    &&& forall|k: int| i < k < j ==> s[k] != ']' && s[k] != ' '
}

/// The pre-check of list parsing: some substring anywhere matches the loose
/// token shape.
pub open spec fn has_token(s: Seq<char>) -> bool {
    exists|i: int, j: int| token_at(s, i, j)
}

fn not_space_char(c: char) -> (r: bool)
    ensures
        r == (c != ' '),
{
    c != ' '
}

/// Scans for the loose token shape in one pass: an opening bracket stays
/// "open" until a space or closing bracket; a closing bracket while open is
/// a match.
fn find_token(s: &str) -> (r: bool)
    ensures
        r == has_token(s@),
{
    let n = s.unicode_len();
    let mut k: usize = 0;
    let mut open = false;
    let ghost mut oi: int = 0;
    while k < n
        invariant
            n == s@.len(),
            0 <= k <= n,
            open ==> 0 <= oi < k && s@[oi] == '[' && forall|m: int|
                oi < m < k ==> s@[m] != ']' && s@[m] != ' ',
            !open ==> forall|i: int|
                0 <= i < k && s@[i] == '[' ==> exists|m: int|
                    i < m < k && (s@[m] == ']' || s@[m] == ' '),
            forall|i: int, j: int| 0 <= i < j < k ==> !token_at(s@, i, j),
        decreases n - k,
    {
        let c = s.get_char(k);
        if c == '[' {
            if !open {
                open = true;
                proof {
                    oi = k as int;
                }
            }
        } else if c == ']' {
            if open {
                proof {
                    assert(token_at(s@, oi, k as int));
                }
                return true;
            }
        } else if c == ' ' {
            open = false;
        }
        k = k + 1;
    }
    proof {
        assert forall|i: int, j: int| !token_at(s@, i, j) by {
            if token_at(s@, i, j) {
                assert(0 <= i < j < n);
            }
        }
    }
    false
}

/// Whether the text parses as a measurements list: the loose pre-check
/// holds and every space-split token parses as a measurement.
pub open spec fn list_parse_ok(s: Seq<char>) -> bool {
    has_token(s) && forall|i: int| 0 <= i < split_sp(s).len() ==> meas_ok(#[trigger] split_sp(s)[i])
}

#[derive(Debug)]
pub enum ParseMeasurementsListError {
    InvalidFormat,
    InvalidMeasurement(ParseMeasurementError),
}

impl ParseMeasurementsListError {
    /// Short description of the failure, as the command line reports it.
    pub fn description(&self) -> (r: &'static str)
        ensures
            self is InvalidFormat ==> r@ == "Invalid format"@,
            self is InvalidMeasurement ==> r@ == "Invalid measurement"@,
    {
        match *self {
            ParseMeasurementsListError::InvalidFormat => "Invalid format",
            ParseMeasurementsListError::InvalidMeasurement(_) => "Invalid measurement",
        }
    }

    /// The wrapped measurement error, where there is one.
    pub fn cause(&self) -> (r: Option<&ParseMeasurementError>)
        ensures
            r is Some <==> self is InvalidMeasurement,
            r matches Some(e) ==> *e == self->InvalidMeasurement_0,
    {
        match self {
            ParseMeasurementsListError::InvalidFormat => None,
            ParseMeasurementsListError::InvalidMeasurement(e) => Some(e),
        }
    }
}

/// An ordered sequence of measurements.
#[derive(Debug)]
pub struct MeasurementsList {
    list: Vec<Measurement>,
}

impl MeasurementsList {
    pub closed spec fn spec_items(self) -> Seq<Measurement> {
        self.list@
    }

    pub open spec fn wf(self) -> bool {
        forall|i: int| 0 <= i < self.spec_items().len() ==> self.spec_items()[i].wf()
    }

    /// The textual form: entries joined by single spaces.
    pub open spec fn fmt_spec(self) -> Seq<char> {
        join_sp(self.spec_items().map_values(|m: Measurement| m.fmt_spec()))
    }

    /// An empty list; note that the empty list renders to the empty text,
    /// which does not parse back.
    pub fn new() -> (r: MeasurementsList)
        ensures
            r.spec_items() == Seq::<Measurement>::empty(),
            r.wf(),
    {
        let v: Vec<Measurement> = Vec::new();
        proof {
            assert(v@ =~= Seq::<Measurement>::empty());
        }
        MeasurementsList { list: v }
    }

    pub fn len(&self) -> (r: usize)
        ensures
            r == self.spec_items().len(),
    {
        self.list.len()
    }

    pub fn get(&self, i: usize) -> (r: &Measurement)
        requires
            i < self.spec_items().len(),
        ensures
            *r == self.spec_items()[i as int],
    {
        &self.list[i]
    }

    /// Parses a space-separated list of measurements.  The loose token
    /// pre-check decides `InvalidFormat`; afterwards the text is split on
    /// single spaces and the first token that fails measurement parsing
    /// decides `InvalidMeasurement`.
    pub fn from_str(s: &str) -> (r: Result<MeasurementsList, ParseMeasurementsListError>)
        ensures
            (r matches Err(e) && e is InvalidFormat) <==> !has_token(s@),
            r is Ok <==> list_parse_ok(s@),
            r matches Ok(l) ==> {
                &&& l.wf()
                &&& l.spec_items().len() == split_sp(s@).len()
                &&& forall|i: int|
                    0 <= i < split_sp(s@).len() ==> l.spec_items()[i].spec_value() == meas_value(
                        split_sp(s@)[i],
                    ) && l.spec_items()[i].spec_unit() == meas_unit(split_sp(s@)[i])
            },
            (r matches Err(e) && e is InvalidMeasurement) ==> exists|i: int|
                {
                    &&& 0 <= i < split_sp(s@).len()
                    &&& !meas_ok(split_sp(s@)[i])
                    &&& forall|j: int| 0 <= j < i ==> meas_ok(split_sp(s@)[j])
                    &&& ((r->Err_0)->InvalidMeasurement_0 is InvalidFormat <==> meas_shape(
                        split_sp(s@)[i],
                    ) is None)
                    &&& ((r->Err_0)->InvalidMeasurement_0 is InvalidValue <==> meas_shape(
                        split_sp(s@)[i],
                    ) is Some && !is_float_text((meas_shape(split_sp(s@)[i])->0).0))
                    &&& ((r->Err_0)->InvalidMeasurement_0 is InvalidUnit <==> meas_shape(
                        split_sp(s@)[i],
                    ) is Some && is_float_text((meas_shape(split_sp(s@)[i])->0).0)
                        && unit_from_symbol((meas_shape(split_sp(s@)[i])->0).1) is None)
                },
    {
        if !find_token(s) {
            return Err(ParseMeasurementsListError::InvalidFormat);
        }
        let ghost tk = split_sp(s@);
        let n = s.unicode_len();
        let mut list: Vec<Measurement> = Vec::new();
        let mut pos: usize = 0;
        proof {
            assert(s@.subrange(0, n as int) =~= s@);
            assert(tk.subrange(0, 0) + split_sp(s@.subrange(0, n as int)) =~~= tk);
        }
        loop
            invariant_except_break
                tk =~~= tk.subrange(0, list@.len() as int) + split_sp(
                    s@.subrange(pos as int, n as int),
                ),
            invariant
                n == s@.len(),
                0 <= pos <= n,
                has_token(s@),
                tk == split_sp(s@),
                list@.len() <= tk.len(),
                forall|i: int|
                    0 <= i < list@.len() ==> meas_ok(#[trigger] tk[i]) && list@[i].spec_value()
                        == meas_value(tk[i]) && list@[i].spec_unit() == meas_unit(tk[i])
                        && list@[i].wf(),
            ensures
                list@.len() == tk.len(),
                forall|i: int|
                    0 <= i < list@.len() ==> meas_ok(#[trigger] tk[i]) && list@[i].spec_value()
                        == meas_value(tk[i]) && list@[i].spec_unit() == meas_unit(tk[i])
                        && list@[i].wf(),
            decreases n - pos,
        {
            let ghost idx = list@.len() as int;
            let ghost suffix = s@.subrange(pos as int, n as int);
            proof {
                lemma_split_sp_len(suffix);
                assert(tk.len() == idx + split_sp(suffix).len());
                assert(split_sp(suffix)[0] == tk[idx]);
            }
            let mut j: usize = pos;
            while j < n && not_space_char(s.get_char(j))
                invariant
                    n == s@.len(),
                    pos <= j <= n,
                    forall|k: int| pos <= k < j ==> s@[k] != ' ',
                decreases n - j,
            {
                j = j + 1;
            }
            let tok = s.substring_char(pos, j);
            proof {
                if j == n {
                    assert forall|k: int| 0 <= k < suffix.len() implies #[trigger] suffix[k]
                        != ' ' by {
                        assert(suffix[k] == s@[pos + k]);
                    }
                    lemma_split_sp_nospace(suffix);
                    assert(tok@ =~= suffix);
                    assert(tok@ == tk[idx]);
                } else {
                    assert(s@[j as int] == ' ');
                    let jj = j - pos;
                    assert(suffix[jj] == ' ');
                    assert forall|k: int| 0 <= k < jj implies #[trigger] suffix[k] != ' ' by {
                        assert(suffix[k] == s@[pos + k]);
                    }
                    lemma_split_sp_at(suffix, jj);
                    assert(suffix.subrange(0, jj) =~= s@.subrange(pos as int, j as int));
                    assert(tok@ == tk[idx]);
                    assert(suffix.subrange(jj + 1, suffix.len() as int) =~= s@.subrange(
                        j + 1 as int,
                        n as int,
                    ));
                }
            }
            let m = match Measurement::from_str(tok) {
                Ok(m) => m,
                Err(e) => {
                    proof {
                        assert(!meas_ok(tk[idx]));
                        assert(forall|jx: int| 0 <= jx < idx ==> meas_ok(#[trigger] tk[jx]));
                    }
                    return Err(ParseMeasurementsListError::InvalidMeasurement(e));
                },
            };
            list.push(m);
            if j == n {
                proof {
                    assert(tk.len() == idx + 1);
                    assert(list@.len() == tk.len());
                }
                break ;
            }
            pos = j + 1;
            proof {
                assert(tk.subrange(0, idx + 1) =~~= tk.subrange(0, idx).push(tk[idx]));
                assert(tk =~~= tk.subrange(0, idx + 1) + split_sp(
                    s@.subrange(pos as int, n as int),
                ));
            }
        }
        proof {
            lemma_split_sp_len(s@);
            assert forall|i: int| 0 <= i < list@.len() implies list@[i].wf() by {
                assert(meas_ok(#[trigger] tk[i]));
            }
        }
        Ok(MeasurementsList { list })
    }

    /// Renders the list: entries joined by single spaces, the empty list as
    /// the empty text.
    pub fn to_string(&self) -> (r: String)
        ensures
            r@ == self.fmt_spec(),
    {
        let ghost parts = self.spec_items().map_values(|m: Measurement| m.fmt_spec());
        let mut out = String::new();
        let mut first = true;
        let mut k: usize = 0;
        while k < self.list.len()
            invariant
                parts == self.spec_items().map_values(|m: Measurement| m.fmt_spec()),
                0 <= k <= self.spec_items().len(),
                parts.len() == self.spec_items().len(),
                first == (k == 0),
                out@ == join_sp(parts.subrange(0, k as int)),
            decreases self.spec_items().len() - k,
        {
            if first {
                first = false;
            } else {
                out.append(" ");
            }
            let t = self.list[k].to_string();
            out.append(t.as_str());
            proof {
                reveal_strlit(" ");
                lemma_join_push(parts.subrange(0, k as int), parts[k as int]);
                assert(parts.subrange(0, k as int).push(parts[k as int]) =~~= parts.subrange(
                    0,
                    k + 1 as int,
                ));
                if k == 0 {
                    assert(out@ =~= join_sp(parts.subrange(0, k + 1 as int)));
                } else {
                    assert(out@ =~= join_sp(parts.subrange(0, k + 1 as int)));
                }
            }
            k = k + 1;
        }
        proof {
            assert(parts.subrange(0, parts.len() as int) =~= parts);
        }
        out
    }
}

/// Round trip: formatting a non-empty well-formed list and parsing the
/// result succeeds and yields the same entries, in the same order.
pub proof fn lemma_list_round_trip(l: MeasurementsList)
    requires
        l.wf(),
        l.spec_items().len() > 0,
    ensures
        has_token(l.fmt_spec()),
        split_sp(l.fmt_spec()).len() == l.spec_items().len(),
        forall|i: int|
            0 <= i < split_sp(l.fmt_spec()).len() ==> meas_ok(#[trigger] split_sp(l.fmt_spec())[i]),
        forall|i: int|
            0 <= i < l.spec_items().len() ==> meas_value(#[trigger] split_sp(l.fmt_spec())[i])
                == l.spec_items()[i].spec_value() && meas_unit(split_sp(l.fmt_spec())[i])
                == l.spec_items()[i].spec_unit(),
{
    let items = l.spec_items();
    let parts = items.map_values(|m: Measurement| m.fmt_spec());
    let s = l.fmt_spec();
    assert forall|i: int, k: int|
        0 <= i < parts.len() && 0 <= k < parts[i].len() implies parts[i][k] != ' ' by {
        assert(parts[i] == items[i].fmt_spec());
        lemma_measurement_fmt_no_space(items[i]);
    }
    lemma_split_join(parts);
    assert forall|i: int| 0 <= i < split_sp(s).len() implies meas_ok(
        #[trigger] split_sp(s)[i],
    ) && meas_value(split_sp(s)[i]) == items[i].spec_value() && meas_unit(split_sp(s)[i])
        == items[i].spec_unit() by {
        assert(split_sp(s)[i] == parts[i]);
        assert(parts[i] == items[i].fmt_spec());
        lemma_measurement_round_trip(items[i]);
    }
    // a token of the loose shape sits inside the first entry
    let m0 = items[0];
    let v = m0.spec_value();
    let u = unit_symbol(m0.spec_unit());
    let vl = v.len() as int;
    lemma_float_text_chars(v);
    lemma_unit_symbol_chars(m0.spec_unit());
    assert(parts[0] == m0.fmt_spec());
    assert forall|k: int| 0 <= k < parts[0].len() implies s[k] == parts[0][k] by {
        if parts.len() == 1 {
        } else {
            assert(s == parts[0] + seq![' '] + join_sp(parts.drop_first()));
        }
    }
    let j0 = vl + u.len() + 1;
    assert(s[vl] == m0.fmt_spec()[vl]);
    assert(s[vl] == '[');
    assert(s[j0] == ']');
    assert forall|k: int| vl < k < j0 implies s[k] != ']' && s[k] != ' ' by {
        assert(s[k] == m0.fmt_spec()[k]);
        assert(m0.fmt_spec()[k] == u[k - vl - 1]);
    }
    assert(token_at(s, vl, j0));
}

/// Formatting is stable under a parse in between: a list whose entries carry
/// exactly the values and units parsed back from `l`'s text formats to the
/// same text again.
pub proof fn lemma_format_stable(l: MeasurementsList, l2: MeasurementsList)
    requires
        l.wf(),
        l.spec_items().len() > 0,
        l2.spec_items().len() == split_sp(l.fmt_spec()).len(),
        forall|i: int|
            0 <= i < l2.spec_items().len() ==> l2.spec_items()[i].spec_value() == meas_value(
                #[trigger] split_sp(l.fmt_spec())[i],
            ) && l2.spec_items()[i].spec_unit() == meas_unit(split_sp(l.fmt_spec())[i]),
    ensures
        l2.fmt_spec() == l.fmt_spec(),
{
    lemma_list_round_trip(l);
    let pa = l.spec_items().map_values(|m: Measurement| m.fmt_spec());
    let pb = l2.spec_items().map_values(|m: Measurement| m.fmt_spec());
    assert forall|i: int| 0 <= i < pa.len() implies pa[i] == pb[i] by {
        assert(l2.spec_items()[i].spec_value() == meas_value(#[trigger] split_sp(l.fmt_spec())[i]));
        assert(l2.spec_items()[i].spec_value() == l.spec_items()[i].spec_value());
        assert(l2.spec_items()[i].spec_unit() == l.spec_items()[i].spec_unit());
        assert(pa[i] == l.spec_items()[i].fmt_spec());
        assert(pb[i] == l2.spec_items()[i].fmt_spec());
        assert(pa[i] =~= pb[i]);
    }
    assert(pa =~~= pb);
}

} // verus!
