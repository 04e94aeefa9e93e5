//! The text form of a BDF: `"B.D.F"`, three dot-separated decimal fields.
use vstd::prelude::*;
use crate::address::{Bdf, fits_bdf};
use vstd::string::StringSliceAdditionalSpecFns;

verus! {

/// ASCII `.`, the field separator.
pub const DOT: u8 = 46;

/// ASCII `0`.
pub const ZERO: u8 = 48;

/// Why a text does not name a BDF.
#[derive(Copy, Clone, PartialEq, Eq, Structural, Debug)]
pub enum BdfError {
    /// A field is empty or holds something other than decimal digits.
    InvalidField,
    /// A field's value does not fit in eight bits.
    ValueTooLarge,
    /// The text does not hold exactly three dot-separated fields.
    WrongFieldCount,
    /// The device or function number exceeds its width.
    OutOfRange,
}

pub open spec fn is_digit(c: u8) -> bool {
    ZERO <= c && c <= ZERO + 9
}

/// A non-empty run of decimal digits.
pub open spec fn all_digits(f: Seq<u8>) -> bool {
    f.len() > 0 && forall|i: int| 0 <= i < f.len() ==> is_digit(#[trigger] f[i])
}

/// The number that a run of decimal digits denotes.
pub open spec fn dec_value(f: Seq<u8>) -> nat
    decreases f.len(),
{
    if f.len() == 0 {
        0
    } else {
        dec_value(f.drop_last()) * 10 + (f.last() - ZERO) as nat
    }
}

/// The decimal digits of `n`, without leading zeros.
pub open spec fn dec_text(n: nat) -> Seq<u8>
    decreases n,
{
    if n < 10 {
        seq![(ZERO + n) as u8]
    } else {
        dec_text(n / 10).push((ZERO + n % 10) as u8)
    }
}

/// `s` cut at every dot; there is always at least one field.
pub open spec fn split_dots(s: Seq<u8>) -> Seq<Seq<u8>>
    decreases s.len(),
{
    if s.len() == 0 {
        seq![Seq::empty()]
    } else {
        let p = split_dots(s.drop_last());
        if s.last() == DOT {
            p.push(Seq::empty())
        } else {
            p.update(p.len() - 1, p.last().push(s.last()))
        }
    }
}

/// The value of one field.
pub open spec fn field_value(f: Seq<u8>) -> Result<u8, BdfError> {
    if !all_digits(f) {
        Err(BdfError::InvalidField)
    } else if dec_value(f) > 255 {
        Err(BdfError::ValueTooLarge)
    } else {
        Ok(dec_value(f) as u8)
    }
}

/// The values of all fields, or the error of the first bad one.
pub open spec fn fields_values(fs: Seq<Seq<u8>>) -> Result<Seq<u8>, BdfError>
    decreases fs.len(),
{
    if fs.len() == 0 {
        Ok(Seq::empty())
    } else {
        match fields_values(fs.drop_last()) {
            Err(e) => Err(e),
            Ok(v) => match field_value(fs.last()) {
                Err(e) => Err(e),
                Ok(x) => Ok(v.push(x)),
            },
        }
    }
}

/// What a text denotes: its fields are checked first, then their number,
/// then the device and function widths.
pub open spec fn parse_text(s: Seq<u8>) -> Result<(u8, u8, u8), BdfError> {
    match fields_values(split_dots(s)) {
        Err(e) => Err(e),
        Ok(v) => if v.len() != 3 {
            Err(BdfError::WrongFieldCount)
        } else if !fits_bdf((v[0], v[1], v[2])) {
            Err(BdfError::OutOfRange)
        } else {
            Ok((v[0], v[1], v[2]))
        },
    }
}

/// The text form of a triple.
pub open spec fn bdf_text(t: (u8, u8, u8)) -> Seq<u8> {
    dec_text(t.0 as nat) + seq![DOT] + dec_text(t.1 as nat) + seq![DOT] + dec_text(t.2 as nat)
}

/// `r` agrees with what `parse_text` gives.
pub open spec fn parsed_as(r: Result<Bdf, BdfError>, p: Result<(u8, u8, u8), BdfError>) -> bool {
    match p {
        Ok(t) => r matches Ok(b) && b@ == t,
        Err(e) => r == Err::<Bdf, BdfError>(e),
    }
}

proof fn lemma_dec_value_push(p: Seq<u8>, c: u8)
    ensures
        dec_value(p.push(c)) == dec_value(p) * 10 + (c - ZERO) as nat,
{
    assert(p.push(c).drop_last() =~= p);
}

proof fn lemma_split_len(s: Seq<u8>)
    ensures
        split_dots(s).len() >= 1,
    decreases s.len(),
{
    if s.len() > 0 {
        lemma_split_len(s.drop_last());
    }
}

/// Returns the value of a field, or why it is not one.
pub fn field_of(f: &[u8]) -> (r: Result<u8, BdfError>)
    ensures
        r == field_value(f@),
{
    let mut bad = false;
    let mut big = false;
    let mut val: u16 = 0;
    let mut i: usize = 0;
    while i < f.len()
        invariant
            i <= f@.len(),
            !bad ==> forall|j: int| 0 <= j < i ==> is_digit(#[trigger] f@[j]),
            bad ==> exists|j: int| 0 <= j < i && !is_digit(#[trigger] f@[j]),
            !bad && !big ==> val == dec_value(f@.subrange(0, i as int)) && val <= 255,
            !bad && big ==> dec_value(f@.subrange(0, i as int)) > 255,
        decreases f@.len() - i,
    {
        let c = f[i];
        proof {
            assert(f@.subrange(0, i + 1) =~= f@.subrange(0, i as int).push(c));
            lemma_dec_value_push(f@.subrange(0, i as int), c);
        }
        if !bad {
            if c < ZERO || c > ZERO + 9 {
                bad = true;
            } else if !big {
                let next: u16 = val * 10 + (c - ZERO) as u16;
                if next > 255 {
                    big = true;
                } else {
                    val = next;
                }
            }
        }
        i = i + 1;
    }
    proof {
        assert(f@.subrange(0, f@.len() as int) =~= f@);
    }
    if bad || f.len() == 0 {
        Err(BdfError::InvalidField)
    } else if big {
        Err(BdfError::ValueTooLarge)
    } else {
        Ok(val as u8)
    }
}


/// `err` and `vals` hold what `fields_values` gives.
pub open spec fn tracks(err: Option<BdfError>, vals: Seq<u8>, r: Result<Seq<u8>, BdfError>) -> bool {
    match r {
        Err(e) => err == Some(e),
        Ok(v) => err is None && vals == v,
    }
}

fn take_field(cur: &Vec<u8>, err: &mut Option<BdfError>, vals: &mut Vec<u8>, Ghost(fs): Ghost<Seq<Seq<u8>>>)
    requires
        tracks(*old(err), old(vals)@, fields_values(fs)),
    ensures
        tracks(*final(err), final(vals)@, fields_values(fs.push(cur@))),
{
    assert(fs.push(cur@).drop_last() =~= fs);
    if err.is_none() {
        match field_of(cur.as_slice()) {
            Err(e) => {
                *err = Some(e);
            },
            Ok(x) => {
                vals.push(x);
            },
        }
    }
}

/// Parses the text form `"B.D.F"` of a BDF.
pub fn parse_bdf(s: &[u8]) -> (r: Result<Bdf, BdfError>)
    ensures
        parsed_as(r, parse_text(s@)),
{
    let mut cur: Vec<u8> = Vec::new();
    let mut err: Option<BdfError> = None;
    let mut vals: Vec<u8> = Vec::new();
    let mut i: usize = 0;
    proof {
        assert(s@.subrange(0, 0) =~= Seq::<u8>::empty());
        assert(seq![Seq::<u8>::empty()].drop_last() =~= Seq::<Seq<u8>>::empty());
    }
    while i < s.len()
        invariant
            i <= s@.len(),
            split_dots(s@.subrange(0, i as int)).len() >= 1,
            split_dots(s@.subrange(0, i as int)).last() == cur@,
            tracks(err, vals@, fields_values(split_dots(s@.subrange(0, i as int)).drop_last())),
        decreases s@.len() - i,
    {
        let c = s[i];
        let ghost fs = split_dots(s@.subrange(0, i as int));
        proof {
            assert(s@.subrange(0, i + 1).drop_last() =~= s@.subrange(0, i as int));
            assert(fs =~= fs.drop_last().push(fs.last()));
        }
        if c == DOT {
            take_field(&cur, &mut err, &mut vals, Ghost(fs.drop_last()));
            cur = Vec::new();
            proof {
                assert(split_dots(s@.subrange(0, i + 1)).drop_last() =~= fs);
            }
        } else {
            cur.push(c);
            proof {
                assert(split_dots(s@.subrange(0, i + 1)).drop_last() =~= fs.drop_last());
            }
        }
        i = i + 1;
    }
    let ghost fs = split_dots(s@.subrange(0, i as int));
    proof {
        assert(s@.subrange(0, i as int) =~= s@);
        assert(fs =~= fs.drop_last().push(fs.last()));
    }
    take_field(&cur, &mut err, &mut vals, Ghost(fs.drop_last()));
    match err {
        Some(e) => Err(e),
        None => {
            if vals.len() != 3 {
                Err(BdfError::WrongFieldCount)
            } else {
                match Bdf::new(vals[0], vals[1], vals[2]) {
                    Some(b) => Ok(b),
                    None => Err(BdfError::OutOfRange),
                }
            }
        },
    }
}

/// Appends the decimal digits of `n`.
fn push_dec(out: &mut Vec<u8>, n: u8)
    ensures
        final(out)@ == old(out)@ + dec_text(n as nat),
{
    reveal_with_fuel(dec_text, 3);
    if n >= 100 {
        out.push(ZERO + n / 100);
        out.push(ZERO + (n / 10) % 10);
        out.push(ZERO + n % 10);
        assert(dec_text(n as nat) =~= seq![(ZERO + n / 100) as u8, (ZERO + (n / 10) % 10) as u8, (ZERO + n % 10) as u8]);
    } else if n >= 10 {
        out.push(ZERO + n / 10);
        out.push(ZERO + n % 10);
        assert(dec_text(n as nat) =~= seq![(ZERO + n / 10) as u8, (ZERO + n % 10) as u8]);
    } else {
        out.push(ZERO + n);
    }
    assert(final(out)@ =~= old(out)@ + dec_text(n as nat));
}

/// The text form `"B.D.F"` of `b`, as bytes.
pub fn format_bdf(b: &Bdf) -> (r: Vec<u8>)
    ensures
        r@ == bdf_text(b@),
{
    let (bus, dev, func) = b.triple();
    let mut out: Vec<u8> = Vec::new();
    push_dec(&mut out, bus);
    out.push(DOT);
    push_dec(&mut out, dev);
    out.push(DOT);
    push_dec(&mut out, func);
    assert(out@ =~= bdf_text(b@));
    out
}


proof fn lemma_dec_text(n: nat)
    ensures
        all_digits(dec_text(n)),
        dec_value(dec_text(n)) == n,
    decreases n,
{
    if n < 10 {
        assert(seq![(ZERO + n) as u8].drop_last() =~= Seq::<u8>::empty());
        assert(dec_value(Seq::<u8>::empty()) == 0);
    } else {
        lemma_dec_text(n / 10);
        let d = (ZERO + n % 10) as u8;
        lemma_dec_value_push(dec_text(n / 10), d);
        assert(n == (n / 10) * 10 + n % 10);
        assert forall|i: int| 0 <= i < dec_text(n).len() implies is_digit(#[trigger] dec_text(n)[i]) by {
            if i < dec_text(n / 10).len() {
                assert(dec_text(n)[i] == dec_text(n / 10)[i]);
            }
        }
    }
}

proof fn lemma_split_no_dot(p: Seq<u8>, q: Seq<u8>)
    requires
        forall|i: int| 0 <= i < q.len() ==> #[trigger] q[i] != DOT,
    ensures
        split_dots(p + q) == split_dots(p).update(split_dots(p).len() - 1, split_dots(p).last() + q),
    decreases q.len(),
{
    lemma_split_len(p);
    let sp = split_dots(p);
    if q.len() == 0 {
        assert(p + q =~= p);
        assert(sp.last() + q =~= sp.last());
        assert(sp.update(sp.len() - 1, sp.last()) =~= sp);
    } else {
        let q0 = q.drop_last();
        lemma_split_no_dot(p, q0);
        assert((p + q).drop_last() =~= p + q0);
        assert((sp.last() + q0).push(q.last()) =~= sp.last() + q);
        assert(split_dots(p + q) =~= sp.update(sp.len() - 1, sp.last() + q));
    }
}

proof fn lemma_split_dot(p: Seq<u8>)
    ensures
        split_dots(p + seq![DOT]) == split_dots(p).push(Seq::empty()),
{
    assert((p + seq![DOT]).drop_last() =~= p);
}

proof fn lemma_dec_no_dot(n: nat)
    ensures
        forall|i: int| 0 <= i < dec_text(n).len() ==> #[trigger] dec_text(n)[i] != DOT,
{
    lemma_dec_text(n);
}

/// Formatting a BDF and parsing the text gives the same BDF back.
pub proof fn lemma_text_round_trip(t: (u8, u8, u8))
    requires
        fits_bdf(t),
    ensures
        parse_text(bdf_text(t)) == Ok::<(u8, u8, u8), BdfError>(t),
{
    let a = dec_text(t.0 as nat);
    let b = dec_text(t.1 as nat);
    let c = dec_text(t.2 as nat);
    lemma_dec_no_dot(t.0 as nat);
    lemma_dec_no_dot(t.1 as nat);
    lemma_dec_no_dot(t.2 as nat);
    lemma_dec_text(t.0 as nat);
    lemma_dec_text(t.1 as nat);
    lemma_dec_text(t.2 as nat);
    let e = Seq::<u8>::empty();
    assert(e + a =~= a);
    lemma_split_no_dot(e, a);
    assert(split_dots(a) =~= seq![a]);
    lemma_split_dot(a);
    let s1 = a + seq![DOT];
    lemma_split_no_dot(s1, b);
    assert(split_dots(s1 + b) =~= seq![a, b]);
    lemma_split_dot(s1 + b);
    let s2 = s1 + b + seq![DOT];
    lemma_split_no_dot(s2, c);
    let fs = seq![a, b, c];
    assert(split_dots(bdf_text(t)) =~= fs);
    assert(fs.drop_last() =~= seq![a, b]);
    assert(fs.drop_last().drop_last() =~= seq![a]);
    assert(fs.drop_last().drop_last().drop_last() =~= Seq::<Seq<u8>>::empty());
    assert(fields_values(Seq::<Seq<u8>>::empty()) == Ok::<Seq<u8>, BdfError>(Seq::empty()));
    assert(field_value(a) == Ok::<u8, BdfError>(t.0));
    assert(field_value(b) == Ok::<u8, BdfError>(t.1));
    assert(field_value(c) == Ok::<u8, BdfError>(t.2));
    assert(Seq::<u8>::empty().push(t.0) =~= seq![t.0]);
    assert(fields_values(seq![a]) == Ok::<Seq<u8>, BdfError>(seq![t.0]));
    assert(seq![t.0].push(t.1) =~= seq![t.0, t.1]);
    assert(fields_values(seq![a, b]) == Ok::<Seq<u8>, BdfError>(seq![t.0, t.1]));
    assert(seq![t.0, t.1].push(t.2) =~= seq![t.0, t.1, t.2]);
    assert(fields_values(fs) == Ok::<Seq<u8>, BdfError>(seq![t.0, t.1, t.2]));
}


/// Relies on `String::from_utf8`: ASCII bytes are valid UTF-8, one
/// character per byte.
#[verifier::external_body]
fn ascii_string(v: Vec<u8>) -> (r: String)
    requires
        forall|i: int| 0 <= i < v@.len() ==> #[trigger] v@[i] < 128,
    ensures
        r@ == v@.map_values(|c: u8| c as char),
{
    String::from_utf8(v).unwrap()
}

impl Bdf {
    /// Parses `"B.D.F"`: three dot-separated decimal fields within their widths.
    pub fn parse(s: &str) -> (r: Result<Bdf, BdfError>)
        ensures
            parsed_as(r, parse_text(s.spec_bytes())),
    {
        parse_bdf(s.as_bytes())
    }

    /// Converts a (bus, device, function) path; fails when a field exceeds
    /// its width.
    pub fn try_from_path(bus: u8, device: u8, function: u8) -> (r: Result<Bdf, BdfError>)
        ensures
            fits_bdf((bus, device, function)) ==> (r matches Ok(b) && b@ == (bus, device, function)),
            !fits_bdf((bus, device, function)) ==> r == Err::<Bdf, BdfError>(BdfError::OutOfRange),
    {
        match Bdf::new(bus, device, function) {
            Some(b) => Ok(b),
            None => Err(BdfError::OutOfRange),
        }
    }

    /// The text form `"B.D.F"`, as bytes.
    pub fn to_text(&self) -> (r: Vec<u8>)
        ensures
            r@ == bdf_text(self@),
    {
        format_bdf(self)
    }

    /// The text form `"B.D.F"`.
    pub fn to_string(&self) -> (r: String)
        ensures
            r@ == bdf_text(self@).map_values(|c: u8| c as char),
    {
        let v = format_bdf(self);
        proof {
            let t = self@;
            lemma_dec_text(t.0 as nat);
            lemma_dec_text(t.1 as nat);
            lemma_dec_text(t.2 as nat);
            assert forall|i: int| 0 <= i < v@.len() implies #[trigger] v@[i] < 128 by {
                let la = dec_text(t.0 as nat).len();
                let lb = dec_text(t.1 as nat).len();
                if i < la {
                    assert(v@[i] == dec_text(t.0 as nat)[i]);
                } else if i == la {
                } else if i < la + 1 + lb {
                    assert(v@[i] == dec_text(t.1 as nat)[i - la - 1]);
                } else if i == la + 1 + lb {
                } else {
                    assert(v@[i] == dec_text(t.2 as nat)[i - la - lb - 2]);
                }
            }
        }
        ascii_string(v)
    }
}

impl std::str::FromStr for Bdf {
    type Err = BdfError;

    fn from_str(s: &str) -> Result<Bdf, BdfError> {
        Bdf::parse(s)
    }
}

} // verus!
