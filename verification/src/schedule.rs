//! The spawn schedule: an ordered timeline of (tick-offset, raw position)
//! entries consumed strictly oldest-first by the engine.

use vstd::prelude::*;
use crate::object::{Position, DT_LIMIT, RAW_LIMIT, SCHEDULE_CAP};

verus! {

/// One schedule entry: spawn an enemy `dt` ticks after the previous wave, at
/// `pos` given in raw authoring milli-units (rescaled by the engine).
#[derive(Clone, Copy, PartialEq, Eq, Structural, Debug)]
pub struct AppearLocation {
    pub dt: usize,
    pub pos: Position,
}

/// A single entry within the supported numeric range.
pub open spec fn spec_entry_ok(e: AppearLocation) -> bool {
    &&& e.dt <= DT_LIMIT
    &&& -RAW_LIMIT <= e.pos.x <= RAW_LIMIT
    &&& -RAW_LIMIT <= e.pos.y <= RAW_LIMIT
}

/// A whole entry sequence within the supported ranges.
pub open spec fn spec_entries_ok(es: Seq<AppearLocation>) -> bool {
    &&& es.len() <= SCHEDULE_CAP
    &&& forall|i: int| 0 <= i < es.len() ==> spec_entry_ok(#[trigger] es[i])
}

/// A validated spawn schedule, in file order (soonest-due first).
///
/// Values of this type only come out of the checked constructors, so every
/// entry is known to lie within the supported ranges.
pub struct Schedule {
    entries: Vec<AppearLocation>,
}

impl View for Schedule {
    type V = Seq<AppearLocation>;

    closed spec fn view(&self) -> Seq<AppearLocation> {
        self.entries@
    }
}

/// Loading or parsing the spawn schedule failed; fatal at startup.
#[derive(Clone, Copy, PartialEq, Eq, Structural, Debug)]
pub enum ConfigLoadError {
    /// A line is not a `tickOffset,x,y` record, or a value lies outside the
    /// supported numeric range.
    Malformed,
    /// The schedule holds more entries than the engine supports.
    TooManyEntries,
}

impl Schedule {
    #[verifier::type_invariant]
    spec fn type_inv(&self) -> bool {
        spec_entries_ok(self.entries@)
    }

    /// Builds a schedule from raw entries, rejecting any outside the
    /// supported ranges.
    pub fn from_entries(entries: Vec<AppearLocation>) -> (r: Result<Schedule, ConfigLoadError>)
        ensures
            r matches Ok(s) ==> s@ == entries@ && spec_entries_ok(entries@),
            r == Err::<Schedule, ConfigLoadError>(ConfigLoadError::TooManyEntries)
                <==> entries@.len() > SCHEDULE_CAP,
            r matches Err(e) && e == ConfigLoadError::Malformed
                ==> entries@.len() <= SCHEDULE_CAP
                    && exists|i: int| 0 <= i < entries@.len()
                        && !spec_entry_ok(#[trigger] entries@[i]),
    {
        if entries.len() > SCHEDULE_CAP {
            return Err(ConfigLoadError::TooManyEntries);
        }
        let mut i: usize = 0;
        while i < entries.len()
            invariant
                0 <= i <= entries@.len(),
                entries@.len() <= SCHEDULE_CAP,
                forall|j: int| 0 <= j < i ==> spec_entry_ok(#[trigger] entries@[j]),
            decreases entries@.len() - i,
        {
            let e = entries[i];
            if !(e.dt <= DT_LIMIT
                && -RAW_LIMIT <= e.pos.x && e.pos.x <= RAW_LIMIT
                && -RAW_LIMIT <= e.pos.y && e.pos.y <= RAW_LIMIT)
            {
                proof {
                    assert(!spec_entry_ok(entries@[i as int]));
                    assert(exists|j: int| 0 <= j < entries@.len()
                        && !spec_entry_ok(#[trigger] entries@[j]));
                }
                return Err(ConfigLoadError::Malformed);
            }
            i += 1;
        }
        Ok(Schedule { entries })
    }

    /// The entries, in file order.
    pub fn entries(&self) -> (r: &Vec<AppearLocation>)
        ensures
            r@ == self@,
            spec_entries_ok(self@),
    {
        proof {
            use_type_invariant(self);
        }
        &self.entries
    }

    /// How many entries the schedule holds.
    pub fn len(&self) -> (r: usize)
        ensures
            r == self@.len(),
    {
        self.entries.len()
    }
}

} // verus!

verus! {

// ----------------------------------------------------- the file format
//
// The schedule file is newline-delimited `tickOffset,x,y` records with
// exactly three comma-separated fields; parsing stops at the first line
// shorter than three characters (end-of-data, not an error). Tick offsets
// are unsigned decimals (an optional plus sign); coordinates are decimal
// numbers with an optional sign, an optional fraction and an optional
// exponent, read in milli-units (digits beyond the third fraction place
// truncate toward zero).

pub open spec fn is_digit(c: u8) -> bool {
    48 <= c <= 57
}

/// The value of a digit string.
pub open spec fn digits_val(s: Seq<u8>) -> nat
    decreases s.len(),
{
    if s.len() == 0 {
        0
    } else {
        digits_val(s.drop_last()) * 10 + (s.last() - 48) as nat
    }
}

pub open spec fn all_digits(s: Seq<u8>) -> bool {
    forall|i: int| 0 <= i < s.len() ==> is_digit(#[trigger] s[i])
}

/// A tick-offset field: an optional plus sign and a nonempty digit run
/// whose value fits `DT_LIMIT`.
pub open spec fn spec_parse_dt(s: Seq<u8>) -> Option<usize> {
    let t = if s.len() > 0 && s[0] == 43 {
        s.drop_first()
    } else {
        s
    };
    if t.len() >= 1 && all_digits(t) && digits_val(t) <= DT_LIMIT {
        Some(digits_val(t) as usize)
    } else {
        None
    }
}

/// The digit at position `k` of a digit string, zero outside it.
pub open spec fn digit_at(digits: Seq<u8>, k: int) -> nat {
    if 0 <= k < digits.len() {
        (digits[k] - 48) as nat
    } else {
        0
    }
}

pub open spec fn pow10(n: nat) -> nat
    decreases n,
{
    if n == 0 {
        1
    } else {
        10 * pow10((n - 1) as nat)
    }
}

/// The integer part of a digit string read with the decimal point after
/// position `point`: the digits left of the point, with implicit zeros
/// when the point lies past the string's end.
pub open spec fn spec_int_part(digits: Seq<u8>, point: int) -> nat {
    if point <= 0 {
        0
    } else if point <= digits.len() {
        digits_val(digits.take(point))
    } else {
        digits_val(digits) * pow10((point - digits.len()) as nat)
    }
}

/// The milli-unit magnitude of a digit string read with the decimal point
/// after position `point`: the integer part scaled by a thousand plus the
/// first three fraction digits; further fraction digits truncate.
pub open spec fn spec_shifted_milli(digits: Seq<u8>, point: int) -> nat {
    spec_int_part(digits, point) * 1000 + digit_at(digits, point) * 100 + digit_at(
        digits,
        point + 1,
    ) * 10 + digit_at(digits, point + 2)
}

/// Exponent digit runs are capped here (a machine limit): a larger shift
/// cannot reach a nonzero coordinate within `RAW_LIMIT` anyway.
pub const EXP_LIMIT: usize = 27;

/// First `e` or `E` at or after `i`, or the length.
pub open spec fn spec_find_exp(s: Seq<u8>, i: int) -> int {
    if find_byte(s, 101, i) <= find_byte(s, 69, i) {
        find_byte(s, 101, i)
    } else {
        find_byte(s, 69, i)
    }
}

/// First index at or after `i` holding byte `b`, or the length.
pub open spec fn find_byte(s: Seq<u8>, b: u8, i: int) -> int
    decreases s.len() - i,
{
    if i < 0 || i >= s.len() {
        s.len() as int
    } else if s[i] == b {
        i
    } else {
        find_byte(s, b, i + 1)
    }
}

pub proof fn lemma_find_byte_range(s: Seq<u8>, b: u8, i: int)
    requires
        0 <= i <= s.len(),
    ensures
        i <= find_byte(s, b, i) <= s.len(),
        find_byte(s, b, i) < s.len() ==> s[find_byte(s, b, i)] == b,
        forall|k: int| i <= k < find_byte(s, b, i) ==> s[k] != b,
    decreases s.len() - i,
{
    if i < s.len() && s[i] != b {
        lemma_find_byte_range(s, b, i + 1);
    }
}

/// A coordinate field, read as the usual decimal float grammar (without
/// the non-finite words): an optional sign; a mantissa of digits holding
/// at most one dot and at least one digit (`1`, `1.5`, `1.`, `.5`); an
/// optional exponent (`e`/`E`, optional sign, digits). The value is taken
/// in milli-units, truncated toward zero past the third fraction digit,
/// and must lie within `RAW_LIMIT`.
pub open spec fn spec_parse_coord(s: Seq<u8>) -> Option<i64> {
    let neg = s.len() > 0 && s[0] == 45;
    let signed = s.len() > 0 && (s[0] == 45 || s[0] == 43);
    let t = if signed {
        s.drop_first()
    } else {
        s
    };
    let ei = spec_find_exp(t, 0);
    let mant = t.subrange(0, ei);
    let has_exp = ei < t.len();
    let ex = t.subrange(ei + 1, t.len() as int);
    let eneg = ex.len() > 0 && ex[0] == 45;
    let esigned = ex.len() > 0 && (ex[0] == 45 || ex[0] == 43);
    let ed = if esigned {
        ex.drop_first()
    } else {
        ex
    };
    let d = find_byte(mant, 46, 0);
    let ip = mant.subrange(0, d);
    let fp = if d < mant.len() {
        mant.subrange(d + 1, mant.len() as int)
    } else {
        Seq::empty()
    };
    if all_digits(ip) && all_digits(fp) && ip.len() + fp.len() >= 1 && (has_exp
        ==> ed.len() >= 1 && all_digits(ed) && digits_val(ed) <= EXP_LIMIT) {
        let e: int = if !has_exp {
            0
        } else if eneg {
            -(digits_val(ed) as int)
        } else {
            digits_val(ed) as int
        };
        let mag = spec_shifted_milli(ip + fp, ip.len() + e);
        if mag <= RAW_LIMIT {
            if neg {
                Some((-(mag as int)) as i64)
            } else {
                Some(mag as i64)
            }
        } else {
            None
        }
    } else {
        None
    }
}

/// One schedule line: exactly three comma-separated fields.
pub open spec fn spec_parse_line(line: Seq<u8>) -> Option<AppearLocation> {
    let c1 = find_byte(line, 44, 0);
    let c2 = find_byte(line, 44, c1 + 1);
    let c3 = find_byte(line, 44, c2 + 1);
    if c1 == line.len() || c2 == line.len() || c3 != line.len() {
        None
    } else {
        match spec_parse_dt(line.subrange(0, c1)) {
            None => None,
            Some(dt) => match spec_parse_coord(line.subrange(c1 + 1, c2)) {
                None => None,
                Some(x) => match spec_parse_coord(line.subrange(c2 + 1, line.len() as int)) {
                    None => None,
                    Some(y) => Some(AppearLocation { dt, pos: Position { x, y } }),
                },
            },
        }
    }
}

/// The records of the file from position `i` on: lines up to the first
/// line shorter than three characters, each a valid record.
pub open spec fn spec_parse_from(s: Seq<u8>, i: int) -> Option<Seq<AppearLocation>>
    decreases s.len() - i,
        via spec_parse_from_decreases
{
    if i < 0 || i > s.len() {
        None
    } else {
        let j = find_byte(s, 10, i);
        let line = s.subrange(i, j);
        if line.len() < 3 {
            Some(Seq::empty())
        } else {
            match spec_parse_line(line) {
                None => None,
                Some(rec) => if j == s.len() {
                    Some(seq![rec])
                } else {
                    match spec_parse_from(s, j + 1) {
                        None => None,
                        Some(rest) => Some(seq![rec] + rest),
                    }
                },
            }
        }
    }
}

#[via_fn]
proof fn spec_parse_from_decreases(s: Seq<u8>, i: int) {
    if 0 <= i <= s.len() {
        lemma_find_byte_range(s, 10, i);
    }
}

/// A prefix of a digit run is worth no more than the whole run.
pub proof fn lemma_digits_prefix(s: Seq<u8>, k: int)
    requires
        0 <= k <= s.len(),
    ensures
        digits_val(s.take(k)) <= digits_val(s),
    decreases s.len(),
{
    if k < s.len() {
        assert(s.take(k) =~= s.drop_last().take(k));
        lemma_digits_prefix(s.drop_last(), k);
    } else {
        assert(s.take(k) =~= s);
    }
}

} // verus!

verus! {

/// First position of `b` in `data` at or after `start`, or the length.
fn scan_byte(data: &Vec<u8>, b: u8, start: usize) -> (r: usize)
    requires
        start <= data@.len(),
    ensures
        r as int == find_byte(data@, b, start as int),
        start <= r <= data@.len(),
{
    let n = data.len();
    let mut i = start;
    while i < n
        invariant
            start <= i <= n,
            n == data@.len(),
            find_byte(data@, b, start as int) == find_byte(data@, b, i as int),
        decreases n - i,
    {
        if data[i] == b {
            return i;
        }
        i += 1;
    }
    i
}

fn copy_range(data: &Vec<u8>, a: usize, b: usize) -> (r: Vec<u8>)
    requires
        a <= b <= data@.len(),
    ensures
        r@ == data@.subrange(a as int, b as int),
{
    let mut r: Vec<u8> = Vec::new();
    let mut i = a;
    while i < b
        invariant
            a <= i <= b <= data@.len(),
            r@.len() == i - a,
            forall|k: int| 0 <= k < r@.len() ==> r@[k] == data@[a + k],
        decreases b - i,
    {
        r.push(data[i]);
        i += 1;
    }
    proof {
        assert(r@ =~= data@.subrange(a as int, b as int));
    }
    r
}

/// Parses a tick-offset field.
fn parse_dt(f: &Vec<u8>) -> (r: Option<usize>)
    ensures
        r == spec_parse_dt(f@),
{
    let n = f.len();
    let plus = n > 0 && f[0] == 43;
    let start: usize = if plus {
        1
    } else {
        0
    };
    let ghost t = if plus {
        f@.drop_first()
    } else {
        f@
    };
    if n == start {
        return None;
    }
    let mut val: u64 = 0;
    let mut i: usize = start;
    while i < n
        invariant
            n == f@.len(),
            plus == (f@.len() > 0 && f@[0] == 43),
            start == (if plus {
                1usize
            } else {
                0usize
            }),
            t == (if plus {
                f@.drop_first()
            } else {
                f@
            }),
            start <= i <= n,
            forall|k: int| 0 <= k < i - start ==> is_digit(#[trigger] t[k]),
            val as nat == digits_val(t.take(i - start)),
            val <= DT_LIMIT as u64,
        decreases n - i,
    {
        let c = f[i];
        proof {
            assert(t[i - start] == f@[i as int]);
        }
        if !(48 <= c && c <= 57) {
            proof {
                assert(!is_digit(t[i - start]));
            }
            return None;
        }
        proof {
            assert(t.take(i - start + 1).drop_last() =~= t.take(i - start));
            assert(t.take(i - start + 1).last() == t[i - start]);
        }
        let d = (c - 48) as u64;
        if val > ((DT_LIMIT as u64) - d) / 10 {
            proof {
                assert(digits_val(t.take(i - start + 1)) > DT_LIMIT);
                lemma_digits_prefix(t, i - start + 1);
            }
            return None;
        }
        val = val * 10 + d;
        i += 1;
    }
    proof {
        assert(t.take(n - start) =~= t);
    }
    Some(val as usize)
}

/// First `e` or `E` in `data` at or after `start`, or the length.
fn scan_exp(data: &Vec<u8>, start: usize) -> (r: usize)
    requires
        start <= data@.len(),
    ensures
        r as int == spec_find_exp(data@, start as int),
        start <= r <= data@.len(),
{
    let n = data.len();
    let mut i = start;
    while i < n
        invariant
            start <= i <= n,
            n == data@.len(),
            find_byte(data@, 101, start as int) == find_byte(data@, 101, i as int),
            find_byte(data@, 69, start as int) == find_byte(data@, 69, i as int),
        decreases n - i,
    {
        if data[i] == 101 || data[i] == 69 {
            proof {
                lemma_find_byte_range(data@, 101, i as int);
                lemma_find_byte_range(data@, 69, i as int);
            }
            return i;
        }
        i += 1;
    }
    i
}

proof fn lemma_pow10_pos(n: nat)
    ensures
        pow10(n) >= 1,
    decreases n,
{
    if n > 0 {
        lemma_pow10_pos((n - 1) as nat);
    }
}

proof fn lemma_pow10_mono(m: nat, n: nat)
    requires
        m <= n,
    ensures
        pow10(m) <= pow10(n),
    decreases n,
{
    if m < n {
        lemma_pow10_mono(m, (n - 1) as nat);
        lemma_pow10_pos((n - 1) as nat);
    }
}

/// One digit of a digit string, zero past its end.
fn dig(digits: &Vec<u8>, idx: usize) -> (r: u64)
    requires
        forall|j: int| 0 <= j < digits@.len() ==> is_digit(#[trigger] digits@[j]),
    ensures
        r as nat == digit_at(digits@, idx as int),
{
    if idx < digits.len() {
        (digits[idx] - 48) as u64
    } else {
        0
    }
}

/// The milli-unit magnitude of a digit string with the decimal point after
/// `point`, for a point within the string; fails past `RAW_LIMIT`.
fn shifted_mag(digits: &Vec<u8>, point: usize) -> (r: Option<u64>)
    requires
        forall|j: int| 0 <= j < digits@.len() ==> is_digit(#[trigger] digits@[j]),
        point <= digits@.len(),
    ensures
        match r {
            Some(m) => m as nat == spec_shifted_milli(digits@, point as int) && m
                <= RAW_LIMIT as u64,
            None => spec_shifted_milli(digits@, point as int) > RAW_LIMIT,
        },
{
    let dlen = digits.len();
    let mut val: u64 = 0;
    let mut j: usize = 0;
    while j < point
        invariant
            forall|k: int| 0 <= k < digits@.len() ==> is_digit(#[trigger] digits@[k]),
            dlen == digits@.len(),
            point <= dlen,
            0 <= j <= point,
            val as nat == digits_val(digits@.take(j as int)),
            val <= RAW_LIMIT as u64,
        decreases point - j,
    {
        let c = digits[j];
        proof {
            assert(digits@.take(j + 1).drop_last() =~= digits@.take(j as int));
            assert(digits@.take(j + 1).last() == digits@[j as int]);
        }
        let d = (c - 48) as u64;
        if val > ((RAW_LIMIT as u64) - d) / 10 {
            proof {
                assert(digits_val(digits@.take(j + 1)) > RAW_LIMIT);
                assert(digits@.take(point as int).take(j + 1) =~= digits@.take(j + 1));
                lemma_digits_prefix(digits@.take(point as int), j + 1);
                assert(spec_int_part(digits@, point as int) > RAW_LIMIT);
            }
            return None;
        }
        val = val * 10 + d;
        j += 1;
    }
    let f0 = dig(digits, point);
    let f1 = if point < dlen {
        dig(digits, point + 1)
    } else {
        0
    };
    let f2 = if point < dlen && point + 1 < dlen {
        dig(digits, point + 2)
    } else {
        0
    };
    proof {
        assert(f1 as nat == digit_at(digits@, point as int + 1));
        assert(f2 as nat == digit_at(digits@, point as int + 2));
        assert(spec_int_part(digits@, point as int) == val as nat);
    }
    let mag = val * 1000 + f0 * 100 + f1 * 10 + f2;
    if mag > RAW_LIMIT as u64 {
        return None;
    }
    Some(mag)
}

/// The milli-unit magnitude of a digit string whose decimal point lies
/// `extra` positions past its end; fails past `RAW_LIMIT`.
fn padded_mag(digits: &Vec<u8>, extra: u64) -> (r: Option<u64>)
    requires
        forall|j: int| 0 <= j < digits@.len() ==> is_digit(#[trigger] digits@[j]),
        1 <= extra <= EXP_LIMIT as u64,
    ensures
        match r {
            Some(m) => m as nat == spec_shifted_milli(
                digits@,
                digits@.len() + extra,
            ) && m <= RAW_LIMIT as u64,
            None => spec_shifted_milli(digits@, digits@.len() + extra) > RAW_LIMIT,
        },
{
    let dlen = digits.len();
    let ghost point = digits@.len() + extra as int;
    proof {
        assert(digit_at(digits@, point) == 0);
        assert(digit_at(digits@, point + 1) == 0);
        assert(digit_at(digits@, point + 2) == 0);
        assert(spec_int_part(digits@, point) == digits_val(digits@) * pow10(extra as nat));
    }
    let mut val: u64 = 0;
    let mut j: usize = 0;
    while j < dlen
        invariant
            forall|k: int| 0 <= k < digits@.len() ==> is_digit(#[trigger] digits@[k]),
            dlen == digits@.len(),
            1 <= extra <= EXP_LIMIT as u64,
            point == digits@.len() + extra as int,
            0 <= j <= dlen,
            val as nat == digits_val(digits@.take(j as int)),
            val <= RAW_LIMIT as u64,
        decreases dlen - j,
    {
        let c = digits[j];
        proof {
            assert(digits@.take(j + 1).drop_last() =~= digits@.take(j as int));
            assert(digits@.take(j + 1).last() == digits@[j as int]);
        }
        let d = (c - 48) as u64;
        if val > ((RAW_LIMIT as u64) - d) / 10 {
            proof {
                assert(digits_val(digits@.take(j + 1)) > RAW_LIMIT);
                lemma_digits_prefix(digits@, j + 1);
                lemma_pow10_pos(extra as nat);
                assert(digits_val(digits@) * pow10(extra as nat) >= digits_val(digits@) * 1)
                    by (nonlinear_arith)
                    requires pow10(extra as nat) >= 1;
            }
            return None;
        }
        val = val * 10 + d;
        j += 1;
    }
    proof {
        assert(digits@.take(dlen as int) =~= digits@);
        assert(pow10(0nat) == 1);
        assert(digits_val(digits@) * pow10(0nat) == digits_val(digits@));
    }
    let mut step: u64 = 0;
    while step < extra
        invariant
            1 <= extra <= EXP_LIMIT as u64,
            point == digits@.len() + extra as int,
            0 <= step <= extra,
            val as nat == digits_val(digits@) * pow10(step as nat),
            val <= RAW_LIMIT as u64,
        decreases extra - step,
    {
        if val > (RAW_LIMIT as u64) / 10 {
            proof {
                lemma_pow10_mono((step + 1) as nat, extra as nat);
                assert(pow10((step + 1) as nat) == 10 * pow10(step as nat));
                assert(digits_val(digits@) * pow10((step + 1) as nat) == (digits_val(
                    digits@,
                ) * pow10(step as nat)) * 10) by (nonlinear_arith)
                    requires pow10((step + 1) as nat) == 10 * pow10(step as nat);
                assert(digits_val(digits@) * pow10(extra as nat) >= digits_val(digits@)
                    * pow10((step + 1) as nat)) by (nonlinear_arith)
                    requires pow10(extra as nat) >= pow10((step + 1) as nat) && digits_val(
                        digits@,
                    ) >= 0;
                assert(spec_int_part(digits@, point) > RAW_LIMIT);
            }
            return None;
        }
        proof {
            assert(pow10((step + 1) as nat) == 10 * pow10(step as nat));
            assert(digits_val(digits@) * pow10((step + 1) as nat) == (digits_val(digits@)
                * pow10(step as nat)) * 10) by (nonlinear_arith)
                requires pow10((step + 1) as nat) == 10 * pow10(step as nat);
        }
        val = val * 10;
        step += 1;
    }
    let mag = val * 1000;
    if mag > RAW_LIMIT as u64 {
        return None;
    }
    Some(mag)
}

/// Parses an exponent suffix: an optional sign and a digit run whose
/// value fits the exponent cap. Returns the sign and the magnitude.
fn exp_value(ex: &Vec<u8>) -> (r: Option<(bool, u64)>)
    ensures
        ({
            let eneg = ex@.len() > 0 && ex@[0] == 45;
            let ed = if ex@.len() > 0 && (ex@[0] == 45 || ex@[0] == 43) {
                ex@.drop_first()
            } else {
                ex@
            };
            match r {
                Some(p) => p.0 == eneg && p.1 as nat == digits_val(ed) && ed.len() >= 1
                    && all_digits(ed) && digits_val(ed) <= EXP_LIMIT,
                None => !(ed.len() >= 1 && all_digits(ed) && digits_val(ed) <= EXP_LIMIT),
            }
        }),
{
    let exn = ex.len();
    let eneg = exn > 0 && ex[0] == 45;
    let es: usize = if exn > 0 && (ex[0] == 45 || ex[0] == 43) {
        1
    } else {
        0
    };
    let ghost ed = if es == 1 {
        ex@.drop_first()
    } else {
        ex@
    };
    if exn == es {
        return None;
    }
    let mut val: u64 = 0;
    let mut k = es;
    while k < exn
        invariant
            exn == ex@.len(),
            es == (if ex@.len() > 0 && (ex@[0] == 45 || ex@[0] == 43) {
                1usize
            } else {
                0usize
            }),
            ed == (if es == 1 {
                ex@.drop_first()
            } else {
                ex@
            }),
            es <= k <= exn,
            forall|j: int| 0 <= j < k - es ==> is_digit(#[trigger] ed[j]),
            val as nat == digits_val(ed.take(k - es)),
            val <= EXP_LIMIT as u64,
        decreases exn - k,
    {
        let c = ex[k];
        proof {
            assert(ed[k - es] == ex@[k as int]);
        }
        if !(48 <= c && c <= 57) {
            proof {
                assert(!is_digit(ed[k - es]));
            }
            return None;
        }
        proof {
            assert(ed.take(k - es + 1).drop_last() =~= ed.take(k - es));
            assert(ed.take(k - es + 1).last() == ed[k - es]);
        }
        let d = (c - 48) as u64;
        if val * 10 + d > EXP_LIMIT as u64 {
            proof {
                assert(digits_val(ed.take(k - es + 1)) > EXP_LIMIT);
                lemma_digits_prefix(ed, k - es + 1);
            }
            return None;
        }
        val = val * 10 + d;
        k += 1;
    }
    proof {
        assert(ed.take(exn - es) =~= ed);
    }
    Some((eneg, val))
}

/// Splits a mantissa around its dot and gathers the digit string: the
/// digits of the integer part followed by those of the fraction, with the
/// integer part's length. Fails unless both parts are pure digits holding
/// at least one digit between them.
fn mant_digits(mant: &Vec<u8>) -> (r: Option<(Vec<u8>, usize)>)
    ensures
        ({
            let dd = find_byte(mant@, 46, 0);
            let ip = mant@.subrange(0, dd);
            let fp = if dd < mant@.len() {
                mant@.subrange(dd + 1, mant@.len() as int)
            } else {
                Seq::<u8>::empty()
            };
            match r {
                Some(p) => {
                    &&& all_digits(ip)
                    &&& all_digits(fp)
                    &&& p.0@ == ip + fp
                    &&& p.1 as int == ip.len()
                    &&& p.0@.len() >= 1
                    &&& p.1 <= p.0@.len()
                    &&& forall|j: int| 0 <= j < p.0@.len() ==> is_digit(#[trigger] p.0@[j])
                },
                None => !(all_digits(ip) && all_digits(fp) && ip.len() + fp.len() >= 1),
            }
        }),
{
    let mn = mant.len();
    let d = scan_byte(mant, 46, 0);
    let ghost sip = mant@.subrange(0, d as int);
    let ghost sfp = if (d as int) < mant@.len() {
        mant@.subrange(d as int + 1, mant@.len() as int)
    } else {
        Seq::<u8>::empty()
    };
    let ghost alld = sip + sfp;
    let mut digits: Vec<u8> = Vec::new();
    let mut i: usize = 0;
    while i < mn
        invariant
            mn == mant@.len(),
            d as int == find_byte(mant@, 46, 0),
            d <= mn,
            sip == mant@.subrange(0, d as int),
            sfp == (if (d as int) < mant@.len() {
                mant@.subrange(d as int + 1, mant@.len() as int)
            } else {
                Seq::<u8>::empty()
            }),
            alld == sip + sfp,
            0 <= i <= mn,
            digits@ == (if i <= d {
                alld.take(i as int)
            } else {
                alld.take(i - 1)
            }),
            forall|j: int| 0 <= j < digits@.len() ==> is_digit(#[trigger] digits@[j]),
        decreases mn - i,
    {
        if i != d {
            let c = mant[i];
            proof {
                if i < d {
                    assert(alld[i as int] == sip[i as int]);
                    assert(sip[i as int] == mant@[i as int]);
                } else {
                    assert(alld[i - 1] == sfp[i - d - 1]);
                    assert(sfp[i - d - 1] == mant@[i as int]);
                }
            }
            if !(48 <= c && c <= 57) {
                proof {
                    if i < d {
                        assert(!is_digit(sip[i as int]));
                    } else {
                        assert(!is_digit(sfp[i - d - 1]));
                    }
                }
                return None;
            }
            digits.push(c);
            proof {
                if i < d {
                    assert(alld.take(i + 1) =~= alld.take(i as int).push(alld[i as int]));
                } else {
                    assert(alld.take(i as int) =~= alld.take(i - 1).push(alld[i - 1]));
                }
            }
        }
        i += 1;
    }
    proof {
        assert(digits@ =~= alld);
        assert forall|j: int| 0 <= j < sip.len() implies is_digit(#[trigger] sip[j]) by {
            assert(sip[j] == alld[j]);
        }
        assert forall|j: int| 0 <= j < sfp.len() implies is_digit(#[trigger] sfp[j]) by {
            assert(sfp[j] == alld[sip.len() + j]);
        }
    }
    if digits.len() == 0 {
        return None;
    }
    Some((digits, d))
}

/// Parses a coordinate field into milli-units.
#[verifier::rlimit(60)]
fn parse_coord(f: &Vec<u8>) -> (r: Option<i64>)
    ensures
        r == spec_parse_coord(f@),
{
    let n = f.len();
    let neg = n > 0 && f[0] == 45;
    let signed = n > 0 && (f[0] == 45 || f[0] == 43);
    let start: usize = if signed {
        1
    } else {
        0
    };
    let t = copy_range(f, start, n);
    proof {
        if signed {
            assert(t@ =~= f@.drop_first());
        } else {
            assert(t@ =~= f@);
        }
    }
    let tn = t.len();
    let ei = scan_exp(&t, 0);
    let has_exp = ei < tn;
    let ghost sed = ({
        let sex = t@.subrange(ei as int + 1, t@.len() as int);
        if sex.len() > 0 && (sex[0] == 45 || sex[0] == 43) {
            sex.drop_first()
        } else {
            sex
        }
    });
    let mut e_mag: u64 = 0;
    let mut eneg = false;
    if has_exp {
        let ex = copy_range(&t, ei + 1, tn);
        proof {
            assert(ex@ =~= t@.subrange(ei as int + 1, t@.len() as int));
        }
        match exp_value(&ex) {
            Some(p) => {
                eneg = p.0;
                e_mag = p.1;
            },
            None => {
                return None;
            },
        }
    }
    let mant = copy_range(&t, 0, ei);
    proof {
        assert(mant@ =~= t@.subrange(0, ei as int));
    }
    let (digits, ipl) = match mant_digits(&mant) {
        Some(p) => p,
        None => {
            return None;
        },
    };
    let dlen = digits.len();
    // the decimal point sits at the integer part's length plus the shift
    let mag_opt: Option<u64> = if eneg {
        let em = e_mag as usize;
        if em >= ipl {
            // the point lies at or left of every digit: value under one
            let pneg = em - ipl;
            let f0 = if pneg == 0 {
                dig(&digits, 0)
            } else {
                0
            };
            let f1 = if pneg <= 1 {
                dig(&digits, 1 - pneg)
            } else {
                0
            };
            let f2 = if pneg <= 2 {
                dig(&digits, 2 - pneg)
            } else {
                0
            };
            proof {
                let point = ipl as int - em as int;
                assert(spec_int_part(digits@, point) == 0);
                assert(f0 as nat == digit_at(digits@, point));
                assert(f1 as nat == digit_at(digits@, point + 1));
                assert(f2 as nat == digit_at(digits@, point + 2));
            }
            Some(f0 * 100 + f1 * 10 + f2)
        } else {
            shifted_mag(&digits, ipl - em)
        }
    } else {
        let em = e_mag as usize;
        if em <= dlen - ipl {
            shifted_mag(&digits, ipl + em)
        } else {
            padded_mag(&digits, e_mag - ((dlen - ipl) as u64))
        }
    };
    proof {
        assert(has_exp ==> e_mag as nat == digits_val(sed));
        assert(!has_exp ==> e_mag == 0 && !eneg);
    }
    match mag_opt {
        None => None,
        Some(mag) => {
            if mag > RAW_LIMIT as u64 {
                return None;
            }
            let m = mag as i64;
            if neg {
                Some(-m)
            } else {
                Some(m)
            }
        },
    }
}

/// Parses one `tickOffset,x,y` line.
fn parse_line(line: &Vec<u8>) -> (r: Option<AppearLocation>)
    ensures
        r == spec_parse_line(line@),
{
    let n = line.len();
    let c1 = scan_byte(line, 44, 0);
    if c1 == n {
        return None;
    }
    let c2 = scan_byte(line, 44, c1 + 1);
    if c2 == n {
        return None;
    }
    let c3 = scan_byte(line, 44, c2 + 1);
    if c3 != n {
        return None;
    }
    let f0 = copy_range(line, 0, c1);
    let f1 = copy_range(line, c1 + 1, c2);
    let f2 = copy_range(line, c2 + 1, n);
    let dt = match parse_dt(&f0) {
        Some(v) => v,
        None => {
            return None;
        },
    };
    let x = match parse_coord(&f1) {
        Some(v) => v,
        None => {
            return None;
        },
    };
    let y = match parse_coord(&f2) {
        Some(v) => v,
        None => {
            return None;
        },
    };
    Some(AppearLocation { dt, pos: Position { x, y } })
}

impl AppearLocation {
    /// Reads the newline-delimited `tickOffset,x,y` schedule records out of
    /// the file contents: parsing stops at the first line shorter than
    /// three characters (end-of-data); a malformed record or one outside
    /// the supported numeric ranges is a fatal configuration error.
    pub fn read_list(data: &Vec<u8>) -> (r: Result<Schedule, ConfigLoadError>)
        ensures
            match r {
                Ok(sched) => spec_parse_from(data@, 0) == Some(sched@) && sched@.len()
                    <= SCHEDULE_CAP,
                Err(ConfigLoadError::Malformed) => spec_parse_from(data@, 0) is None,
                Err(ConfigLoadError::TooManyEntries) => spec_parse_from(data@, 0) is Some
                    && spec_parse_from(data@, 0).unwrap().len() > SCHEDULE_CAP,
            },
    {
        let n = data.len();
        let mut acc: Vec<AppearLocation> = Vec::new();
        let mut pos: usize = 0;
        loop
            invariant_except_break
                n == data@.len(),
                0 <= pos <= n,
                spec_parse_from(data@, 0) == (match spec_parse_from(data@, pos as int) {
                    Some(rest) => Some(acc@ + rest),
                    None => None::<Seq<AppearLocation>>,
                }),
                forall|k: int| 0 <= k < acc@.len() ==> spec_entry_ok(#[trigger] acc@[k]),
            ensures
                spec_parse_from(data@, 0) == Some(acc@),
                forall|k: int| 0 <= k < acc@.len() ==> spec_entry_ok(#[trigger] acc@[k]),
            decreases n - pos,
        {
            let j = scan_byte(data, 10, pos);
            let ghost line = data@.subrange(pos as int, j as int);
            if j - pos < 3 {
                proof {
                    assert(line.len() < 3);
                    assert(acc@ + Seq::<AppearLocation>::empty() =~= acc@);
                }
                break;
            }
            let linev = copy_range(data, pos, j);
            match parse_line(&linev) {
                None => {
                    return Err(ConfigLoadError::Malformed);
                },
                Some(rec) => {
                    proof {
                        assert(spec_entry_ok(rec)) by {
                            let c1 = find_byte(line, 44, 0);
                            let c2 = find_byte(line, 44, c1 + 1);
                            lemma_find_byte_range(line, 44, 0);
                            lemma_find_byte_range(line, 44, c1 + 1);
                        }
                    }
                    let ghost acc0 = acc@;
                    acc.push(rec);
                    if j == n {
                        proof {
                            assert(spec_parse_from(data@, pos as int) == Some(seq![rec]));
                            assert(acc0 + seq![rec] =~= acc@);
                        }
                        break;
                    }
                    proof {
                        if spec_parse_from(data@, j + 1) is Some {
                            let rest = spec_parse_from(data@, j + 1).unwrap();
                            assert(acc0 + (seq![rec] + rest) =~= acc@ + rest);
                        }
                    }
                    pos = j + 1;
                },
            }
        }
        if acc.len() > SCHEDULE_CAP {
            return Err(ConfigLoadError::TooManyEntries);
        }
        Ok(Schedule { entries: acc })
    }
}

} // verus!
