//! Decoding of one wire clause.
//!
//! A message is a `;`-terminated clause of the form `<TOKEN>:<VALUE>`; only
//! the first clause of the input is interpreted. Tokens are `LSPEED`,
//! `RSPEED` (value: a signed decimal literal) and `STOP` (value ignored).
//! The decimal value is read in hundredths of a percent, truncated toward
//! zero past the second fractional digit and saturated at `SPEED_MAG_CAP`.
use vstd::prelude::*;
use vstd::string::StrSliceExecFns;

use super::message::{Message, Speed, SPEED_MAG_CAP};

verus! {

/// Why a frame failed to decode. All three are local and non-fatal: the
/// frame is dropped and the previous motor state persists.
#[derive(Clone, Copy, PartialEq, Eq, Structural, Debug)]
pub enum ParsingError {
    /// The clause terminator `;` or the key/value separator `:` is missing.
    NoSepparator,
    /// The value of a speed command is not a decimal literal.
    ValueCanNotBeParsed,
    /// The token is not one of the recognized commands.
    NotAComand,
}

impl ParsingError {
    /// A human-readable account of the failure.
    pub fn message(&self) -> (r: &'static str)
        ensures
            r@ == "Can't parse the message"@,
    {
        "Can't parse the message"
    }
}

/// The index of the first occurrence of `c` in `s`, if any.
pub open spec fn find_char(s: Seq<char>, c: char) -> Option<int>
    decreases s.len(),
{
    if s.len() == 0 {
        None
    } else if s[0] == c {
        Some(0int)
    } else {
        match find_char(s.drop_first(), c) {
            Some(i) => Some(i + 1),
            None => None,
        }
    }
}

/// `find_char` returns the first index holding `c`, or `None` when `c` does
/// not occur at all.
pub proof fn lemma_find_char(s: Seq<char>, c: char)
    ensures
        match find_char(s, c) {
            Some(i) => 0 <= i < s.len() && s[i] == c && (forall|j: int| 0 <= j < i ==> s[j] != c),
            None => forall|j: int| 0 <= j < s.len() ==> s[j] != c,
        },
    decreases s.len(),
{
    if s.len() == 0 {
    } else if s[0] == c {
    } else {
        lemma_find_char(s.drop_first(), c);
        match find_char(s.drop_first(), c) {
            Some(i) => {
                assert(s[i + 1] == s.drop_first()[i]);
                assert forall|j: int| 0 <= j < i + 1 implies s[j] != c by {
                    if j > 0 {
                        assert(s[j] == s.drop_first()[j - 1]);
                    }
                }
            },
            None => {
                assert forall|j: int| 0 <= j < s.len() implies s[j] != c by {
                    if j > 0 {
                        assert(s[j] == s.drop_first()[j - 1]);
                    }
                }
            },
        }
    }
}

/// A position holding `c` with nothing equal to `c` before it is exactly
/// where `find_char` points.
pub proof fn lemma_find_char_at(s: Seq<char>, c: char, i: int)
    requires
        0 <= i < s.len(),
        s[i] == c,
        forall|j: int| 0 <= j < i ==> s[j] != c,
    ensures
        find_char(s, c) == Some(i),
{
    lemma_find_char(s, c);
    match find_char(s, c) {
        Some(k) => {
            if k < i {
                assert(s[k] != c);
            }
            if k > i {
                assert(s[i] != c);
            }
        },
        None => {
            assert(s[i] != c);
        },
    }
}

pub open spec fn is_digit(c: char) -> bool {
    48 <= c as u32 <= 57
}

pub open spec fn digit_val(c: char) -> int {
    c as u32 - 48
}

pub open spec fn all_digits(s: Seq<char>) -> bool {
    forall|i: int| 0 <= i < s.len() ==> is_digit(s[i])
}

/// The value of a string of decimal digits, most significant first.
pub open spec fn digits_val(s: Seq<char>) -> int
    decreases s.len(),
{
    if s.len() == 0 {
        0
    } else {
        digits_val(s.drop_last()) * 10 + digit_val(s.last())
    }
}

pub proof fn lemma_digits_val_nonneg(s: Seq<char>)
    requires
        all_digits(s),
    ensures
        digits_val(s) >= 0,
    decreases s.len(),
{
    if s.len() > 0 {
        lemma_digits_val_nonneg(s.drop_last());
    }
}

/// What the fractional digits contribute, in hundredths: everything past the
/// second digit is truncated (toward zero).
pub open spec fn frac_hundredths(s: Seq<char>) -> int {
    (if s.len() >= 1 {
        10 * digit_val(s[0])
    } else {
        0
    }) + (if s.len() >= 2 {
        digit_val(s[1])
    } else {
        0
    })
}

/// Whether the literal opens with a minus sign.
pub open spec fn literal_negative(s: Seq<char>) -> bool {
    s.len() > 0 && s[0] == '-'
}

/// The literal with its optional leading sign removed.
pub open spec fn literal_body(s: Seq<char>) -> Seq<char> {
    if s.len() > 0 && (s[0] == '-' || s[0] == '+') {
        s.drop_first()
    } else {
        s
    }
}

/// A sign-free decimal literal: digits, at most one dot, at least one digit.
pub open spec fn body_is_decimal(s: Seq<char>) -> bool {
    match find_char(s, '.') {
        None => s.len() > 0 && all_digits(s),
        Some(i) => (i > 0 || i + 1 < s.len()) && all_digits(s.subrange(0, i)) && all_digits(
            s.subrange(i + 1, s.len() as int),
        ),
    }
}

/// The magnitude of a valid sign-free literal, in hundredths.
pub open spec fn body_hundredths(s: Seq<char>) -> int {
    match find_char(s, '.') {
        None => 100 * digits_val(s),
        Some(i) => 100 * digits_val(s.subrange(0, i)) + frac_hundredths(
            s.subrange(i + 1, s.len() as int),
        ),
    }
}

/// Saturate a magnitude at the cap.
pub open spec fn cap_mag(raw: int) -> int {
    if raw >= SPEED_MAG_CAP as int {
        SPEED_MAG_CAP as int
    } else {
        raw
    }
}

/// The `Speed` a value string decodes to, or `None` when it is not a decimal
/// literal.
pub open spec fn speed_of_literal(s: Seq<char>) -> Option<Speed> {
    let body = literal_body(s);
    if body_is_decimal(body) {
        let m = cap_mag(body_hundredths(body));
        Some(Speed { neg: literal_negative(s) && m != 0, mag: m as u64 })
    } else {
        None
    }
}

/// What `parse` returns, clause by clause: the exact decode algorithm.
pub open spec fn decode_spec(s: Seq<char>) -> Result<Message, ParsingError> {
    match find_char(s, ';') {
        None => Err(ParsingError::NoSepparator),
        Some(sep) => {
            let clause = s.subrange(0, sep);
            match find_char(clause, ':') {
                None => Err(ParsingError::NoSepparator),
                Some(eq) => {
                    let comand = clause.subrange(0, eq);
                    let value = clause.subrange(eq + 1, clause.len() as int);
                    if comand == "LSPEED"@ {
                        match speed_of_literal(value) {
                            Some(sp) => Ok(Message::LeftSpeed(sp)),
                            None => Err(ParsingError::ValueCanNotBeParsed),
                        }
                    } else if comand == "RSPEED"@ {
                        match speed_of_literal(value) {
                            Some(sp) => Ok(Message::RightSpeed(sp)),
                            None => Err(ParsingError::ValueCanNotBeParsed),
                        }
                    } else if comand == "STOP"@ {
                        Ok(Message::Stop)
                    } else {
                        Err(ParsingError::NotAComand)
                    }
                },
            }
        },
    }
}

/// The index of the first occurrence of `sepparator`, counted in characters.
pub fn get_sepparator_index(string: &str, sepparator: char) -> (r: Option<usize>)
    ensures
        match r {
            Some(i) => find_char(string@, sepparator) == Some(i as int),
            None => find_char(string@, sepparator) is None,
        },
{
    let n = string.unicode_len();
    let mut i: usize = 0;
    while i < n
        invariant
            n == string@.len(),
            0 <= i <= n,
            forall|j: int| 0 <= j < i ==> string@[j] != sepparator,
        decreases n - i,
    {
        if string.get_char(i) == sepparator {
            proof {
                lemma_find_char_at(string@, sepparator, i as int);
            }
            return Some(i);
        }
        i += 1;
    }
    proof {
        lemma_find_char(string@, sepparator);
        match find_char(string@, sepparator) {
            Some(k) => {
                assert(string@[k] != sepparator);
            },
            None => {},
        }
    }
    None
}

/// Character-by-character string equality.
fn chars_eq(a: &str, b: &str) -> (r: bool)
    ensures
        r == (a@ == b@),
{
    let na = a.unicode_len();
    let nb = b.unicode_len();
    if na != nb {
        return false;
    }
    let mut i: usize = 0;
    while i < na
        invariant
            na == a@.len(),
            na == b@.len(),
            0 <= i <= na,
            forall|j: int| 0 <= j < i ==> a@[j] == b@[j],
        decreases na - i,
    {
        if a.get_char(i) != b.get_char(i) {
            return false;
        }
        i += 1;
    }
    proof {
        assert(a@ =~= b@);
    }
    true
}

/// Scan digits `s[from..to]`, accumulating their value saturated at the cap.
/// Returns `None` as soon as a non-digit stands in the range.
fn scan_digits(s: &str, from: usize, to: usize) -> (r: Option<u64>)
    requires
        from <= to <= s@.len(),
    ensures
        match r {
            Some(acc) => all_digits(s@.subrange(from as int, to as int)) && acc == cap_mag(
                digits_val(s@.subrange(from as int, to as int)),
            ),
            None => !all_digits(s@.subrange(from as int, to as int)),
        },
{
    let mut acc: u64 = 0;
    let mut i: usize = from;
    while i < to
        invariant
            from <= i <= to <= s@.len(),
            all_digits(s@.subrange(from as int, i as int)),
            acc == cap_mag(digits_val(s@.subrange(from as int, i as int))),
        decreases to - i,
    {
        let c = s.get_char(i);
        let cv = c as u32;
        if !(48 <= cv && cv <= 57) {
            proof {
                assert(s@.subrange(from as int, to as int)[i - from] == s@[i as int]);
            }
            return None;
        }
        let d: u64 = (cv - 48) as u64;
        let ghost prefix = s@.subrange(from as int, i as int);
        let ghost extended = s@.subrange(from as int, i as int + 1);
        proof {
            assert(extended.drop_last() =~= prefix);
            assert(extended.last() == s@[i as int]);
            lemma_digits_val_nonneg(prefix);
            lemma_digits_val_nonneg(extended);
        }
        let next: u64 = acc * 10 + d;
        if next >= SPEED_MAG_CAP {
            acc = SPEED_MAG_CAP;
        } else {
            acc = next;
        }
        proof {
            let p = digits_val(prefix);
            let dv = digit_val(s@[i as int]);
            assert(digits_val(extended) == p * 10 + dv);
            if p >= SPEED_MAG_CAP as int {
                assert(p * 10 + dv >= SPEED_MAG_CAP as int);
            }
        }
        i += 1;
    }
    proof {
        assert(s@.subrange(from as int, to as int) =~= s@.subrange(from as int, i as int));
    }
    Some(acc)
}

/// Decode the value of a speed command: an optional sign, digits, at most one
/// dot. The result is in hundredths, truncated toward zero past the second
/// fractional digit and saturated at the cap.
fn parse_value(value: &str) -> (r: Option<Speed>)
    ensures
        r == speed_of_literal(value@),
{
    let n = value.unicode_len();
    let mut start: usize = 0;
    let mut neg = false;
    if n > 0 {
        let c0 = value.get_char(0);
        if c0 == '-' {
            neg = true;
            start = 1;
        } else if c0 == '+' {
            start = 1;
        }
    }
    let ghost body = literal_body(value@);
    proof {
        assert(body =~= value@.subrange(start as int, n as int));
        assert(neg == literal_negative(value@));
    }
    let body_str = value.substring_char(start, n);
    proof {
        lemma_find_char(body_str@, '.');
    }
    let m = body_str.unicode_len();
    let mag: u64 = match get_sepparator_index(body_str, '.') {
        None => {
            if m == 0 {
                return None;
            }
            let ghost whole = body_str@.subrange(0, m as int);
            proof {
                assert(whole =~= body_str@);
            }
            match scan_digits(body_str, 0, m) {
                None => {
                    return None;
                },
                Some(acc) => {
                    proof {
                        lemma_digits_val_nonneg(body_str@);
                        if digits_val(body_str@) >= SPEED_MAG_CAP as int {
                            assert(100 * digits_val(body_str@) >= SPEED_MAG_CAP as int);
                        }
                    }
                    let t: u64 = if acc >= SPEED_MAG_CAP / 100 {
                        SPEED_MAG_CAP
                    } else {
                        let h = acc * 100;
                        h
                    };
                    proof {
                        assert(t == cap_mag(body_hundredths(body)));
                    }
                    t
                },
            }
        },
        Some(dot) => {
            if !(dot > 0 || dot + 1 < m) {
                return None;
            }
            let ghost int_part = body_str@.subrange(0, dot as int);
            let ghost frac_part = body_str@.subrange(dot as int + 1, m as int);
            let int_acc = match scan_digits(body_str, 0, dot) {
                None => {
                    return None;
                },
                Some(acc) => acc,
            };
            match scan_digits(body_str, dot + 1, m) {
                None => {
                    return None;
                },
                Some(_) => {},
            }
            let mut frac: u64 = 0;
            if dot + 1 < m {
                let c1 = body_str.get_char(dot + 1);
                frac = 10 * (((c1 as u32) - 48) as u64);
                if dot + 2 < m {
                    let c2 = body_str.get_char(dot + 2);
                    frac = frac + (((c2 as u32) - 48) as u64);
                }
            }
            proof {
                assert(frac_part.len() >= 1 ==> frac_part[0] == body_str@[dot as int + 1]);
                assert(frac_part.len() >= 2 ==> frac_part[1] == body_str@[dot as int + 2]);
                assert(frac_part.len() >= 1 ==> is_digit(frac_part[0]));
                assert(frac_part.len() >= 2 ==> is_digit(frac_part[1]));
                assert(frac == frac_hundredths(frac_part));
                lemma_digits_val_nonneg(int_part);
                if digits_val(int_part) >= SPEED_MAG_CAP as int {
                    assert(100 * digits_val(int_part) + frac_hundredths(frac_part)
                        >= SPEED_MAG_CAP as int);
                }
            }
            let t: u64 = if int_acc >= SPEED_MAG_CAP / 100 {
                SPEED_MAG_CAP
            } else {
                let h = int_acc * 100 + frac;
                if h >= SPEED_MAG_CAP {
                    SPEED_MAG_CAP
                } else {
                    h
                }
            };
            proof {
                assert(t == cap_mag(body_hundredths(body)));
            }
            t
        },
    };
    Some(Speed { neg: neg && mag != 0, mag })
}

/// Decode the first clause of `signal`, exactly as `decode_spec` lays it out:
/// missing `;` or `:` is `NoSepparator`, an unknown token `NotAComand`, a bad
/// speed value `ValueCanNotBeParsed`.
pub fn parse(signal: &str) -> (r: Result<Message, ParsingError>)
    ensures
        r == decode_spec(signal@),
{
    proof {
        lemma_find_char(signal@, ';');
    }
    let sep_idx = match get_sepparator_index(signal, ';') {
        Some(i) => i,
        None => {
            return Err(ParsingError::NoSepparator);
        },
    };
    let cut_part_1 = signal.substring_char(0, sep_idx);
    proof {
        lemma_find_char(cut_part_1@, ':');
    }
    let val_sep_idx = match get_sepparator_index(cut_part_1, ':') {
        Some(i) => i,
        None => {
            return Err(ParsingError::NoSepparator);
        },
    };
    let comand = cut_part_1.substring_char(0, val_sep_idx);
    let value = cut_part_1.substring_char(val_sep_idx + 1, cut_part_1.unicode_len());
    if chars_eq(comand, "LSPEED") {
        match parse_value(value) {
            Some(speed) => Ok(Message::LeftSpeed(speed)),
            None => Err(ParsingError::ValueCanNotBeParsed),
        }
    } else if chars_eq(comand, "RSPEED") {
        match parse_value(value) {
            Some(speed) => Ok(Message::RightSpeed(speed)),
            None => Err(ParsingError::ValueCanNotBeParsed),
        }
    } else if chars_eq(comand, "STOP") {
        Ok(Message::Stop)
    } else {
        Err(ParsingError::NotAComand)
    }
}

} // verus!
