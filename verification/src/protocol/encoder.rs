//! Encoding of motion commands into wire frames, and the joystick axis
//! normalization that feeds it.
//!
//! The transmitter emits the same vocabulary the decoder accepts — one
//! `LSPEED` clause and one `RSPEED` clause per frame — so an encoded frame's
//! first clause decodes back to the left-speed command. A value is rendered
//! with its sign, its whole percentage points, and exactly two fractional
//! digits. The frame is built in a fixed 64-byte buffer; nothing is
//! heap-allocated.
use vstd::prelude::*;
use vstd::string::StrSliceExecFns;

use super::message::{Message, Speed};
use super::parser::{
    all_digits, body_hundredths, body_is_decimal, cap_mag, decode_spec, digit_val, digits_val,
    frac_hundredths, is_digit, lemma_find_char_at, literal_body, literal_negative,
    speed_of_literal, ParsingError,
};

verus! {

/// A wire frame under construction: at most 64 bytes, backed by a
/// `heapless::String` so encoding allocates nothing. The field is plain
/// `heapless` data; read it with `heapless`'s own accessors.
#[verifier::external_body]
pub struct FrameBuf {
    pub inner: heapless::String<64>,
}

/// The bytes a frame buffer holds so far.
pub uninterp spec fn frame_bytes(b: FrameBuf) -> Seq<u8>;

/// Relies on heapless::String::new: a fresh buffer is empty.
#[verifier::external_body]
fn frame_buf_new() -> (b: FrameBuf)
    ensures
        frame_bytes(b) == Seq::<u8>::empty(),
{
    FrameBuf { inner: heapless::String::new() }
}

/// Relies on heapless::string::StringInner::push: a one-byte character is
/// appended if a byte of capacity remains, else the buffer is left alone and
/// a capacity error comes back.
#[verifier::external_body]
fn push_ascii(b: &mut FrameBuf, c: char) -> (r: Result<(), ()>)
    requires
        (c as u32) < 128,
    ensures
        r is Ok <==> frame_bytes(*old(b)).len() < 64,
        r is Ok ==> frame_bytes(*final(b)) == frame_bytes(*old(b)).push(c as u8),
        r is Err ==> *final(b) == *old(b),
{
    match b.inner.push(c) {
        Ok(()) => Ok(()),
        Err(_) => Err(()),
    }
}

/// The character for one decimal digit.
pub open spec fn digit_char(d: int) -> char {
    ((48 + d) as u8) as char
}

/// The decimal rendering of `n`, most significant digit first.
pub open spec fn digits_chars(n: int) -> Seq<char>
    decreases n,
{
    if n <= 9 {
        seq![digit_char(n)]
    } else {
        digits_chars(n / 10).push(digit_char(n % 10))
    }
}

/// How many digits a value up to nine digits renders to.
pub proof fn lemma_digits_chars_len(n: int)
    requires
        0 <= n,
    ensures
        digits_chars(n).len() >= 1,
        n < 10 ==> digits_chars(n).len() <= 1,
        n < 100 ==> digits_chars(n).len() <= 2,
        n < 1000 ==> digits_chars(n).len() <= 3,
        n < 10000 ==> digits_chars(n).len() <= 4,
        n < 100000 ==> digits_chars(n).len() <= 5,
        n < 1000000 ==> digits_chars(n).len() <= 6,
        n < 10000000 ==> digits_chars(n).len() <= 7,
        n < 100000000 ==> digits_chars(n).len() <= 8,
        n < 1000000000 ==> digits_chars(n).len() <= 9,
    decreases n,
{
    if n > 9 {
        lemma_digits_chars_len(n / 10);
    }
}

/// The wire rendering of one speed value: sign, whole percentage points, a
/// dot, two fractional digits.
pub open spec fn speed_chars(v: Speed) -> Seq<char> {
    (if v.neg {
        seq!['-']
    } else {
        Seq::<char>::empty()
    }) + digits_chars(v.mag as int / 100) + seq![
        '.',
        digit_char(((v.mag as int) / 10) % 10),
        digit_char((v.mag as int) % 10),
    ]
}

/// The characters of a whole encoded frame: a left-speed clause and a
/// right-speed clause, each `;`-terminated and followed by a newline.
pub open spec fn encode_chars(left: Speed, right: Speed) -> Seq<char> {
    "LSPEED:"@ + speed_chars(left) + ";\n"@ + "RSPEED:"@ + speed_chars(right) + ";\n"@
}

/// ASCII characters, one byte each.
pub open spec fn ascii_bytes(s: Seq<char>) -> Seq<u8> {
    Seq::new(s.len(), |i: int| s[i] as u8)
}

/// Append every character of an ASCII string.
fn push_str_ascii(b: &mut FrameBuf, s: &str)
    requires
        forall|i: int| 0 <= i < s@.len() ==> (#[trigger] s@[i] as u32) < 128,
        frame_bytes(*old(b)).len() + s@.len() <= 64,
    ensures
        frame_bytes(*final(b)) == frame_bytes(*old(b)) + ascii_bytes(s@),
{
    let n = s.unicode_len();
    let mut i: usize = 0;
    while i < n
        invariant
            n == s@.len(),
            0 <= i <= n,
            forall|j: int| 0 <= j < s@.len() ==> (#[trigger] s@[j] as u32) < 128,
            frame_bytes(*old(b)).len() + n <= 64,
            frame_bytes(*b) == frame_bytes(*old(b)) + ascii_bytes(s@.subrange(0, i as int)),
        decreases n - i,
    {
        let c = s.get_char(i);
        let _ = push_ascii(b, c);
        proof {
            assert(ascii_bytes(s@.subrange(0, i as int + 1)) =~= ascii_bytes(
                s@.subrange(0, i as int),
            ).push(s@[i as int] as u8));
            assert(frame_bytes(*b) =~= frame_bytes(*old(b)) + ascii_bytes(
                s@.subrange(0, i as int + 1),
            ));
        }
        i += 1;
    }
    proof {
        assert(s@.subrange(0, n as int) =~= s@);
        assert(frame_bytes(*b) =~= frame_bytes(*old(b)) + ascii_bytes(s@));
    }
}

/// Append the decimal digits of `n`.
fn push_digits(b: &mut FrameBuf, n: u64)
    requires
        frame_bytes(*old(b)).len() + digits_chars(n as int).len() <= 64,
    ensures
        frame_bytes(*final(b)) == frame_bytes(*old(b)) + ascii_bytes(digits_chars(n as int)),
    decreases n,
{
    if n > 9 {
        push_digits(b, n / 10);
    }
    let d: u8 = (n % 10) as u8;
    let c: char = (48 + d) as char;
    let _ = push_ascii(b, c);
    proof {
        assert(frame_bytes(*b) =~= frame_bytes(*old(b)) + ascii_bytes(digits_chars(n as int)));
    }
}

/// Append the rendering of one speed value.
fn push_speed(b: &mut FrameBuf, v: Speed)
    requires
        v.wf(),
        frame_bytes(*old(b)).len() + speed_chars(v).len() <= 64,
    ensures
        frame_bytes(*final(b)) == frame_bytes(*old(b)) + ascii_bytes(speed_chars(v)),
{
    proof {
        lemma_digits_chars_len(v.mag as int / 100);
    }
    if v.neg {
        let _ = push_ascii(b, '-');
    }
    push_digits(b, v.mag / 100);
    let _ = push_ascii(b, '.');
    let d1: u8 = ((v.mag / 10) % 10) as u8;
    let _ = push_ascii(b, (48 + d1) as char);
    let d2: u8 = (v.mag % 10) as u8;
    let _ = push_ascii(b, (48 + d2) as char);
    proof {
        assert(frame_bytes(*b) =~= frame_bytes(*old(b)) + ascii_bytes(speed_chars(v)));
    }
}

/// Encode a pair of commanded speeds as one wire frame:
/// `LSPEED:<left>;\nRSPEED:<right>;\n`.
pub fn encode(left: Speed, right: Speed) -> (b: FrameBuf)
    requires
        left.wf(),
        right.wf(),
    ensures
        frame_bytes(b) == ascii_bytes(encode_chars(left, right)),
{
    proof {
        reveal_strlit("LSPEED:");
        reveal_strlit(";\n");
        reveal_strlit("RSPEED:");
        lemma_digits_chars_len(left.mag as int / 100);
        lemma_digits_chars_len(right.mag as int / 100);
    }
    let mut b = frame_buf_new();
    push_str_ascii(&mut b, "LSPEED:");
    push_speed(&mut b, left);
    push_str_ascii(&mut b, ";\n");
    push_str_ascii(&mut b, "RSPEED:");
    push_speed(&mut b, right);
    push_str_ascii(&mut b, ";\n");
    proof {
        assert(frame_bytes(b) =~= ascii_bytes(encode_chars(left, right)));
    }
    b
}

/// A digit's character carries exactly that digit.
proof fn lemma_digit_char_val(d: int)
    requires
        0 <= d <= 9,
    ensures
        is_digit(digit_char(d)),
        digit_val(digit_char(d)) == d,
{
}

/// Every character a number renders to is a decimal digit.
pub proof fn lemma_digits_chars_are_digits(n: int)
    requires
        0 <= n,
    ensures
        all_digits(digits_chars(n)),
    decreases n,
{
    if n <= 9 {
        lemma_digit_char_val(n);
    } else {
        lemma_digits_chars_are_digits(n / 10);
        lemma_digit_char_val(n % 10);
        let prev = digits_chars(n / 10);
        let whole = prev.push(digit_char(n % 10));
        assert forall|i: int| 0 <= i < whole.len() implies is_digit(whole[i]) by {
            if i < prev.len() {
                assert(whole[i] == prev[i]);
            } else {
                assert(whole[i] == digit_char(n % 10));
            }
        }
    }
}

/// Rendering digits and reading them back is the identity.
pub proof fn lemma_digits_chars_value(n: int)
    requires
        0 <= n,
    ensures
        digits_val(digits_chars(n)) == n,
    decreases n,
{
    if n <= 9 {
        let s = seq![digit_char(n)];
        assert(s.drop_last() =~= Seq::<char>::empty());
        lemma_digit_char_val(n);
        assert(s.last() == digit_char(n));
        assert(digits_val(Seq::<char>::empty()) == 0);
        assert(digits_val(s) == digits_val(s.drop_last()) * 10 + digit_val(s.last()));
    } else {
        lemma_digits_chars_value(n / 10);
        lemma_digit_char_val(n % 10);
        let prev = digits_chars(n / 10);
        let whole = prev.push(digit_char(n % 10));
        assert(whole.len() == prev.len() + 1);
        assert(whole.drop_last() =~= prev);
        assert(whole.last() == digit_char(n % 10));
        assert(digits_val(whole) == digits_val(whole.drop_last()) * 10 + digit_val(whole.last()));
        assert(digits_val(whole) == (n / 10) * 10 + n % 10);
        vstd::arithmetic::div_mod::lemma_fundamental_div_mod(n, 10);
    }
}

/// Each character of a rendered speed is a sign, a dot, or a digit.
pub proof fn lemma_speed_chars_shape(v: Speed)
    ensures
        forall|i: int|
            0 <= i < speed_chars(v).len() ==> ((#[trigger] speed_chars(v)[i]) == '-'
                || speed_chars(v)[i] == '.' || is_digit(speed_chars(v)[i])),
{
    let m = v.mag as int;
    lemma_digits_chars_are_digits(m / 100);
    lemma_digit_char_val((m / 10) % 10);
    lemma_digit_char_val(m % 10);
    let sign: Seq<char> = if v.neg {
        seq!['-']
    } else {
        Seq::<char>::empty()
    };
    let digs = digits_chars(m / 100);
    let tail = seq!['.', digit_char((m / 10) % 10), digit_char(m % 10)];
    assert forall|i: int| 0 <= i < speed_chars(v).len() implies ((speed_chars(v)[i]) == '-'
        || speed_chars(v)[i] == '.' || is_digit(speed_chars(v)[i])) by {
        let s = speed_chars(v);
        if i < sign.len() {
            assert(s[i] == '-');
        } else if i < sign.len() + digs.len() {
            assert(s[i] == digs[i - sign.len()]);
        } else {
            assert(s[i] == tail[i - sign.len() - digs.len()]);
        }
    }
}

/// A rendered speed value decodes back to the very value.
pub proof fn lemma_speed_chars_roundtrip(v: Speed)
    requires
        v.wf(),
    ensures
        speed_of_literal(speed_chars(v)) == Some(v),
{
    let s = speed_chars(v);
    let m = v.mag as int;
    let digs = digits_chars(m / 100);
    let tail = seq!['.', digit_char((m / 10) % 10), digit_char(m % 10)];
    lemma_digits_chars_are_digits(m / 100);
    lemma_digits_chars_value(m / 100);
    lemma_digits_chars_len(m / 100);
    lemma_digit_char_val((m / 10) % 10);
    lemma_digit_char_val(m % 10);
    if v.neg {
        assert(s[0] == '-');
        assert(literal_negative(s));
        assert(literal_body(s) =~= digs + tail);
    } else {
        assert(s[0] == digs[0]);
        assert(is_digit(s[0]));
        assert(s[0] != '-' && s[0] != '+');
        assert(!literal_negative(s));
        assert(literal_body(s) =~= digs + tail);
    }
    let body = literal_body(s);
    let dlen = digs.len() as int;
    assert(body[dlen] == '.');
    assert forall|j: int| 0 <= j < dlen implies body[j] != '.' by {
        assert(body[j] == digs[j]);
        assert(is_digit(digs[j]));
    }
    lemma_find_char_at(body, '.', dlen);
    assert(body.subrange(0, dlen) =~= digs);
    let frac = body.subrange(dlen + 1, body.len() as int);
    assert(frac =~= seq![digit_char((m / 10) % 10), digit_char(m % 10)]);
    assert(all_digits(frac)) by {
        assert(frac[0] == digit_char((m / 10) % 10));
        assert(frac[1] == digit_char(m % 10));
    }
    assert(body_is_decimal(body));
    assert(frac_hundredths(frac) == 10 * ((m / 10) % 10) + m % 10);
    vstd::arithmetic::div_mod::lemma_mod_breakdown(m, 10, 10);
    assert(m % 100 == 10 * ((m / 10) % 10) + m % 10);
    vstd::arithmetic::div_mod::lemma_fundamental_div_mod(m, 100);
    assert(body_hundredths(body) == 100 * (m / 100) + m % 100);
    assert(body_hundredths(body) == m);
    assert(cap_mag(m) == m);
    assert(speed_of_literal(s) == Some(Speed { neg: v.neg && m != 0, mag: m as u64 }));
    assert(Speed { neg: v.neg && m != 0, mag: m as u64 } == v);
}

/// The round trip: the first clause of an encoded frame decodes back to the
/// left-speed command the frame was built from. (The decoder reads one
/// clause per call; the right-speed clause is the second.)
pub proof fn lemma_encode_then_decode(left: Speed, right: Speed)
    requires
        left.wf(),
        right.wf(),
    ensures
        decode_spec(encode_chars(left, right)) == Result::<Message, ParsingError>::Ok(
            Message::LeftSpeed(left),
        ),
{
    reveal_strlit("LSPEED:");
    reveal_strlit("LSPEED");
    reveal_strlit(";\n");
    reveal_strlit("RSPEED:");
    let s = encode_chars(left, right);
    let a = "LSPEED:"@;
    let b = speed_chars(left);
    let rest = ";\n"@ + "RSPEED:"@ + speed_chars(right) + ";\n"@;
    assert(s =~= (a + b) + rest);
    let sep = 7 + b.len() as int;
    assert(s[sep] == ';');
    lemma_speed_chars_shape(left);
    assert forall|j: int| 0 <= j < sep implies s[j] != ';' by {
        if j < 7 {
            assert(s[j] == a[j]);
        } else {
            assert(s[j] == b[j - 7]);
            assert(b[j - 7] == '-' || b[j - 7] == '.' || is_digit(b[j - 7]));
        }
    }
    lemma_find_char_at(s, ';', sep);
    let clause = s.subrange(0, sep);
    assert(clause =~= a + b);
    assert(clause[6] == ':');
    assert forall|j: int| 0 <= j < 6 implies clause[j] != ':' by {
        assert(clause[j] == a[j]);
    }
    lemma_find_char_at(clause, ':', 6);
    let comand = clause.subrange(0, 6);
    assert(comand =~= "LSPEED"@);
    let value = clause.subrange(7, clause.len() as int);
    assert(value =~= b);
    lemma_speed_chars_roundtrip(left);
}

/// A sign, a dot, or a digit is an ASCII character.
proof fn lemma_shape_char_ascii(ch: char)
    requires
        ch == '-' || ch == '.' || is_digit(ch),
    ensures
        '\0' <= ch <= '\u{7f}',
{
}

/// Every character of an encoded frame is ASCII, so the frame's bytes are
/// its characters one for one.
pub proof fn lemma_encode_chars_ascii(left: Speed, right: Speed)
    ensures
        vstd::utf8::is_ascii_chars(encode_chars(left, right)),
{
    reveal_strlit("LSPEED:");
    reveal_strlit(";\n");
    reveal_strlit("RSPEED:");
    lemma_speed_chars_shape(left);
    lemma_speed_chars_shape(right);
    let s = encode_chars(left, right);
    let a = "LSPEED:"@;
    let bl = speed_chars(left);
    let c = ";\n"@;
    let d = "RSPEED:"@;
    let br = speed_chars(right);
    assert forall|i: int| 0 <= i < s.len() implies '\0' <= #[trigger] s[i] <= '\u{7f}' by {
        let n1 = a.len() as int;
        let n2 = n1 + bl.len() as int;
        let n3 = n2 + c.len() as int;
        let n4 = n3 + d.len() as int;
        let n5 = n4 + br.len() as int;
        if i < n1 {
            assert(s[i] == a[i]);
            assert('\0' <= s[i] <= '\u{7f}');
        } else if i < n2 {
            assert(s[i] == bl[i - n1]);
            assert(bl[i - n1] == '-' || bl[i - n1] == '.' || is_digit(bl[i - n1]));
            lemma_shape_char_ascii(bl[i - n1]);
        } else if i < n3 {
            assert(s[i] == c[i - n2]);
            assert('\0' <= s[i] <= '\u{7f}');
        } else if i < n4 {
            assert(s[i] == d[i - n3]);
            assert('\0' <= s[i] <= '\u{7f}');
        } else if i < n5 {
            assert(s[i] == br[i - n4]);
            assert(br[i - n4] == '-' || br[i - n4] == '.' || is_digit(br[i - n4]));
            lemma_shape_char_ascii(br[i - n4]);
        } else {
            assert(s[i] == c[i - n5]);
            assert('\0' <= s[i] <= '\u{7f}');
        }
    }
}

/// The ADC count a centered joystick reports: subtracted before re-mapping.
pub const ADC_SHIFT: u16 = 2144;

/// Where `normalize_axis` sends a raw ADC count: shift by `ADC_SHIFT`
/// (saturating at zero), coarsen by ten, re-map 0..=176 linearly onto
/// -100.00..=100.00 percent, and clamp there.
pub open spec fn normalize_axis_spec(raw: u16) -> Speed {
    let shifted = if raw >= ADC_SHIFT {
        raw - ADC_SHIFT
    } else {
        0
    };
    let v = (shifted as int / 10) * 20000 / 176 - 10000;
    let c = if v > 10000 {
        10000int
    } else {
        v
    };
    if c < 0 {
        Speed { neg: true, mag: (-c) as u64 }
    } else {
        Speed { neg: false, mag: c as u64 }
    }
}

/// Normalize one joystick axis reading to a signed speed, the fixed linear
/// re-map of the transmitter.
pub fn normalize_axis(raw: u16) -> (s: Speed)
    ensures
        s == normalize_axis_spec(raw),
        s.wf(),
{
    let shifted: u16 = if raw >= ADC_SHIFT {
        raw - ADC_SHIFT
    } else {
        0
    };
    let q: u64 = ((shifted / 10) as u64) * 20000 / 176;
    if q >= 10000 {
        let over: u64 = q - 10000;
        if over > 10000 {
            Speed { neg: false, mag: 10000 }
        } else {
            Speed { neg: false, mag: over }
        }
    } else {
        Speed { neg: true, mag: 10000 - q }
    }
}

} // verus!
