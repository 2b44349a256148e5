//! Wire-protocol JSON codec.
//!
//! The provider protocol exchanges small JSON documents: objects whose
//! values are strings, 64-bit integers, booleans, null, or nested objects.
//! That subset is what this codec writes and reads; a document outside it
//! (arrays, fractions, exponents) is rejected, which callers surface as a
//! decode failure.
//!
//! The codec is its own specification: [`spec_ser`] says byte for byte what
//! a value serializes to, [`spec_parse_value`] says what a byte sequence
//! parses to, and [`lemma_parse_ser_doc`] proves the second inverts the
//! first.

use vstd::prelude::*;

verus! {

/// A value of the protocol's JSON subset, as executable data.
///
/// Strings are carried as their raw (unescaped) bytes; the protocol treats
/// them as opaque octets and UTF-8 passes through untouched.  Object
/// members keep their wire order and may repeat; lookups take the first
/// match.
pub enum JsonValue {
    Null,
    Bool(bool),
    Int(i64),
    Str(Vec<u8>),
    Obj(Vec<(Vec<u8>, JsonValue)>),
}

/// The mathematical shadow of [`JsonValue`], used by every contract.
pub enum JsonVal {
    Null,
    Bool(bool),
    Int(int),
    Str(Seq<u8>),
    Obj(Seq<(Seq<u8>, JsonVal)>),
}

/// The view of an object member list.
pub open spec fn view_members(ms: Seq<(Vec<u8>, JsonValue)>) -> Seq<(Seq<u8>, JsonVal)>
    decreases ms,
{
    if ms.len() == 0 {
        Seq::empty()
    } else {
        seq![(ms[0].0@, ms[0].1@)] + view_members(ms.drop_first())
    }
}

/// Viewing a member list keeps its length.
pub proof fn lemma_view_members_len(ms: Seq<(Vec<u8>, JsonValue)>)
    ensures
        view_members(ms).len() == ms.len(),
    decreases ms,
{
    if ms.len() == 0 {
        assert(view_members(ms) == Seq::<(Seq<u8>, JsonVal)>::empty());
    } else {
        lemma_view_members_len(ms.drop_first());
        assert(view_members(ms) == seq![(ms[0].0@, ms[0].1@)] + view_members(ms.drop_first()));
    }
}

/// Viewing a member list views each member.
pub proof fn lemma_view_members_index(ms: Seq<(Vec<u8>, JsonValue)>, i: int)
    requires
        0 <= i < ms.len(),
    ensures
        view_members(ms).len() == ms.len(),
        view_members(ms)[i] == (ms[i].0@, ms[i].1@),
    decreases ms,
{
    lemma_view_members_len(ms);
    assert(view_members(ms) == seq![(ms[0].0@, ms[0].1@)] + view_members(ms.drop_first()));
    if i > 0 {
        lemma_view_members_index(ms.drop_first(), i - 1);
        assert(ms.drop_first()[i - 1] == ms[i]);
    }
}

impl View for JsonValue {
    type V = JsonVal;

    open spec fn view(&self) -> JsonVal
        decreases self,
    {
        match self {
            JsonValue::Null => JsonVal::Null,
            JsonValue::Bool(b) => JsonVal::Bool(*b),
            JsonValue::Int(n) => JsonVal::Int(*n as int),
            JsonValue::Str(s) => JsonVal::Str(s@),
            JsonValue::Obj(ms) => JsonVal::Obj(view_members(ms@)),
        }
    }
}

/// Whether a ghost value stays inside what the executable type can hold:
/// integers fit `i64`.
pub open spec fn bounded(v: JsonVal) -> bool
    decreases v,
{
    match v {
        JsonVal::Int(n) => i64::MIN <= n <= i64::MAX,
        JsonVal::Obj(ms) => bounded_members(ms),
        _ => true,
    }
}

/// [`bounded`], member by member.
pub open spec fn bounded_members(ms: Seq<(Seq<u8>, JsonVal)>) -> bool
    decreases ms,
{
    if ms.len() == 0 {
        true
    } else {
        bounded(ms[0].1) && bounded_members(ms.drop_first())
    }
}

/// Lower-case hex digit for a nibble.
pub open spec fn spec_hex_digit(n: u8) -> u8 {
    if n < 10 {
        (0x30 + n) as u8
    } else {
        (0x61 + (n - 10)) as u8
    }
}

/// How one raw string byte appears on the wire: the two-character escapes
/// of JSON for quote, backslash and the common control characters, a
/// `\u00XX` escape for the remaining control bytes, and every other byte
/// as itself.
pub open spec fn spec_escape_byte(b: u8) -> Seq<u8> {
    if b == 0x22 {
        seq![0x5c, 0x22]
    } else if b == 0x5c {
        seq![0x5c, 0x5c]
    } else if b == 0x0a {
        seq![0x5c, 0x6e]
    } else if b == 0x0d {
        seq![0x5c, 0x72]
    } else if b == 0x09 {
        seq![0x5c, 0x74]
    } else if b < 0x20 {
        seq![0x5c, 0x75, 0x30, 0x30, spec_hex_digit(b / 16), spec_hex_digit(b % 16)]
    } else {
        seq![b]
    }
}

/// A whole string body, escaped.
pub open spec fn spec_escape(s: Seq<u8>) -> Seq<u8>
    decreases s.len(),
{
    if s.len() == 0 {
        Seq::empty()
    } else {
        spec_escape_byte(s[0]) + spec_escape(s.drop_first())
    }
}

/// Decimal digits of a natural number, most significant first.
pub open spec fn spec_digits(n: nat) -> Seq<u8>
    decreases n,
{
    if n < 10 {
        seq![(0x30 + n) as u8]
    } else {
        spec_digits(n / 10) + seq![(0x30 + n % 10) as u8]
    }
}

/// An integer on the wire: an optional minus sign and decimal digits.
pub open spec fn spec_ser_int(n: int) -> Seq<u8> {
    if n < 0 {
        seq![0x2du8] + spec_digits((-n) as nat)
    } else {
        spec_digits(n as nat)
    }
}

/// What a value serializes to, byte for byte.  No whitespace is emitted.
pub open spec fn spec_ser(v: JsonVal) -> Seq<u8>
    decreases v,
{
    match v {
        JsonVal::Null => seq![0x6eu8, 0x75, 0x6c, 0x6c],
        JsonVal::Bool(b) => if b {
            seq![0x74u8, 0x72, 0x75, 0x65]
        } else {
            seq![0x66u8, 0x61, 0x6c, 0x73, 0x65]
        },
        JsonVal::Int(n) => spec_ser_int(n),
        JsonVal::Str(s) => seq![0x22u8] + spec_escape(s) + seq![0x22u8],
        JsonVal::Obj(ms) => seq![0x7bu8] + spec_ser_members(ms) + seq![0x7du8],
    }
}

/// The members of an object, comma-separated, each `"key":value`.
pub open spec fn spec_ser_members(ms: Seq<(Seq<u8>, JsonVal)>) -> Seq<u8>
    decreases ms,
{
    if ms.len() == 0 {
        Seq::empty()
    } else {
        let head = seq![0x22u8] + spec_escape(ms[0].0) + seq![0x22u8, 0x3a] + spec_ser(ms[0].1);
        if ms.len() == 1 {
            head
        } else {
            head + seq![0x2cu8] + spec_ser_members(ms.drop_first())
        }
    }
}

/// JSON insignificant whitespace.
pub open spec fn is_ws(b: u8) -> bool {
    b == 0x20 || b == 0x09 || b == 0x0a || b == 0x0d
}

/// An ASCII decimal digit.
pub open spec fn is_digit(b: u8) -> bool {
    0x30 <= b <= 0x39
}

/// Value of an ASCII hex digit, if it is one.
pub open spec fn spec_hex_val(b: u8) -> Option<u8> {
    if 0x30 <= b <= 0x39 {
        Some((b - 0x30) as u8)
    } else if 0x61 <= b <= 0x66 {
        Some((b - 0x61 + 10) as u8)
    } else if 0x41 <= b <= 0x46 {
        Some((b - 0x41 + 10) as u8)
    } else {
        None
    }
}

/// The byte named by a two-character escape code, if the code is one the
/// protocol accepts.
pub open spec fn spec_unescape_code(e: u8) -> Option<u8> {
    if e == 0x22 {
        Some(0x22u8)
    } else if e == 0x5c {
        Some(0x5cu8)
    } else if e == 0x2f {
        Some(0x2fu8)
    } else if e == 0x6e {
        Some(0x0au8)
    } else if e == 0x72 {
        Some(0x0du8)
    } else if e == 0x74 {
        Some(0x09u8)
    } else if e == 0x62 {
        Some(0x08u8)
    } else if e == 0x66 {
        Some(0x0cu8)
    } else {
        None
    }
}

/// First position at or after `i` holding no insignificant whitespace.
pub open spec fn spec_skip_ws(s: Seq<u8>, i: int) -> int
    decreases s.len() - i,
{
    if 0 <= i < s.len() && is_ws(s[i]) {
        spec_skip_ws(s, i + 1)
    } else {
        i
    }
}

/// Consumes a run of decimal digits starting at `i`, folding them onto
/// `acc`; yields the folded value and the first position past the run.
pub open spec fn spec_parse_digits(s: Seq<u8>, i: int, acc: nat) -> (nat, int)
    decreases s.len() - i,
{
    if 0 <= i < s.len() && is_digit(s[i]) {
        spec_parse_digits(s, i + 1, acc * 10 + (s[i] - 0x30) as nat)
    } else {
        (acc, i)
    }
}

/// Parses an integer at `i`: an optional minus sign, then at least one
/// digit; rejected when the value falls outside `i64`.
pub open spec fn spec_parse_int(s: Seq<u8>, i: int) -> Option<(int, int)> {
    if 0 <= i < s.len() && s[i] == 0x2d {
        if i + 1 < s.len() && is_digit(s[i + 1]) {
            let (m, j) = spec_parse_digits(s, i + 1, 0);
            if m <= 0x8000_0000_0000_0000 {
                Some((-(m as int), j))
            } else {
                None
            }
        } else {
            None
        }
    } else if 0 <= i < s.len() && is_digit(s[i]) {
        let (m, j) = spec_parse_digits(s, i, 0);
        if m <= 0x7fff_ffff_ffff_ffff {
            Some((m as int, j))
        } else {
            None
        }
    } else {
        None
    }
}

/// Parses the body of a string literal: `i` points just past the opening
/// quote; yields the unescaped bytes and the position just past the
/// closing quote.
pub open spec fn spec_parse_string_body(s: Seq<u8>, i: int) -> Option<(Seq<u8>, int)>
    decreases s.len() - i,
{
    if i < 0 || i >= s.len() {
        None
    } else {
        let b = s[i];
        if b == 0x22 {
            Some((Seq::empty(), i + 1))
        } else if b == 0x5c {
            if i + 1 >= s.len() {
                None
            } else {
                let e = s[i + 1];
                if e == 0x75 {
                    if i + 6 <= s.len() && s[i + 2] == 0x30 && s[i + 3] == 0x30
                        && spec_hex_val(s[i + 4]) is Some && spec_hex_val(s[i + 5]) is Some {
                        let c = (spec_hex_val(s[i + 4]).unwrap() * 16 + spec_hex_val(
                            s[i + 5],
                        ).unwrap()) as u8;
                        match spec_parse_string_body(s, i + 6) {
                            Some((cs, j)) => Some((seq![c] + cs, j)),
                            None => None,
                        }
                    } else {
                        None
                    }
                } else {
                    match spec_unescape_code(e) {
                        Some(c) => match spec_parse_string_body(s, i + 2) {
                            Some((cs, j)) => Some((seq![c] + cs, j)),
                            None => None,
                        },
                        None => None,
                    }
                }
            }
        } else if b < 0x20 {
            None
        } else {
            match spec_parse_string_body(s, i + 1) {
                Some((cs, j)) => Some((seq![b] + cs, j)),
                None => None,
            }
        }
    }
}

/// Parses one value at `i`.  The fuel `d` bounds how often the parser
/// may re-enter itself across nesting and member lists.  Every re-entry
/// first consumes at least one byte, so [`spec_parse_doc`] supplies one
/// unit per input byte; [`lemma_fuel_le_ser`] shows that much never runs
/// out on a document this codec writes.
pub open spec fn spec_parse_value(s: Seq<u8>, i: int, d: nat) -> Option<(JsonVal, int)>
    decreases d,
{
    if d == 0 {
        None
    } else {
        let j = spec_skip_ws(s, i);
        if j < 0 || j >= s.len() {
            None
        } else {
            let b = s[j];
            if b == 0x7b {
                let j1 = spec_skip_ws(s, j + 1);
                if 0 <= j1 < s.len() && s[j1] == 0x7d {
                    Some((JsonVal::Obj(Seq::empty()), j1 + 1))
                } else {
                    match spec_parse_members(s, j + 1, (d - 1) as nat) {
                        Some((ms, j2)) => Some((JsonVal::Obj(ms), j2)),
                        None => None,
                    }
                }
            } else if b == 0x22 {
                match spec_parse_string_body(s, j + 1) {
                    Some((cs, j2)) => Some((JsonVal::Str(cs), j2)),
                    None => None,
                }
            } else if b == 0x6e {
                if j + 4 <= s.len() && s[j + 1] == 0x75 && s[j + 2] == 0x6c && s[j + 3] == 0x6c {
                    Some((JsonVal::Null, j + 4))
                } else {
                    None
                }
            } else if b == 0x74 {
                if j + 4 <= s.len() && s[j + 1] == 0x72 && s[j + 2] == 0x75 && s[j + 3] == 0x65 {
                    Some((JsonVal::Bool(true), j + 4))
                } else {
                    None
                }
            } else if b == 0x66 {
                if j + 5 <= s.len() && s[j + 1] == 0x61 && s[j + 2] == 0x6c && s[j + 3] == 0x73
                    && s[j + 4] == 0x65 {
                    Some((JsonVal::Bool(false), j + 5))
                } else {
                    None
                }
            } else if b == 0x2d || is_digit(b) {
                match spec_parse_int(s, j) {
                    Some((n, j2)) => Some((JsonVal::Int(n), j2)),
                    None => None,
                }
            } else {
                None
            }
        }
    }
}

/// Parses the members of an object from just past the `{` (or a `,`),
/// through the closing `}`.
pub open spec fn spec_parse_members(s: Seq<u8>, i: int, d: nat) -> Option<
    (Seq<(Seq<u8>, JsonVal)>, int),
>
    decreases d,
{
    if d == 0 {
        None
    } else {
        let j = spec_skip_ws(s, i);
        if j < 0 || j >= s.len() || s[j] != 0x22 {
            None
        } else {
            match spec_parse_string_body(s, j + 1) {
                None => None,
                Some((key, j1)) => {
                    let j2 = spec_skip_ws(s, j1);
                    if j2 < 0 || j2 >= s.len() || s[j2] != 0x3a {
                        None
                    } else {
                        match spec_parse_value(s, j2 + 1, (d - 1) as nat) {
                            None => None,
                            Some((v, j3)) => {
                                let j4 = spec_skip_ws(s, j3);
                                if j4 < 0 || j4 >= s.len() {
                                    None
                                } else if s[j4] == 0x7d {
                                    Some((seq![(key, v)], j4 + 1))
                                } else if s[j4] == 0x2c {
                                    match spec_parse_members(s, j4 + 1, (d - 1) as nat) {
                                        None => None,
                                        Some((ms, j5)) => Some((seq![(key, v)] + ms, j5)),
                                    }
                                } else {
                                    None
                                }
                            },
                        }
                    }
                },
            }
        }
    }
}

/// What a whole document parses to: one value, possibly surrounded by
/// whitespace, spanning the entire input.
pub open spec fn spec_parse_doc(s: Seq<u8>) -> Option<JsonVal> {
    match spec_parse_value(s, 0, s.len()) {
        Some((v, j)) => if spec_skip_ws(s, j) == s.len() {
            Some(v)
        } else {
            None
        },
        None => None,
    }
}

/// First value bound to `key` in a member list, if any.
pub open spec fn spec_obj_get(ms: Seq<(Seq<u8>, JsonVal)>, key: Seq<u8>) -> Option<JsonVal>
    decreases ms,
{
    if ms.len() == 0 {
        None
    } else if ms[0].0 == key {
        Some(ms[0].1)
    } else {
        spec_obj_get(ms.drop_first(), key)
    }
}

/// Lower-case hex digit of a nibble, executable.
fn hex_digit(n: u8) -> (r: u8)
    requires
        n < 16,
    ensures
        r == spec_hex_digit(n),
{
    if n < 10 {
        0x30 + n
    } else {
        0x61 + (n - 10)
    }
}

/// Appends the wire form of one raw string byte.
fn write_escaped_byte(b: u8, out: &mut Vec<u8>)
    ensures
        final(out)@ == old(out)@ + spec_escape_byte(b),
{
    if b == 0x22 {
        out.push(0x5c);
        out.push(0x22);
    } else if b == 0x5c {
        out.push(0x5c);
        out.push(0x5c);
    } else if b == 0x0a {
        out.push(0x5c);
        out.push(0x6e);
    } else if b == 0x0d {
        out.push(0x5c);
        out.push(0x72);
    } else if b == 0x09 {
        out.push(0x5c);
        out.push(0x74);
    } else if b < 0x20 {
        out.push(0x5c);
        out.push(0x75);
        out.push(0x30);
        out.push(0x30);
        out.push(hex_digit(b / 16));
        out.push(hex_digit(b % 16));
    } else {
        out.push(b);
    }
    assert(out@ =~= old(out)@ + spec_escape_byte(b));
}

/// Appends the escaped form of `s[i..]`.
fn write_escape(s: &[u8], i: usize, out: &mut Vec<u8>)
    requires
        i <= s.len(),
    ensures
        final(out)@ == old(out)@ + spec_escape(s@.skip(i as int)),
    decreases s.len() - i,
{
    if i < s.len() {
        write_escaped_byte(s[i], out);
        write_escape(s, i + 1, out);
        proof {
            let tail = s@.skip(i as int);
            assert(tail.drop_first() =~= s@.skip(i as int + 1));
            assert(tail[0] == s@[i as int]);
            assert(out@ =~= old(out)@ + spec_escape(tail));
        }
    } else {
        assert(s@.skip(i as int) =~= Seq::<u8>::empty());
    }
}

/// Appends a whole string literal, quotes included.
fn write_string(s: &[u8], out: &mut Vec<u8>)
    ensures
        final(out)@ == old(out)@ + seq![0x22u8] + spec_escape(s@) + seq![0x22u8],
{
    out.push(0x22);
    write_escape(s, 0, out);
    out.push(0x22);
    assert(s@.skip(0) =~= s@);
    assert(out@ =~= old(out)@ + seq![0x22u8] + spec_escape(s@) + seq![0x22u8]);
}

/// Appends the decimal digits of `n`, most significant first.
fn write_digits(n: u64, out: &mut Vec<u8>)
    ensures
        final(out)@ == old(out)@ + spec_digits(n as nat),
    decreases n,
{
    if n < 10 {
        out.push(0x30 + n as u8);
    } else {
        write_digits(n / 10, out);
        out.push(0x30 + (n % 10) as u8);
    }
    assert(out@ =~= old(out)@ + spec_digits(n as nat));
}

/// Appends the wire form of a signed integer.
fn write_int(n: i64, out: &mut Vec<u8>)
    ensures
        final(out)@ == old(out)@ + spec_ser_int(n as int),
{
    if n >= 0 {
        write_digits(n as u64, out);
    } else {
        out.push(0x2d);
        let m: u64 = ((-(n + 1)) as u64) + 1;
        assert(m as nat == (-(n as int)) as nat);
        write_digits(m, out);
        assert(out@ =~= old(out)@ + spec_ser_int(n as int));
    }
}

/// Appends the serialization of a value; [`spec_ser`] of its view says
/// which bytes, exactly.
fn write_value(v: &JsonValue, out: &mut Vec<u8>)
    ensures
        final(out)@ == old(out)@ + spec_ser(v@),
    decreases *v,
{
    match v {
        JsonValue::Null => {
            out.push(0x6e);
            out.push(0x75);
            out.push(0x6c);
            out.push(0x6c);
            assert(out@ =~= old(out)@ + spec_ser(JsonVal::Null));
        },
        JsonValue::Bool(b) => {
            if *b {
                out.push(0x74);
                out.push(0x72);
                out.push(0x75);
                out.push(0x65);
            } else {
                out.push(0x66);
                out.push(0x61);
                out.push(0x6c);
                out.push(0x73);
                out.push(0x65);
            }
            assert(out@ =~= old(out)@ + spec_ser(v@));
        },
        JsonValue::Int(n) => {
            write_int(*n, out);
        },
        JsonValue::Str(s) => {
            write_string(s.as_slice(), out);
            assert(out@ =~= old(out)@ + spec_ser(v@));
        },
        JsonValue::Obj(ms) => {
            out.push(0x7b);
            write_members(ms.as_slice(), out);
            out.push(0x7d);
            assert(out@ =~= old(out)@ + spec_ser(v@));
        },
    }
}

/// Appends the members of an object, comma-separated.
fn write_members(ms: &[(Vec<u8>, JsonValue)], out: &mut Vec<u8>)
    ensures
        final(out)@ == old(out)@ + spec_ser_members(view_members(ms@)),
    decreases ms@,
{
    if ms.len() == 0 {
    } else {
        let k = &ms[0].0;
        let v = &ms[0].1;
        write_string(k.as_slice(), out);
        out.push(0x3a);
        write_value(v, out);
        if ms.len() > 1 {
            out.push(0x2c);
            write_members(&ms[1..ms.len()], out);
            proof {
                assert(ms@.drop_first() =~= ms@.subrange(1, ms@.len() as int));
                let msv = view_members(ms@);
                assert(msv == seq![(k@, v@)] + view_members(ms@.drop_first()));
                lemma_view_members_len(ms@);
                assert(msv[0] == (k@, v@));
                assert(msv.drop_first() =~= view_members(ms@.drop_first()));
                assert(out@ =~= old(out)@ + spec_ser_members(msv));
            }
        } else {
            proof {
                assert(view_members(ms@) == seq![(k@, v@)] + view_members(ms@.drop_first()));
                assert(view_members(ms@).len() == 1);
                assert(out@ =~= old(out)@ + spec_ser_members(view_members(ms@)));
            }
        }
    }
}

/// Serializes a value to its wire bytes.
pub fn write_json(v: &JsonValue) -> (r: Vec<u8>)
    ensures
        r@ == spec_ser(v@),
{
    let mut out: Vec<u8> = Vec::new();
    write_value(v, &mut out);
    out
}

/// Folding digits never shrinks the accumulator.
proof fn lemma_digits_monotone(s: Seq<u8>, i: int, acc: nat)
    ensures
        spec_parse_digits(s, i, acc).0 >= acc,
    decreases s.len() - i,
{
    if 0 <= i < s.len() && is_digit(s[i]) {
        lemma_digits_monotone(s, i + 1, acc * 10 + (s[i] - 0x30) as nat);
    }
}

/// Where a digit run ends does not depend on the accumulator.
proof fn lemma_digits_end(s: Seq<u8>, i: int, a1: nat, a2: nat)
    ensures
        spec_parse_digits(s, i, a1).1 == spec_parse_digits(s, i, a2).1,
    decreases s.len() - i,
{
    if 0 <= i < s.len() && is_digit(s[i]) {
        lemma_digits_end(s, i + 1, a1 * 10 + (s[i] - 0x30) as nat, a2 * 10 + (s[i] - 0x30) as nat);
    }
}

/// A digit run ends between where it starts and the end of input.
proof fn lemma_digits_bounds(s: Seq<u8>, i: int, acc: nat)
    requires
        0 <= i <= s.len(),
    ensures
        i <= spec_parse_digits(s, i, acc).1 <= s.len(),
    decreases s.len() - i,
{
    if i < s.len() && is_digit(s[i]) {
        lemma_digits_bounds(s, i + 1, acc * 10 + (s[i] - 0x30) as nat);
    }
}

/// First position at or after `i` holding no whitespace, executable.
fn skip_ws(s: &[u8], i: usize) -> (j: usize)
    requires
        i <= s.len(),
    ensures
        j as int == spec_skip_ws(s@, i as int),
        i <= j <= s.len(),
    decreases s.len() - i,
{
    if i < s.len() {
        let b = s[i];
        if b == 0x20 || b == 0x09 || b == 0x0a || b == 0x0d {
            return skip_ws(s, i + 1);
        }
    }
    i
}

/// Hex digit value, executable.
fn hex_val(b: u8) -> (r: Option<u8>)
    ensures
        r == spec_hex_val(b),
{
    if 0x30 <= b && b <= 0x39 {
        Some(b - 0x30)
    } else if 0x61 <= b && b <= 0x66 {
        Some(b - 0x61 + 10)
    } else if 0x41 <= b && b <= 0x46 {
        Some(b - 0x41 + 10)
    } else {
        None
    }
}

/// Escape-code lookup, executable.
fn unescape_code(e: u8) -> (r: Option<u8>)
    ensures
        r == spec_unescape_code(e),
{
    if e == 0x22 {
        Some(0x22)
    } else if e == 0x5c {
        Some(0x5c)
    } else if e == 0x2f {
        Some(0x2f)
    } else if e == 0x6e {
        Some(0x0a)
    } else if e == 0x72 {
        Some(0x0d)
    } else if e == 0x74 {
        Some(0x09)
    } else if e == 0x62 {
        Some(0x08)
    } else if e == 0x66 {
        Some(0x0c)
    } else {
        None
    }
}

/// Parses a string body from just past the opening quote, appending the
/// unescaped bytes to `out`.  On failure `out` is meaningless.
fn parse_string_body(s: &[u8], i: usize, out: &mut Vec<u8>) -> (r: Option<usize>)
    requires
        i <= s.len(),
    ensures
        ({
            let sp = spec_parse_string_body(s@, i as int);
            match r {
                Some(j) => sp is Some && sp.unwrap().1 == j as int && i < j <= s.len()
                    && final(out)@ == old(out)@ + sp.unwrap().0,
                None => sp is None,
            }
        }),
    decreases s.len() - i,
{
    if i >= s.len() {
        return None;
    }
    let b = s[i];
    if b == 0x22 {
        assert(final(out)@ =~= old(out)@ + Seq::<u8>::empty());
        Some(i + 1)
    } else if b == 0x5c {
        if i + 1 >= s.len() {
            return None;
        }
        let e = s[i + 1];
        if e == 0x75 {
            if s.len() - i >= 6 {
                let h1 = hex_val(s[i + 4]);
                let h2 = hex_val(s[i + 5]);
                if s[i + 2] == 0x30 && s[i + 3] == 0x30 && h1.is_some() && h2.is_some() {
                    let c = h1.unwrap() * 16 + h2.unwrap();
                    let ghost mid = out@ + seq![c];
                    out.push(c);
                    match parse_string_body(s, i + 6, out) {
                        Some(j) => {
                            proof {
                                let p = spec_parse_string_body(s@, i as int + 6).unwrap();
                                assert(out@ =~= old(out)@ + (seq![c] + p.0));
                            }
                            Some(j)
                        },
                        None => None,
                    }
                } else {
                    None
                }
            } else {
                None
            }
        } else {
            match unescape_code(e) {
                Some(c) => {
                    out.push(c);
                    match parse_string_body(s, i + 2, out) {
                        Some(j) => {
                            proof {
                                let p = spec_parse_string_body(s@, i as int + 2).unwrap();
                                assert(out@ =~= old(out)@ + (seq![c] + p.0));
                            }
                            Some(j)
                        },
                        None => None,
                    }
                },
                None => None,
            }
        }
    } else if b < 0x20 {
        None
    } else {
        out.push(b);
        match parse_string_body(s, i + 1, out) {
            Some(j) => {
                proof {
                    let p = spec_parse_string_body(s@, i as int + 1).unwrap();
                    assert(out@ =~= old(out)@ + (seq![b] + p.0));
                }
                Some(j)
            },
            None => None,
        }
    }
}

/// Saturation mark for the executable digit reader: anything at least
/// this large is already outside what `i64` can hold.
const DIGIT_SAT: u128 = 0x1_0000_0000_0000_0000;

/// Consumes a digit run.  The result value is exact below `DIGIT_SAT`;
/// `DIGIT_SAT` itself reports that the run's value is at least that
/// big.
fn parse_digits(s: &[u8], i: usize, acc: u128) -> (r: (u128, usize))
    requires
        i <= s.len(),
        acc <= DIGIT_SAT,
    ensures
        ({
            let sp = spec_parse_digits(s@, i as int, acc as nat);
            &&& r.1 as int == sp.1
            &&& i <= r.1 <= s.len()
            &&& r.0 <= DIGIT_SAT
            &&& (r.0 < DIGIT_SAT ==> r.0 as nat == sp.0)
            &&& (r.0 == DIGIT_SAT ==> sp.0 >= DIGIT_SAT)
        }),
    decreases s.len() - i,
{
    if i < s.len() {
        let b = s[i];
        if 0x30 <= b && b <= 0x39 {
            let d = (b - 0x30) as u128;
            let new = acc * 10 + d;
            let clamped = if new >= DIGIT_SAT {
                DIGIT_SAT
            } else {
                new
            };
            let r = parse_digits(s, i + 1, clamped);
            proof {
                let truenew = (acc as nat) * 10 + (b - 0x30) as nat;
                if clamped < DIGIT_SAT {
                    assert(clamped as nat == truenew);
                } else {
                    assert(truenew >= DIGIT_SAT);
                    lemma_digits_monotone(s@, i as int + 1, truenew);
                    lemma_digits_end(s@, i as int + 1, truenew, clamped as nat);
                    if r.0 < DIGIT_SAT {
                        lemma_digits_monotone(s@, i as int + 1, clamped as nat);
                    }
                }
            }
            return r;
        }
    }
    (acc, i)
}

/// Parses an integer, executable.
fn parse_int(s: &[u8], i: usize) -> (r: Option<(i64, usize)>)
    requires
        i <= s.len(),
    ensures
        ({
            let sp = spec_parse_int(s@, i as int);
            match r {
                Some((n, j)) => sp == Some((n as int, j as int)) && i < j <= s.len(),
                None => sp is None,
            }
        }),
{
    if i < s.len() && s[i] == 0x2d {
        if i + 1 < s.len() && 0x30 <= s[i + 1] && s[i + 1] <= 0x39 {
            let (m, j) = parse_digits(s, i + 1, 0);
            proof {
                lemma_digits_monotone(s@, i as int + 1, 0);
                lemma_digits_bounds(s@, i as int + 1, 0);
            }
            if m <= 0x8000_0000_0000_0000 {
                let n: i64 = if m == 0x8000_0000_0000_0000 {
                    i64::MIN
                } else {
                    -((m as u64) as i64)
                };
                assert(j > i + 1 || j == i + 1) by {
                    lemma_digits_bounds(s@, i as int + 1, 0);
                }
                Some((n, j))
            } else {
                None
            }
        } else {
            None
        }
    } else if i < s.len() && 0x30 <= s[i] && s[i] <= 0x39 {
        let (m, j) = parse_digits(s, i, 0);
        proof {
            lemma_digits_bounds(s@, i as int + 1, (s@[i as int] - 0x30) as nat);
        }
        if m <= 0x7fff_ffff_ffff_ffff {
            Some((m as i64, j))
        } else {
            None
        }
    } else {
        None
    }
}

/// Appending member lists appends their views.
pub proof fn lemma_view_members_append(a: Seq<(Vec<u8>, JsonValue)>, b: Seq<(Vec<u8>, JsonValue)>)
    ensures
        view_members(a + b) == view_members(a) + view_members(b),
    decreases a,
{
    if a.len() == 0 {
        assert(a + b =~= b);
        assert(view_members(a) =~= Seq::<(Seq<u8>, JsonVal)>::empty());
        assert(view_members(a) + view_members(b) =~= view_members(b));
    } else {
        assert((a + b).drop_first() =~= a.drop_first() + b);
        assert((a + b)[0] == a[0]);
        assert((a + b).len() > 0);
        lemma_view_members_append(a.drop_first(), b);
        assert(view_members(a + b) == seq![(a[0].0@, a[0].1@)] + (view_members(a.drop_first())
            + view_members(b)));
        assert(view_members(a) + view_members(b) =~= seq![(a[0].0@, a[0].1@)] + (view_members(
            a.drop_first(),
        ) + view_members(b)));
    }
}

/// Parses one value, executable.  Mirrors [`spec_parse_value`], fuel and
/// all.
fn parse_value(s: &[u8], i: usize, d: usize) -> (r: Option<(JsonValue, usize)>)
    requires
        i <= s.len(),
    ensures
        ({
            let sp = spec_parse_value(s@, i as int, d as nat);
            match r {
                Some(p) => sp is Some && sp.unwrap().0 == p.0@ && sp.unwrap().1 == p.1 as int
                    && p.1 <= s.len(),
                None => sp is None,
            }
        }),
    decreases d,
{
    if d == 0 {
        return None;
    }
    let j = skip_ws(s, i);
    if j >= s.len() {
        return None;
    }
    let b = s[j];
    if b == 0x7b {
        let j1 = skip_ws(s, j + 1);
        if j1 < s.len() && s[j1] == 0x7d {
            let ms: Vec<(Vec<u8>, JsonValue)> = Vec::new();
            proof {
                assert(view_members(ms@) =~= Seq::<(Seq<u8>, JsonVal)>::empty());
            }
            Some((JsonValue::Obj(ms), j1 + 1))
        } else {
            let mut ms: Vec<(Vec<u8>, JsonValue)> = Vec::new();
            let ghost empty_view = view_members(ms@);
            proof {
                assert(empty_view =~= Seq::<(Seq<u8>, JsonVal)>::empty());
            }
            match parse_members(s, j + 1, d - 1, &mut ms) {
                Some(j2) => {
                    proof {
                        let p = spec_parse_members(s@, j as int + 1, (d - 1) as nat).unwrap();
                        assert(view_members(ms@) =~= p.0);
                    }
                    Some((JsonValue::Obj(ms), j2))
                },
                None => None,
            }
        }
    } else if b == 0x22 {
        let mut cs: Vec<u8> = Vec::new();
        match parse_string_body(s, j + 1, &mut cs) {
            Some(j2) => {
                proof {
                    let p = spec_parse_string_body(s@, j as int + 1).unwrap();
                    assert(cs@ =~= p.0);
                }
                Some((JsonValue::Str(cs), j2))
            },
            None => None,
        }
    } else if b == 0x6e {
        if s.len() - j >= 4 && s[j + 1] == 0x75 && s[j + 2] == 0x6c && s[j + 3] == 0x6c {
            Some((JsonValue::Null, j + 4))
        } else {
            None
        }
    } else if b == 0x74 {
        if s.len() - j >= 4 && s[j + 1] == 0x72 && s[j + 2] == 0x75 && s[j + 3] == 0x65 {
            Some((JsonValue::Bool(true), j + 4))
        } else {
            None
        }
    } else if b == 0x66 {
        if s.len() - j >= 5 && s[j + 1] == 0x61 && s[j + 2] == 0x6c && s[j + 3] == 0x73 && s[j + 4]
            == 0x65 {
            Some((JsonValue::Bool(false), j + 5))
        } else {
            None
        }
    } else if b == 0x2d || (0x30 <= b && b <= 0x39) {
        match parse_int(s, j) {
            Some((n, j2)) => Some((JsonValue::Int(n), j2)),
            None => None,
        }
    } else {
        None
    }
}

/// Parses object members from just past a `{` or `,`, pushing each onto
/// `ms`, through the closing `}`.  On failure `ms` is meaningless.
fn parse_members(s: &[u8], i: usize, d: usize, ms: &mut Vec<(Vec<u8>, JsonValue)>) -> (r: Option<
    usize,
>)
    requires
        i <= s.len(),
    ensures
        ({
            let sp = spec_parse_members(s@, i as int, d as nat);
            match r {
                Some(j) => sp is Some && sp.unwrap().1 == j as int && j <= s.len() && view_members(
                    final(ms)@,
                ) == view_members(old(ms)@) + sp.unwrap().0,
                None => sp is None,
            }
        }),
    decreases d,
{
    if d == 0 {
        return None;
    }
    let j = skip_ws(s, i);
    if j >= s.len() {
        return None;
    }
    if s[j] != 0x22 {
        return None;
    }
    let mut key: Vec<u8> = Vec::new();
    match parse_string_body(s, j + 1, &mut key) {
        None => None,
        Some(j1) => {
            let j2 = skip_ws(s, j1);
            if j2 >= s.len() {
                return None;
            }
            if s[j2] != 0x3a {
                return None;
            }
            match parse_value(s, j2 + 1, d - 1) {
                None => None,
                Some((v, j3)) => {
                    let ghost gkey = key@;
                    let ghost gv = v@;
                    ms.push((key, v));
                    proof {
                        let pushed = seq![(ms@[ms@.len() - 1].0, ms@[ms@.len() - 1].1)];
                        assert(ms@ =~= old(ms)@ + pushed);
                        lemma_view_members_append(old(ms)@, pushed);
                        assert(pushed.drop_first() =~= Seq::<(Vec<u8>, JsonValue)>::empty());
                        assert(view_members(pushed.drop_first())
                            == Seq::<(Seq<u8>, JsonVal)>::empty());
                        assert(view_members(pushed) =~= seq![(gkey, gv)]);
                    }
                    let j4 = skip_ws(s, j3);
                    if j4 >= s.len() {
                        None
                    } else {
                        let b4 = s[j4];
                        if b4 == 0x7d {
                            proof {
                                assert(view_members(ms@) =~= view_members(old(ms)@) + seq![
                                    (gkey, gv),
                                ]);
                            }
                            Some(j4 + 1)
                        } else if b4 == 0x2c {
                            let ghost before = ms@;
                            match parse_members(s, j4 + 1, d - 1, ms) {
                                None => None,
                                Some(j5) => {
                                    proof {
                                        let p = spec_parse_members(
                                            s@,
                                            j4 as int + 1,
                                            (d - 1) as nat,
                                        ).unwrap();
                                        assert(view_members(ms@) == view_members(before) + p.0);
                                        assert(view_members(ms@) =~= view_members(old(ms)@) + (seq![
                                            (gkey, gv),
                                        ] + p.0));
                                    }
                                    Some(j5)
                                },
                            }
                        } else {
                            None
                        }
                    }
                },
            }
        },
    }
}

/// Parses a whole document: one value spanning the entire input.
pub fn parse_json(s: &[u8]) -> (r: Option<JsonValue>)
    ensures
        match r {
            Some(v) => spec_parse_doc(s@) == Some(v@),
            None => spec_parse_doc(s@) is None,
        },
{
    match parse_value(s, 0, s.len()) {
        Some((v, j)) => {
            let j2 = skip_ws(s, j);
            if j2 == s.len() {
                Some(v)
            } else {
                None
            }
        },
        None => None,
    }
}

/// Relies on `String::from_utf8`: it succeeds exactly on valid UTF-8,
/// and returns the string those bytes encode.
#[verifier::external_body]
pub(crate) fn string_from_utf8(v: Vec<u8>) -> (r: Option<String>)
    ensures
        r is Some <==> vstd::utf8::valid_utf8(v@),
        r matches Some(t) ==> t@ == vstd::utf8::decode_utf8(v@),
{
    String::from_utf8(v).ok()
}

/// Byte-slice equality, executable.
pub fn bytes_eq(a: &[u8], b: &[u8]) -> (r: bool)
    ensures
        r == (a@ == b@),
{
    if a.len() != b.len() {
        proof {
            if a@ == b@ {
                assert(a@.len() == b@.len());
            }
        }
        return false;
    }
    let mut i: usize = 0;
    while i < a.len()
        invariant
            i <= a.len(),
            a.len() == b.len(),
            forall|k: int| 0 <= k < i ==> a@[k] == b@[k],
        decreases a.len() - i,
    {
        if a[i] != b[i] {
            proof {
                if a@ == b@ {
                    assert(a@[i as int] == b@[i as int]);
                }
            }
            return false;
        }
        i += 1;
    }
    proof {
        assert(a@ =~= b@);
    }
    true
}

/// First value bound to `key` in an object's member list, executable.
pub fn obj_get<'a>(ms: &'a Vec<(Vec<u8>, JsonValue)>, key: &[u8]) -> (r: Option<&'a JsonValue>)
    ensures
        ({
            let sp = spec_obj_get(view_members(ms@), key@);
            match r {
                Some(v) => sp == Some(v@),
                None => sp is None,
            }
        }),
{
    let ghost msv = view_members(ms@);
    proof {
        lemma_view_members_len(ms@);
    }
    let mut i: usize = 0;
    proof {
        assert(msv.skip(0) =~= msv);
    }
    while i < ms.len()
        invariant
            i <= ms.len(),
            msv == view_members(ms@),
            msv.len() == ms.len(),
            spec_obj_get(msv, key@) == spec_obj_get(msv.skip(i as int), key@),
        decreases ms.len() - i,
    {
        proof {
            lemma_view_members_index(ms@, i as int);
            assert(msv.skip(i as int)[0] == msv[i as int]);
        }
        if bytes_eq(ms[i].0.as_slice(), key) {
            return Some(&ms[i].1);
        }
        proof {
            assert(msv.skip(i as int).drop_first() =~= msv.skip(i as int + 1));
        }
        i += 1;
    }
    proof {
        assert(msv.skip(i as int) =~= Seq::<(Seq<u8>, JsonVal)>::empty());
    }
    None
}

/// Left fold of a standalone digit sequence, for relating the digit
/// writer and the digit reader.
pub open spec fn digits_value(ds: Seq<u8>, acc: nat) -> nat
    decreases ds.len(),
{
    if ds.len() == 0 {
        acc
    } else {
        digits_value(ds.drop_first(), acc * 10 + (ds[0] - 0x30) as nat)
    }
}

/// All bytes of a written number are digits, and there is at least one.
proof fn lemma_spec_digits_are_digits(n: nat)
    ensures
        spec_digits(n).len() >= 1,
        forall|k: int| 0 <= k < spec_digits(n).len() ==> is_digit(#[trigger] spec_digits(n)[k]),
    decreases n,
{
    if n >= 10 {
        lemma_spec_digits_are_digits(n / 10);
        assert forall|k: int| 0 <= k < spec_digits(n).len() implies is_digit(
            #[trigger] spec_digits(n)[k],
        ) by {
            if k < spec_digits(n / 10).len() {
                assert(spec_digits(n)[k] == spec_digits(n / 10)[k]);
            } else {
                assert(spec_digits(n)[k] == (0x30 + n % 10) as u8);
            }
        }
    }
}

/// Folding one more digit onto the right.
proof fn lemma_digits_value_snoc(ds: Seq<u8>, b: u8, acc: nat)
    ensures
        digits_value(ds + seq![b], acc) == digits_value(ds, acc) * 10 + (b - 0x30) as nat,
    decreases ds.len(),
{
    if ds.len() == 0 {
        assert((ds + seq![b]).drop_first() =~= Seq::<u8>::empty());
        assert((ds + seq![b])[0] == b);
        assert(digits_value((ds + seq![b]).drop_first(), acc * 10 + (b - 0x30) as nat) == acc * 10
            + (b - 0x30) as nat);
        assert(digits_value(ds, acc) == acc);
    } else {
        assert((ds + seq![b]).drop_first() =~= ds.drop_first() + seq![b]);
        assert((ds + seq![b])[0] == ds[0]);
        lemma_digits_value_snoc(ds.drop_first(), b, acc * 10 + (ds[0] - 0x30) as nat);
        assert(digits_value(ds + seq![b], acc) == digits_value(ds.drop_first() + seq![b], acc * 10
            + (ds[0] - 0x30) as nat));
        assert(digits_value(ds, acc) == digits_value(ds.drop_first(), acc * 10 + (ds[0]
            - 0x30) as nat));
    }
}

/// Folding the digits of `n` yields `n` back.
proof fn lemma_digits_value_of_spec_digits(n: nat)
    ensures
        digits_value(spec_digits(n), 0) == n,
    decreases n,
{
    if n < 10 {
        assert(spec_digits(n) == seq![(0x30 + n) as u8]);
        assert(spec_digits(n).drop_first() =~= Seq::<u8>::empty());
        assert(digits_value(spec_digits(n), 0) == digits_value(
            spec_digits(n).drop_first(),
            (spec_digits(n)[0] - 0x30) as nat,
        ));
        assert(digits_value(spec_digits(n).drop_first(), (spec_digits(n)[0] - 0x30) as nat) == (
        spec_digits(n)[0] - 0x30) as nat);
    } else {
        lemma_digits_value_of_spec_digits(n / 10);
        lemma_digits_value_snoc(spec_digits(n / 10), (0x30 + n % 10) as u8, 0);
    }
}

/// Reading a digit run that sits at `i` folds exactly those digits.
proof fn lemma_parse_digits_of_run(s: Seq<u8>, i: int, ds: Seq<u8>, acc: nat)
    requires
        0 <= i,
        i + ds.len() <= s.len(),
        s.subrange(i, i + ds.len()) == ds,
        forall|k: int| 0 <= k < ds.len() ==> is_digit(#[trigger] ds[k]),
        i + ds.len() == s.len() || !is_digit(s[i + ds.len()]),
    ensures
        spec_parse_digits(s, i, acc) == (digits_value(ds, acc), i + ds.len()),
    decreases ds.len(),
{
    if ds.len() == 0 {
        if i < s.len() {
            assert(!is_digit(s[i]));
        }
    } else {
        assert(s[i] == s.subrange(i, i + ds.len())[0]);
        assert(is_digit(ds[0]));
        assert(s.subrange(i + 1, i + ds.len()) =~= ds.drop_first());
        lemma_parse_digits_of_run(s, i + 1, ds.drop_first(), acc * 10 + (s[i] - 0x30) as nat);
    }
}

/// Reading back a written integer.
proof fn lemma_parse_int_of_ser(n: int, s: Seq<u8>, i: int)
    requires
        i64::MIN <= n <= i64::MAX,
        0 <= i,
        i + spec_ser_int(n).len() <= s.len(),
        s.subrange(i, i + spec_ser_int(n).len()) == spec_ser_int(n),
        i + spec_ser_int(n).len() == s.len() || !is_digit(s[i + spec_ser_int(n).len()]),
    ensures
        spec_parse_int(s, i) == Some((n, i + spec_ser_int(n).len())),
{
    if n < 0 {
        let m = (-n) as nat;
        lemma_spec_digits_are_digits(m);
        let ds = spec_digits(m);
        assert(spec_ser_int(n) == seq![0x2du8] + ds);
        assert(s[i] == spec_ser_int(n)[0]);
        assert(spec_ser_int(n)[0] == 0x2d);
        assert forall|k: int| 0 <= k < ds.len() implies s[i + 1 + k] == ds[k] by {
            assert(spec_ser_int(n)[1 + k] == s.subrange(i, i + spec_ser_int(n).len())[1 + k]);
        }
        assert(s.subrange(i + 1, i + 1 + ds.len()) =~= ds);
        assert(s[i + 1] == ds[0]);
        lemma_parse_digits_of_run(s, i + 1, ds, 0);
        lemma_digits_value_of_spec_digits(m);
        assert(m <= 0x8000_0000_0000_0000);
    } else {
        let m = n as nat;
        lemma_spec_digits_are_digits(m);
        let ds = spec_digits(m);
        assert(s.subrange(i, i + ds.len()) =~= ds);
        assert(s[i] == ds[0]);
        assert(s[i] != 0x2d);
        lemma_parse_digits_of_run(s, i, ds, 0);
        lemma_digits_value_of_spec_digits(m);
        assert(m <= 0x7fff_ffff_ffff_ffff);
    }
}

/// Reading a hex digit back gives the nibble.
proof fn lemma_hex_val_of_hex_digit(x: u8)
    requires
        x < 16,
    ensures
        spec_hex_val(spec_hex_digit(x)) == Some(x),
{
}

/// Reading back a written string body: the escaped bytes followed by the
/// closing quote parse to the raw bytes.
proof fn lemma_parse_string_of_ser(cs: Seq<u8>, s: Seq<u8>, i: int)
    requires
        0 <= i,
        i + spec_escape(cs).len() + 1 <= s.len(),
        s.subrange(i, i + spec_escape(cs).len()) == spec_escape(cs),
        s[i + spec_escape(cs).len()] == 0x22,
    ensures
        spec_parse_string_body(s, i) == Some((cs, i + spec_escape(cs).len() + 1)),
    decreases cs.len(),
{
    let esc = spec_escape(cs);
    if cs.len() == 0 {
        assert(esc.len() == 0);
    } else {
        let c0 = cs[0];
        let e0 = spec_escape_byte(c0);
        let rest = spec_escape(cs.drop_first());
        assert(esc == e0 + rest);
        assert(e0.len() >= 1);
        assert forall|k: int| 0 <= k < e0.len() implies s[i + k] == e0[k] by {
            assert(esc[k] == s.subrange(i, i + esc.len())[k]);
        }
        assert forall|k: int| 0 <= k < rest.len() implies s.subrange(
            i + e0.len(),
            i + e0.len() + rest.len(),
        )[k] == rest[k] by {
            assert(esc[e0.len() + k] == s.subrange(i, i + esc.len())[e0.len() + k]);
            assert(esc[e0.len() + k] == rest[k]);
        }
        assert(s.subrange(i + e0.len(), i + e0.len() + rest.len()) =~= rest);
        lemma_parse_string_of_ser(cs.drop_first(), s, i + e0.len());
        let tail = spec_parse_string_body(s, i + e0.len());
        assert(tail == Some((cs.drop_first(), i + esc.len() + 1)));
        if c0 == 0x22 {
            assert(s[i] == 0x5c && s[i + 1] == 0x22);
            assert(seq![c0] + cs.drop_first() =~= cs);
        } else if c0 == 0x5c {
            assert(s[i] == 0x5c && s[i + 1] == 0x5c);
            assert(seq![c0] + cs.drop_first() =~= cs);
        } else if c0 == 0x0a {
            assert(s[i] == 0x5c && s[i + 1] == 0x6e);
            assert(seq![c0] + cs.drop_first() =~= cs);
        } else if c0 == 0x0d {
            assert(s[i] == 0x5c && s[i + 1] == 0x72);
            assert(seq![c0] + cs.drop_first() =~= cs);
        } else if c0 == 0x09 {
            assert(s[i] == 0x5c && s[i + 1] == 0x74);
            assert(seq![c0] + cs.drop_first() =~= cs);
        } else if c0 < 0x20 {
            assert(s[i] == 0x5c && s[i + 1] == 0x75 && s[i + 2] == 0x30 && s[i + 3] == 0x30);
            assert(s[i + 4] == spec_hex_digit(c0 / 16));
            assert(s[i + 5] == spec_hex_digit(c0 % 16));
            lemma_hex_val_of_hex_digit(c0 / 16);
            lemma_hex_val_of_hex_digit(c0 % 16);
            assert((spec_hex_val(s[i + 4]).unwrap() * 16 + spec_hex_val(s[i + 5]).unwrap()) as u8
                == c0);
            assert(seq![c0] + cs.drop_first() =~= cs);
        } else {
            assert(s[i + 0] == e0[0]);
            assert(e0[0] == c0);
            assert(s[i] == c0);
            assert(s[i] != 0x22 && s[i] != 0x5c && !(s[i] < 0x20));
            assert(seq![c0] + cs.drop_first() =~= cs);
        }
    }
}

/// Parser fuel that certainly suffices for a value of this shape.
pub open spec fn spec_fuel(v: JsonVal) -> nat
    decreases v,
{
    match v {
        JsonVal::Obj(ms) => 1 + spec_fuel_members(ms),
        _ => 1,
    }
}

/// Parser fuel that certainly suffices for a member list of this shape.
pub open spec fn spec_fuel_members(ms: Seq<(Seq<u8>, JsonVal)>) -> nat
    decreases ms,
{
    if ms.len() == 0 {
        1
    } else {
        1 + spec_fuel(ms[0].1) + spec_fuel_members(ms.drop_first())
    }
}

/// A serialized value carries at least as many bytes as the fuel its
/// parse needs, so one fuel unit per input byte always suffices.
proof fn lemma_fuel_le_ser(v: JsonVal)
    ensures
        spec_fuel(v) <= spec_ser(v).len(),
    decreases v,
{
    match v {
        JsonVal::Int(n) => {
            if n < 0 {
                assert(spec_digits((-n) as nat).len() >= 1);
            } else {
                assert(spec_digits(n as nat).len() >= 1);
            }
        },
        JsonVal::Obj(ms) => {
            lemma_fuel_le_ser_members(ms);
        },
        _ => {},
    }
}

/// Member-list side of [`lemma_fuel_le_ser`].
proof fn lemma_fuel_le_ser_members(ms: Seq<(Seq<u8>, JsonVal)>)
    ensures
        spec_fuel_members(ms) <= spec_ser_members(ms).len() + 1,
    decreases ms,
{
    if ms.len() > 0 {
        lemma_fuel_le_ser(ms[0].1);
        lemma_fuel_le_ser_members(ms.drop_first());
    }
}

/// Reading back a written value.  The byte after the value, if any, must
/// not be a digit, so that an integer is not silently extended.
pub proof fn lemma_parse_ser_value(v: JsonVal, s: Seq<u8>, i: int, d: nat)
    requires
        bounded(v),
        0 <= i,
        i + spec_ser(v).len() <= s.len(),
        s.subrange(i, i + spec_ser(v).len()) == spec_ser(v),
        d >= spec_fuel(v),
        i + spec_ser(v).len() == s.len() || !is_digit(s[i + spec_ser(v).len()]),
    ensures
        spec_parse_value(s, i, d) == Some((v, i + spec_ser(v).len())),
    decreases v,
{
    let ser = spec_ser(v);
    assert(s[i] == ser[0]) by {
        assert(ser[0] == s.subrange(i, i + ser.len())[0]);
    }
    match v {
        JsonVal::Null => {
            assert(s[i + 1] == ser[1] && s[i + 2] == ser[2] && s[i + 3] == ser[3]) by {
                assert(ser[1] == s.subrange(i, i + ser.len())[1]);
                assert(ser[2] == s.subrange(i, i + ser.len())[2]);
                assert(ser[3] == s.subrange(i, i + ser.len())[3]);
            }
            assert(spec_skip_ws(s, i) == i);
        },
        JsonVal::Bool(b) => {
            assert(s[i + 1] == ser[1] && s[i + 2] == ser[2] && s[i + 3] == ser[3]) by {
                assert(ser[1] == s.subrange(i, i + ser.len())[1]);
                assert(ser[2] == s.subrange(i, i + ser.len())[2]);
                assert(ser[3] == s.subrange(i, i + ser.len())[3]);
            }
            if !b {
                assert(s[i + 4] == ser[4]) by {
                    assert(ser[4] == s.subrange(i, i + ser.len())[4]);
                }
            }
            assert(spec_skip_ws(s, i) == i);
        },
        JsonVal::Int(n) => {
            if n < 0 {
                assert(ser[0] == 0x2d);
            } else {
                lemma_spec_digits_are_digits(n as nat);
                assert(is_digit(ser[0]));
            }
            assert(!is_ws(s[i]));
            assert(spec_skip_ws(s, i) == i);
            lemma_parse_int_of_ser(n, s, i);
        },
        JsonVal::Str(cs) => {
            let esc = spec_escape(cs);
            assert(ser == seq![0x22u8] + esc + seq![0x22u8]);
            assert(ser[0] == 0x22);
            assert(spec_skip_ws(s, i) == i);
            assert forall|k: int| 0 <= k < esc.len() implies s.subrange(
                i + 1,
                i + 1 + esc.len(),
            )[k] == esc[k] by {
                assert(ser[1 + k] == s.subrange(i, i + ser.len())[1 + k]);
                assert(ser[1 + k] == esc[k]);
            }
            assert(s.subrange(i + 1, i + 1 + esc.len()) =~= esc);
            assert(s[i + 1 + esc.len()] == 0x22) by {
                assert(ser[1 + esc.len() as int] == s.subrange(i, i + ser.len())[1 + esc.len() as int]);
                assert(ser[1 + esc.len() as int] == 0x22);
            }
            lemma_parse_string_of_ser(cs, s, i + 1);
        },
        JsonVal::Obj(ms) => {
            let sm = spec_ser_members(ms);
            assert(ser == seq![0x7bu8] + sm + seq![0x7du8]);
            assert(ser[0] == 0x7b);
            assert(spec_skip_ws(s, i) == i);
            assert(s[i + 1 + sm.len()] == 0x7d) by {
                assert(ser[1 + sm.len() as int] == s.subrange(i, i + ser.len())[1 + sm.len() as int]);
                assert(ser[1 + sm.len() as int] == 0x7d);
            }
            if ms.len() == 0 {
                assert(sm.len() == 0);
                assert(s[i + 1] == 0x7d);
                assert(spec_skip_ws(s, i + 1) == i + 1);
                assert(ms =~= Seq::<(Seq<u8>, JsonVal)>::empty());
            } else {
                assert forall|k: int| 0 <= k < sm.len() implies s.subrange(
                    i + 1,
                    i + 1 + sm.len(),
                )[k] == sm[k] by {
                    assert(ser[1 + k] == s.subrange(i, i + ser.len())[1 + k]);
                    assert(ser[1 + k] == sm[k]);
                }
                assert(s.subrange(i + 1, i + 1 + sm.len()) =~= sm);
                let head = seq![0x22u8] + spec_escape(ms[0].0) + seq![0x22u8, 0x3a] + spec_ser(
                    ms[0].1,
                );
                assert(sm[0] == 0x22) by {
                    if ms.len() == 1 {
                        assert(sm == head);
                    } else {
                        assert(sm == head + seq![0x2cu8] + spec_ser_members(ms.drop_first()));
                        assert(sm[0] == head[0]);
                    }
                    assert(head[0] == 0x22);
                }
                assert(s[i + 1] == sm[0]) by {
                    assert(ser[1] == s.subrange(i, i + ser.len())[1]);
                    assert(ser[1] == sm[0]);
                }
                assert(spec_skip_ws(s, i + 1) == i + 1);
                assert(s[i + 1] != 0x7d);
                lemma_parse_ser_members(ms, s, i + 1, (d - 1) as nat);
            }
        },
    }
}

/// Reading back a written member list, through the closing brace.
pub proof fn lemma_parse_ser_members(ms: Seq<(Seq<u8>, JsonVal)>, s: Seq<u8>, i: int, d: nat)
    requires
        ms.len() >= 1,
        bounded_members(ms),
        0 <= i,
        i + spec_ser_members(ms).len() + 1 <= s.len(),
        s.subrange(i, i + spec_ser_members(ms).len()) == spec_ser_members(ms),
        s[i + spec_ser_members(ms).len()] == 0x7d,
        d >= spec_fuel_members(ms),
    ensures
        spec_parse_members(s, i, d) == Some((ms, i + spec_ser_members(ms).len() + 1)),
    decreases ms,
{
    let sm = spec_ser_members(ms);
    let key = ms[0].0;
    let v0 = ms[0].1;
    let esc = spec_escape(key);
    let ek = esc.len();
    let sv = spec_ser(v0).len();
    let head = seq![0x22u8] + esc + seq![0x22u8, 0x3a] + spec_ser(v0);
    let hl = head.len();
    assert(hl == ek + 3 + sv);
    if ms.len() == 1 {
        assert(sm == head);
    } else {
        assert(sm == head + seq![0x2cu8] + spec_ser_members(ms.drop_first()));
    }
    assert forall|k: int| 0 <= k < sm.len() implies s[i + k] == sm[k] by {
        assert(sm[k] == s.subrange(i, i + sm.len())[k]);
    }
    assert forall|k: int| 0 <= k < hl implies sm[k] == head[k] by {}
    assert(head[0] == 0x22);
    assert(s[i] == sm[0]);
    assert(spec_skip_ws(s, i) == i);
    // The key string.
    assert forall|k: int| 0 <= k < ek implies s.subrange(i + 1, i + 1 + ek)[k] == esc[k] by {
        assert(s.subrange(i + 1, i + 1 + ek)[k] == s[i + 1 + k]);
        assert(head[1 + k] == esc[k]);
    }
    assert(s.subrange(i + 1, i + 1 + ek) =~= esc);
    assert(head[1 + ek as int] == 0x22);
    assert(s[i + 1 + ek] == 0x22);
    lemma_parse_string_of_ser(key, s, i + 1);
    let p1 = i + ek + 2;
    assert(spec_parse_string_body(s, i + 1) == Some((key, p1)));
    // The colon.
    assert(head[ek as int + 2] == 0x3a);
    assert(s[p1] == 0x3a);
    assert(spec_skip_ws(s, p1) == p1);
    // The value.
    let i0 = p1 + 1;
    assert forall|k: int| 0 <= k < sv implies s.subrange(i0, i0 + sv)[k] == spec_ser(v0)[k] by {
        assert(s.subrange(i0, i0 + sv)[k] == s[i0 + k]);
        assert(head[ek + 3 + k] == spec_ser(v0)[k]);
    }
    assert(s.subrange(i0, i0 + sv) =~= spec_ser(v0));
    let p2 = i0 + sv;
    assert(p2 == i + hl);
    if ms.len() == 1 {
        assert(s[p2] == 0x7d);
    } else {
        assert(sm[hl as int] == 0x2c);
        assert(s[p2] == 0x2c);
    }
    assert(!is_digit(s[p2]));
    lemma_parse_ser_value(v0, s, i0, (d - 1) as nat);
    assert(spec_parse_value(s, i0, (d - 1) as nat) == Some((v0, p2)));
    assert(spec_skip_ws(s, p2) == p2);
    if ms.len() == 1 {
        assert(seq![(key, v0)] =~= ms);
        assert(spec_parse_members(s, i, d) == Some((ms, i + sm.len() + 1)));
    } else {
        let rest = ms.drop_first();
        let smr = spec_ser_members(rest);
        assert forall|k: int| 0 <= k < smr.len() implies s.subrange(
            p2 + 1,
            p2 + 1 + smr.len(),
        )[k] == smr[k] by {
            assert(s.subrange(p2 + 1, p2 + 1 + smr.len())[k] == s[p2 + 1 + k]);
            assert(sm[hl as int + 1 + k] == smr[k]);
        }
        assert(s.subrange(p2 + 1, p2 + 1 + smr.len()) =~= smr);
        assert(p2 + 1 + smr.len() == i + sm.len());
        assert(s[p2 + 1 + smr.len()] == 0x7d);
        lemma_parse_ser_members(rest, s, p2 + 1, (d - 1) as nat);
        assert(spec_parse_members(s, p2 + 1, (d - 1) as nat) == Some((rest, i + sm.len() + 1)));
        assert(seq![(key, v0)] + rest =~= ms);
        assert(spec_parse_members(s, i, d) == Some((ms, i + sm.len() + 1)));
    }
}

/// Round trip: any value the executable type can hold parses back from
/// its own serialization.
pub proof fn lemma_parse_ser_doc(v: JsonVal)
    requires
        bounded(v),
    ensures
        spec_parse_doc(spec_ser(v)) == Some(v),
{
    let s = spec_ser(v);
    lemma_fuel_le_ser(v);
    assert(s.subrange(0, s.len() as int) =~= s);
    lemma_parse_ser_value(v, s, 0, s.len());
    assert(spec_skip_ws(s, s.len() as int) == s.len());
}

} // verus!
