//! Parsing of the events endpoint's response: a JSON array of event
//! objects, each carrying an `id` number, a `type` tag and a `name` string.
//!
//! The grammar is specified here over raw bytes. Every event object must
//! hold the three expected members exactly once, in any order; members with
//! other keys are skipped, whatever JSON value they hold. String values are
//! decoded: backslash escapes, `\uXXXX` for code points in the Basic
//! Multilingual Plane, and UTF-16 surrogate pairs of two such escapes for
//! code points beyond it; a lone or reversed surrogate escape is refused,
//! and the decoded bytes must form valid UTF-8.

use vstd::prelude::*;
use vstd::utf8::decode_utf8;
use vstd::utf8::encode_scalar;
use vstd::utf8::valid_utf8;
use crate::events::Workout;
use crate::events::is_cycling;

verus! {

/// One parsed event record: the id and the raw decoded bytes of the two
/// string members.
pub ghost struct EvRec {
    pub id: int,
    pub etype: Seq<u8>,
    pub name: Seq<u8>,
}

/// JSON insignificant whitespace.
pub open spec fn ws_byte(b: u8) -> bool {
    b == 32 || b == 9 || b == 10 || b == 13
}

/// An ASCII decimal digit.
pub open spec fn digit_byte(b: u8) -> bool {
    48 <= b <= 57
}

/// An ASCII hexadecimal digit.
pub open spec fn hex_byte(b: u8) -> bool {
    digit_byte(b) || (65 <= b <= 70) || (97 <= b <= 102)
}

/// The value of one hexadecimal digit.
pub open spec fn hex_val(b: u8) -> int {
    if digit_byte(b) {
        b - 48
    } else if 65 <= b <= 70 {
        b - 55
    } else {
        b - 87
    }
}

/// The value of the four hexadecimal digits at `i`.
pub open spec fn hex4(s: Seq<u8>, i: int) -> int {
    hex_val(s[i]) * 4096 + hex_val(s[i + 1]) * 256 + hex_val(s[i + 2]) * 16 + hex_val(s[i + 3])
}

/// The byte that a single-character escape stands for, or `None` when the
/// character may not follow a backslash.
pub open spec fn esc_byte(e: u8) -> Option<u8> {
    if e == 34 {
        Some(34u8)
    } else if e == 92 {
        Some(92u8)
    } else if e == 47 {
        Some(47u8)
    } else if e == 98 {
        Some(8u8)
    } else if e == 102 {
        Some(12u8)
    } else if e == 110 {
        Some(10u8)
    } else if e == 114 {
        Some(13u8)
    } else if e == 116 {
        Some(9u8)
    } else {
        None
    }
}

/// The first position at or after `i` that does not hold whitespace.
pub open spec fn skip_ws(s: Seq<u8>, i: int) -> int
    decreases s.len() - i,
{
    if 0 <= i < s.len() && ws_byte(s[i]) {
        skip_ws(s, i + 1)
    } else {
        i
    }
}

/// The first position at or after `i` that does not hold a digit.
pub open spec fn skip_digits(s: Seq<u8>, i: int) -> int
    decreases s.len() - i,
{
    if 0 <= i < s.len() && digit_byte(s[i]) {
        skip_digits(s, i + 1)
    } else {
        i
    }
}

/// The larger of two positions; the grammar functions use it to keep every
/// recursive call moving forward.
pub open spec fn amax(a: int, b: int) -> int {
    if a >= b {
        a
    } else {
        b
    }
}

/// The position for the next step of the grammar: at least `lo`, at most
/// `n`. Every position an inner parse yields in fact lies in that range
/// already, so this changes nothing on real runs; it keeps the recursion
/// visibly bounded.
pub open spec fn astep(k: int, lo: int, n: int) -> int {
    if amax(k, lo) <= n {
        amax(k, lo)
    } else {
        n
    }
}

/// The rest of a JSON string starting just after the opening quote: the
/// decoded bytes and the position after the closing quote.
pub open spec fn str_rest(s: Seq<u8>, i: int) -> Option<(Seq<u8>, int)>
    decreases s.len() - i,
{
    if i < 0 || i >= s.len() {
        None
    } else if s[i] == 34 {
        Some((Seq::empty(), i + 1))
    } else if s[i] == 92 {
        if i + 2 > s.len() {
            None
        } else if s[i + 1] == 117 {
            if i + 6 <= s.len() && hex_byte(s[i + 2]) && hex_byte(s[i + 3]) && hex_byte(s[i + 4])
                && hex_byte(s[i + 5]) {
                let cp = hex4(s, i + 2);
                if 0xDC00 <= cp <= 0xDFFF {
                    None
                } else if 0xD800 <= cp <= 0xDBFF {
                    if i + 12 <= s.len() && s[i + 6] == 92 && s[i + 7] == 117 && hex_byte(
                        s[i + 8],
                    ) && hex_byte(s[i + 9]) && hex_byte(s[i + 10]) && hex_byte(s[i + 11]) {
                        let lo = hex4(s, i + 8);
                        if 0xDC00 <= lo <= 0xDFFF {
                            let scalar = 0x10000 + (cp - 0xD800) * 0x400 + (lo - 0xDC00);
                            match str_rest(s, i + 12) {
                                Some((d, j)) => Some((encode_scalar(scalar as u32) + d, j)),
                                None => None,
                            }
                        } else {
                            None
                        }
                    } else {
                        None
                    }
                } else {
                    match str_rest(s, i + 6) {
                        Some((d, j)) => Some((encode_scalar(cp as u32) + d, j)),
                        None => None,
                    }
                }
            } else {
                None
            }
        } else {
            match esc_byte(s[i + 1]) {
                Some(b) => match str_rest(s, i + 2) {
                    Some((d, j)) => Some((seq![b] + d, j)),
                    None => None,
                },
                None => None,
            }
        }
    } else if s[i] < 32 {
        None
    } else {
        match str_rest(s, i + 1) {
            Some((d, j)) => Some((seq![s[i]] + d, j)),
            None => None,
        }
    }
}

/// The end of the integer part of a JSON number at `i`: an optional minus
/// sign, then either a single zero or a nonzero digit followed by digits.
pub open spec fn int_end(s: Seq<u8>, i: int) -> Option<int> {
    let p = if 0 <= i < s.len() && s[i] == 45 {
        i + 1
    } else {
        i
    };
    if 0 <= p < s.len() && digit_byte(s[p]) {
        Some(
            if s[p] == 48 {
                p + 1
            } else {
                skip_digits(s, p)
            },
        )
    } else {
        None
    }
}

/// The end of the optional fraction part starting at `q`.
pub open spec fn frac_end(s: Seq<u8>, q: int) -> Option<int> {
    if 0 <= q < s.len() && s[q] == 46 {
        if q + 1 < s.len() && digit_byte(s[q + 1]) {
            Some(skip_digits(s, q + 1))
        } else {
            None
        }
    } else {
        Some(q)
    }
}

/// The end of the optional exponent part starting at `q`.
pub open spec fn exp_end(s: Seq<u8>, q: int) -> Option<int> {
    if 0 <= q < s.len() && (s[q] == 101 || s[q] == 69) {
        let p = if q + 1 < s.len() && (s[q + 1] == 43 || s[q + 1] == 45) {
            q + 2
        } else {
            q + 1
        };
        if 0 <= p < s.len() && digit_byte(s[p]) {
            Some(skip_digits(s, p))
        } else {
            None
        }
    } else {
        Some(q)
    }
}

/// The end of a full JSON number at `i`.
pub open spec fn number_end(s: Seq<u8>, i: int) -> Option<int> {
    match int_end(s, i) {
        Some(q) => match frac_end(s, q) {
            Some(q2) => exp_end(s, q2),
            None => None,
        },
        None => None,
    }
}

/// The value of the decimal digits from `i` (inclusive) to `j` (exclusive).
pub open spec fn digits_val(s: Seq<u8>, i: int, j: int) -> int
    decreases j - i,
{
    if j <= i {
        0
    } else {
        digits_val(s, i, j - 1) * 10 + (s[j - 1] - 48)
    }
}

/// An event id at `i`: a JSON number that has no fraction and no exponent
/// and whose value fits a 32-bit signed integer.
pub open spec fn id_value(s: Seq<u8>, i: int) -> Option<(int, int)> {
    let neg = 0 <= i < s.len() && s[i] == 45;
    let p = if neg {
        i + 1
    } else {
        i
    };
    if !(0 <= p < s.len() && digit_byte(s[p])) {
        None
    } else {
        let q = if s[p] == 48 {
            p + 1
        } else {
            skip_digits(s, p)
        };
        if q < s.len() && (s[q] == 46 || s[q] == 101 || s[q] == 69) {
            None
        } else {
            let v = digits_val(s, p, q);
            let sv = if neg {
                -v
            } else {
                v
            };
            if -2147483648 <= sv <= 2147483647 {
                Some((sv, q))
            } else {
                None
            }
        }
    }
}

/// The bytes of the literal `true`.
pub open spec fn lit_true() -> Seq<u8> {
    seq![116u8, 114u8, 117u8, 101u8]
}

/// The bytes of the literal `false`.
pub open spec fn lit_false() -> Seq<u8> {
    seq![102u8, 97u8, 108u8, 115u8, 101u8]
}

/// The bytes of the literal `null`.
pub open spec fn lit_null() -> Seq<u8> {
    seq![110u8, 117u8, 108u8, 108u8]
}

/// Whether the bytes `w` stand at position `i` of `s`.
pub open spec fn lit_at(s: Seq<u8>, i: int, w: Seq<u8>) -> bool {
    0 <= i && i + w.len() <= s.len() && s.subrange(i, i + w.len()) == w
}

/// The position after the JSON value starting at the non-whitespace
/// position `i`, or `None` when no value stands there. Values under keys
/// that an event does not use are skipped with this.
pub open spec fn skip_value(s: Seq<u8>, i: int) -> Option<int>
    decreases s.len() - i, 1int,
{
    if i < 0 || i >= s.len() {
        None
    } else if s[i] == 34 {
        match str_rest(s, i + 1) {
            Some((d, j)) => Some(j),
            None => None,
        }
    } else if s[i] == 91 {
        arr_first(s, i + 1)
    } else if s[i] == 123 {
        obj_first(s, i + 1)
    } else if s[i] == 116 {
        if lit_at(s, i, lit_true()) {
            Some(i + 4)
        } else {
            None
        }
    } else if s[i] == 102 {
        if lit_at(s, i, lit_false()) {
            Some(i + 5)
        } else {
            None
        }
    } else if s[i] == 110 {
        if lit_at(s, i, lit_null()) {
            Some(i + 4)
        } else {
            None
        }
    } else if s[i] == 45 || digit_byte(s[i]) {
        number_end(s, i)
    } else {
        None
    }
}

/// The position after the rest of an array, starting just after `[`.
pub open spec fn arr_first(s: Seq<u8>, i: int) -> Option<int>
    decreases s.len() - i, 4int,
{
    let j = astep(skip_ws(s, i), i, s.len() as int);
    if j >= s.len() {
        None
    } else if s[j] == 93 {
        Some(j + 1)
    } else {
        match skip_value(s, j) {
            Some(k) => arr_more(s, astep(k, j + 1, s.len() as int)),
            None => None,
        }
    }
}

/// The position after the rest of an array, starting just after an element.
pub open spec fn arr_more(s: Seq<u8>, i: int) -> Option<int>
    decreases s.len() - i, 3int,
{
    let j = astep(skip_ws(s, i), i, s.len() as int);
    if j >= s.len() {
        None
    } else if s[j] == 93 {
        Some(j + 1)
    } else if s[j] == 44 {
        let k = astep(skip_ws(s, j + 1), j + 1, s.len() as int);
        match skip_value(s, k) {
            Some(m) => arr_more(s, astep(m, k + 1, s.len() as int)),
            None => None,
        }
    } else {
        None
    }
}

/// The position after one object member (key, colon, value) whose key
/// starts at the quote at `j`.
pub open spec fn memb(s: Seq<u8>, j: int) -> Option<int>
    decreases s.len() - j, 2int,
{
    if !(0 <= j < s.len() && s[j] == 34) {
        None
    } else {
        match str_rest(s, j + 1) {
            None => None,
            Some((key, k)) => {
                let k2 = astep(k, j + 1, s.len() as int);
                let m = astep(skip_ws(s, k2), k2, s.len() as int);
                if !(m < s.len() && s[m] == 58) {
                    None
                } else {
                    let v = astep(skip_ws(s, m + 1), m + 1, s.len() as int);
                    skip_value(s, v)
                }
            },
        }
    }
}

/// The position after the rest of an object, starting just after `{`.
pub open spec fn obj_first(s: Seq<u8>, i: int) -> Option<int>
    decreases s.len() - i, 4int,
{
    let j = astep(skip_ws(s, i), i, s.len() as int);
    if j >= s.len() {
        None
    } else if s[j] == 125 {
        Some(j + 1)
    } else {
        match memb(s, j) {
            Some(k) => obj_more(s, astep(k, j + 1, s.len() as int)),
            None => None,
        }
    }
}

/// The position after the rest of an object, starting just after a member.
pub open spec fn obj_more(s: Seq<u8>, i: int) -> Option<int>
    decreases s.len() - i, 3int,
{
    let j = astep(skip_ws(s, i), i, s.len() as int);
    if j >= s.len() {
        None
    } else if s[j] == 125 {
        Some(j + 1)
    } else if s[j] == 44 {
        let k = astep(skip_ws(s, j + 1), j + 1, s.len() as int);
        match memb(s, k) {
            Some(m) => obj_more(s, astep(m, k + 1, s.len() as int)),
            None => None,
        }
    } else {
        None
    }
}

/// The bytes of the member key `id`.
pub open spec fn key_id() -> Seq<u8> {
    seq![105u8, 100u8]
}

/// The bytes of the member key `type`.
pub open spec fn key_type() -> Seq<u8> {
    seq![116u8, 121u8, 112u8, 101u8]
}

/// The bytes of the member key `name`.
pub open spec fn key_name() -> Seq<u8> {
    seq![110u8, 97u8, 109u8, 101u8]
}

/// One member of an event object, whose key starts at the quote at `j`.
/// Yields the updated accumulators for the three expected members and the
/// position after the member's value. A key seen a second time, an `id`
/// value that is not an integer in range, or a `type` or `name` value that
/// is not a string of valid UTF-8, refuse the whole input.
pub open spec fn ev_member(
    s: Seq<u8>,
    j: int,
    id: Option<int>,
    et: Option<Seq<u8>>,
    nm: Option<Seq<u8>>,
) -> Option<((Option<int>, Option<Seq<u8>>, Option<Seq<u8>>), int)> {
    if !(0 <= j < s.len() && s[j] == 34) {
        None
    } else {
        match str_rest(s, j + 1) {
            None => None,
            Some((key, k)) => {
                let k2 = astep(k, j + 1, s.len() as int);
                let m = astep(skip_ws(s, k2), k2, s.len() as int);
                if !(m < s.len() && s[m] == 58) {
                    None
                } else {
                    let v = astep(skip_ws(s, m + 1), m + 1, s.len() as int);
                    if key == key_id() {
                        if id is Some {
                            None
                        } else {
                            match id_value(s, v) {
                                Some((n, e)) => Some(((Some(n), et, nm), e)),
                                None => None,
                            }
                        }
                    } else if key == key_type() {
                        if et is Some {
                            None
                        } else if v < s.len() && s[v] == 34 {
                            match str_rest(s, v + 1) {
                                Some((t, e)) => if valid_utf8(t) {
                                    Some(((id, Some(t), nm), e))
                                } else {
                                    None
                                },
                                None => None,
                            }
                        } else {
                            None
                        }
                    } else if key == key_name() {
                        if nm is Some {
                            None
                        } else if v < s.len() && s[v] == 34 {
                            match str_rest(s, v + 1) {
                                Some((t, e)) => if valid_utf8(t) {
                                    Some(((id, et, Some(t)), e))
                                } else {
                                    None
                                },
                                None => None,
                            }
                        } else {
                            None
                        }
                    } else {
                        match skip_value(s, v) {
                            Some(e) => Some(((id, et, nm), e)),
                            None => None,
                        }
                    }
                }
            },
        }
    }
}

/// The rest of an event object after a member: a comma and a further
/// member, or the closing brace, which requires all three members seen.
pub open spec fn ev_after_member(
    s: Seq<u8>,
    i: int,
    id: Option<int>,
    et: Option<Seq<u8>>,
    nm: Option<Seq<u8>>,
) -> Option<(EvRec, int)>
    decreases s.len() - i,
{
    let j = astep(skip_ws(s, i), i, s.len() as int);
    if j >= s.len() {
        None
    } else if s[j] == 125 {
        if id is Some && et is Some && nm is Some {
            Some((EvRec { id: id->0, etype: et->0, name: nm->0 }, j + 1))
        } else {
            None
        }
    } else if s[j] == 44 {
        let k = astep(skip_ws(s, j + 1), j + 1, s.len() as int);
        match ev_member(s, k, id, et, nm) {
            Some(((id2, et2, nm2), e)) => ev_after_member(s, astep(e, k + 1, s.len() as int), id2, et2, nm2),
            None => None,
        }
    } else {
        None
    }
}

/// A whole event object, starting just after `{`.
pub open spec fn ev_object(s: Seq<u8>, i: int) -> Option<(EvRec, int)> {
    let j = astep(skip_ws(s, i), i, s.len() as int);
    if j >= s.len() || s[j] == 125 {
        None
    } else {
        match ev_member(s, j, None, None, None) {
            Some(((id, et, nm), e)) => ev_after_member(s, astep(e, j + 1, s.len() as int), id, et, nm),
            None => None,
        }
    }
}

/// The rest of the event array after an event object: already-parsed events
/// in `acc`, then either a comma and a further object or the closing
/// bracket.
pub open spec fn evs_after(s: Seq<u8>, i: int, acc: Seq<EvRec>) -> Option<(Seq<EvRec>, int)>
    decreases s.len() - i,
{
    let j = astep(skip_ws(s, i), i, s.len() as int);
    if j >= s.len() {
        None
    } else if s[j] == 93 {
        Some((acc, j + 1))
    } else if s[j] == 44 {
        let k = astep(skip_ws(s, j + 1), j + 1, s.len() as int);
        if k < s.len() && s[k] == 123 {
            match ev_object(s, k + 1) {
                Some((ev, e)) => evs_after(s, astep(e, k + 2, s.len() as int), acc.push(ev)),
                None => None,
            }
        } else {
            None
        }
    } else {
        None
    }
}

/// The event list, starting just after `[`.
pub open spec fn evs_list(s: Seq<u8>, i: int) -> Option<(Seq<EvRec>, int)> {
    let j = astep(skip_ws(s, i), i, s.len() as int);
    if j >= s.len() {
        None
    } else if s[j] == 93 {
        Some((Seq::empty(), j + 1))
    } else if s[j] == 123 {
        match ev_object(s, j + 1) {
            Some((ev, e)) => evs_after(s, astep(e, j + 2, s.len() as int), seq![ev]),
            None => None,
        }
    } else {
        None
    }
}

/// The whole response body: valid UTF-8 text holding whitespace, an array
/// of event objects, and whitespace up to the very end.
pub open spec fn events_spec(s: Seq<u8>) -> Option<Seq<EvRec>> {
    let i = amax(skip_ws(s, 0), 0);
    if !valid_utf8(s) {
        None
    } else if i < s.len() && s[i] == 91 {
        match evs_list(s, i + 1) {
            Some((evs, e)) => if amax(skip_ws(s, e), e) == s.len() {
                Some(evs)
            } else {
                None
            },
            None => None,
        }
    } else {
        None
    }
}

/// How a parsed `Workout` reflects an event record: same id, and the two
/// strings are the UTF-8 reading of the record's bytes.
pub open spec fn wk_match(w: Workout, ev: EvRec) -> bool {
    w.id as int == ev.id && w.workout_type@ == decode_utf8(ev.etype) && w.name@ == decode_utf8(
        ev.name,
    )
}

/// `wk_match`, pointwise over whole lists.
pub open spec fn wks_match(ws: Seq<Workout>, evs: Seq<EvRec>) -> bool {
    ws.len() == evs.len() && forall|i: int| 0 <= i < ws.len() ==> wk_match(ws[i], evs[i])
}

/// The id and UTF-8 name of the first cycling-type event record.
pub open spec fn first_cycling_ev(evs: Seq<EvRec>) -> Option<(int, Seq<char>)>
    decreases evs.len(),
{
    if evs.len() == 0 {
        None
    } else if is_cycling(decode_utf8(evs[0].etype)) {
        Some((evs[0].id, decode_utf8(evs[0].name)))
    } else {
        first_cycling_ev(evs.drop_first())
    }
}

/// Relies on `core::str::from_utf8`: it accepts exactly the byte sequences
/// that are valid UTF-8.
#[verifier::external_body]
fn utf8_check(v: &Vec<u8>) -> (r: bool)
    ensures
        r == valid_utf8(v@),
{
    core::str::from_utf8(v.as_slice()).is_ok()
}

/// Relies on `String::from_utf8`: on valid UTF-8 input it returns the
/// string whose characters are the UTF-8 reading of the bytes.
#[verifier::external_body]
fn vec_to_string(v: Vec<u8>) -> (r: String)
    requires
        valid_utf8(v@),
    ensures
        r@ == decode_utf8(v@),
{
    match String::from_utf8(v) {
        Ok(s) => s,
        Err(_) => String::new(),
    }
}

/// The first non-whitespace position at or after `i`.
fn ws_end(s: &Vec<u8>, i: usize) -> (r: usize)
    requires
        i <= s@.len(),
    ensures
        r as int == skip_ws(s@, i as int),
        i <= r <= s@.len(),
{
    let n = s.len();
    let mut j = i;
    while j < n && (s[j] == 32 || s[j] == 9 || s[j] == 10 || s[j] == 13)
        invariant
            i <= j <= n,
            n == s@.len(),
            skip_ws(s@, i as int) == skip_ws(s@, j as int),
        decreases n - j,
    {
        j = j + 1;
    }
    j
}

/// The first non-digit position at or after `i`.
fn digits_end(s: &Vec<u8>, i: usize) -> (r: usize)
    requires
        i <= s@.len(),
    ensures
        r as int == skip_digits(s@, i as int),
        i <= r <= s@.len(),
        forall|x: int| i <= x < r ==> digit_byte(s@[x]),
        (i < s@.len() && digit_byte(s@[i as int])) ==> i < r,
{
    let n = s.len();
    let mut j = i;
    while j < n && 48 <= s[j] && s[j] <= 57
        invariant
            i <= j <= n,
            n == s@.len(),
            skip_digits(s@, i as int) == skip_digits(s@, j as int),
            forall|x: int| i <= x < j ==> digit_byte(s@[x]),
        decreases n - j,
    {
        j = j + 1;
    }
    proof {
        lemma_skip_digits_ge(s@, i as int);
    }
    j
}

/// Skipping digits never moves backwards, and moves at least one position
/// when a digit stands at the start.
proof fn lemma_skip_digits_ge(s: Seq<u8>, i: int)
    ensures
        skip_digits(s, i) >= i,
        (0 <= i < s.len() && digit_byte(s[i])) ==> skip_digits(s, i) >= i + 1,
    decreases s.len() - i,
{
    if 0 <= i < s.len() && digit_byte(s[i]) {
        lemma_skip_digits_ge(s, i + 1);
    }
}

/// The value of one hexadecimal digit.
fn hv(b: u8) -> (r: u8)
    requires
        hex_byte(b),
    ensures
        r as int == hex_val(b),
        r < 16,
{
    if b <= 57 {
        b - 48
    } else if b <= 70 {
        b - 55
    } else {
        b - 87
    }
}

/// The byte a single-character escape stands for.
fn esc_b(e: u8) -> (r: Option<u8>)
    ensures
        r == esc_byte(e),
{
    match e {
        34 => Some(34),
        92 => Some(92),
        47 => Some(47),
        98 => Some(8),
        102 => Some(12),
        110 => Some(10),
        114 => Some(13),
        116 => Some(9),
        _ => None,
    }
}

/// The UTF-8 bytes of one Unicode scalar value.
fn encode_scalar_x(cp: u32) -> (r: Vec<u8>)
    requires
        cp <= 0x10FFFF,
        !(0xD800 <= cp <= 0xDFFF),
    ensures
        r@ == encode_scalar(cp),
{
    let mut out: Vec<u8> = Vec::new();
    if cp <= 0x7F {
        out.push((cp & 0x7F) as u8);
    } else if cp <= 0x7FF {
        out.push(0xC0u8 | (((cp >> 6) & 0x1F) as u8));
        out.push(0x80u8 | ((cp & 0x3F) as u8));
    } else if cp <= 0xFFFF {
        out.push(0xE0u8 | (((cp >> 12) & 0x0F) as u8));
        out.push(0x80u8 | (((cp >> 6) & 0x3F) as u8));
        out.push(0x80u8 | ((cp & 0x3F) as u8));
    } else {
        out.push(0xF0u8 | (((cp >> 18) & 0x7) as u8));
        out.push(0x80u8 | (((cp >> 12) & 0x3F) as u8));
        out.push(0x80u8 | (((cp >> 6) & 0x3F) as u8));
        out.push(0x80u8 | ((cp & 0x3F) as u8));
    }
    proof {
        assert(out@ =~= encode_scalar(cp));
    }
    out
}

/// Ten to the given power.
pub open spec fn p10(n: int) -> int
    decreases n,
{
    if n <= 0 {
        1
    } else {
        10 * p10(n - 1)
    }
}

proof fn lemma_p10_pos(n: int)
    ensures
        p10(n) >= 1,
    decreases n,
{
    if n > 0 {
        lemma_p10_pos(n - 1);
    }
}

proof fn lemma_p10_mono(a: int, b: int)
    requires
        a <= b,
    ensures
        p10(a) <= p10(b),
    decreases b - a,
{
    if a < b {
        lemma_p10_mono(a, b - 1);
        lemma_p10_pos(b - 1);
    }
}

/// Digits read as a number stay below ten to the digit count.
proof fn lemma_digits_upper(s: Seq<u8>, p: int, q: int)
    requires
        p <= q,
        forall|x: int| p <= x < q ==> digit_byte(s[x]),
    ensures
        0 <= digits_val(s, p, q) < p10(q - p),
    decreases q - p,
{
    if p < q {
        lemma_digits_upper(s, p, q - 1);
    }
}

/// A number whose first digit is not zero reaches ten to one less than the
/// digit count.
proof fn lemma_digits_lower(s: Seq<u8>, p: int, q: int)
    requires
        p < q,
        forall|x: int| p <= x < q ==> digit_byte(s[x]),
        s[p] >= 49,
    ensures
        digits_val(s, p, q) >= p10(q - p - 1),
    decreases q - p,
{
    assert(digit_byte(s[q - 1]));
    if p < q - 1 {
        lemma_digits_lower(s, p, q - 1);
        lemma_p10_pos(q - p - 2);
        assert(digits_val(s, p, q - 1) * 10 >= p10(q - p - 2) * 10) by (nonlinear_arith)
            requires
                digits_val(s, p, q - 1) >= p10(q - p - 2),
        ;
        assert(p10(q - p - 1) == 10 * p10(q - p - 2));
    }
}

/// Decodes the rest of a JSON string, starting just after the opening
/// quote.
fn str_rest_x(s: &Vec<u8>, i: usize) -> (r: Option<(Vec<u8>, usize)>)
    requires
        i <= s@.len(),
    ensures
        match r {
            Some((d, j)) => str_rest(s@, i as int) == Some((d@, j as int)) && i < j <= s@.len(),
            None => str_rest(s@, i as int) is None,
        },
    decreases s@.len() - i,
{
    let n = s.len();
    if i >= n {
        return None;
    }
    let b = s[i];
    if b == 34 {
        let out: Vec<u8> = Vec::new();
        proof {
            assert(out@ =~= Seq::<u8>::empty());
        }
        Some((out, i + 1))
    } else if b == 92 {
        if n - i < 2 {
            return None;
        }
        let e = s[i + 1];
        if e == 117 {
            if n - i >= 6 && is_hex_x(s[i + 2]) && is_hex_x(s[i + 3]) && is_hex_x(s[i + 4])
                && is_hex_x(s[i + 5]) {
                let cp: u32 = (hv(s[i + 2]) as u32) * 4096 + (hv(s[i + 3]) as u32) * 256 + (hv(
                    s[i + 4],
                ) as u32) * 16 + (hv(s[i + 5]) as u32);
                proof {
                    assert(cp as int == hex4(s@, i as int + 2));
                }
                if 0xDC00 <= cp && cp <= 0xDFFF {
                    None
                } else if 0xD800 <= cp && cp <= 0xDBFF {
                    if n - i >= 12 && s[i + 6] == 92 && s[i + 7] == 117 && is_hex_x(s[i + 8])
                        && is_hex_x(s[i + 9]) && is_hex_x(s[i + 10]) && is_hex_x(s[i + 11]) {
                        let lo: u32 = (hv(s[i + 8]) as u32) * 4096 + (hv(s[i + 9]) as u32) * 256
                            + (hv(s[i + 10]) as u32) * 16 + (hv(s[i + 11]) as u32);
                        proof {
                            assert(lo as int == hex4(s@, i as int + 8));
                        }
                        if 0xDC00 <= lo && lo <= 0xDFFF {
                            let scalar: u32 = 0x10000 + (cp - 0xD800) * 0x400 + (lo - 0xDC00);
                            match str_rest_x(s, i + 12) {
                                Some((mut d2, j)) => {
                                    let mut out = encode_scalar_x(scalar);
                                    out.append(&mut d2);
                                    Some((out, j))
                                },
                                None => None,
                            }
                        } else {
                            None
                        }
                    } else {
                        None
                    }
                } else {
                    match str_rest_x(s, i + 6) {
                        Some((mut d2, j)) => {
                            let mut out = encode_scalar_x(cp);
                            out.append(&mut d2);
                            Some((out, j))
                        },
                        None => None,
                    }
                }
            } else {
                None
            }
        } else {
            match esc_b(e) {
                Some(x) => match str_rest_x(s, i + 2) {
                    Some((mut d2, j)) => {
                        let ghost d2v = d2@;
                        let mut out: Vec<u8> = Vec::new();
                        out.push(x);
                        out.append(&mut d2);
                        proof {
                            assert(out@ =~= seq![x] + d2v);
                        }
                        Some((out, j))
                    },
                    None => None,
                },
                None => None,
            }
        }
    } else if b < 32 {
        None
    } else {
        match str_rest_x(s, i + 1) {
            Some((mut d2, j)) => {
                let ghost d2v = d2@;
                let mut out: Vec<u8> = Vec::new();
                out.push(b);
                out.append(&mut d2);
                proof {
                    assert(out@ =~= seq![b] + d2v);
                }
                Some((out, j))
            },
            None => None,
        }
    }
}

/// Whether the byte is a hexadecimal digit.
fn is_hex_x(b: u8) -> (r: bool)
    ensures
        r == hex_byte(b),
{
    (48 <= b && b <= 57) || (65 <= b && b <= 70) || (97 <= b && b <= 102)
}

/// The end of a full JSON number.
fn number_end_x(s: &Vec<u8>, i: usize) -> (r: Option<usize>)
    requires
        i <= s@.len(),
    ensures
        match r {
            Some(j) => number_end(s@, i as int) == Some(j as int) && i < j <= s@.len(),
            None => number_end(s@, i as int) is None,
        },
{
    let n = s.len();
    let p = if i < n && s[i] == 45 {
        i + 1
    } else {
        i
    };
    if !(p < n && 48 <= s[p] && s[p] <= 57) {
        return None;
    }
    let q = if s[p] == 48 {
        p + 1
    } else {
        digits_end(s, p)
    };
    let q2 = if q < n && s[q] == 46 {
        if q + 1 < n && 48 <= s[q + 1] && s[q + 1] <= 57 {
            digits_end(s, q + 1)
        } else {
            return None;
        }
    } else {
        q
    };
    if q2 < n && (s[q2] == 101 || s[q2] == 69) {
        let p2 = if q2 + 1 < n && (s[q2 + 1] == 43 || s[q2 + 1] == 45) {
            q2 + 2
        } else {
            q2 + 1
        };
        if p2 < n && 48 <= s[p2] && s[p2] <= 57 {
            Some(digits_end(s, p2))
        } else {
            None
        }
    } else {
        Some(q2)
    }
}

/// An event id: an integer JSON number whose value fits `i32`.
fn id_value_x(s: &Vec<u8>, i: usize) -> (r: Option<(i32, usize)>)
    requires
        i <= s@.len(),
    ensures
        match r {
            Some((v, e)) => id_value(s@, i as int) == Some((v as int, e as int)) && i < e
                <= s@.len(),
            None => id_value(s@, i as int) is None,
        },
{
    let n = s.len();
    let neg = i < n && s[i] == 45;
    let p = if neg {
        i + 1
    } else {
        i
    };
    if !(p < n && 48 <= s[p] && s[p] <= 57) {
        return None;
    }
    let q = if s[p] == 48 {
        p + 1
    } else {
        digits_end(s, p)
    };
    if q < n && (s[q] == 46 || s[q] == 101 || s[q] == 69) {
        return None;
    }
    proof {
        if s@[p as int] == 48 {
            assert(forall|x: int| p <= x < q ==> digit_byte(s@[x]));
        }
    }
    if q - p > 10 {
        proof {
            lemma_digits_lower(s@, p as int, q as int);
            lemma_p10_mono(10, q as int - p as int - 1);
            reveal_with_fuel(p10, 11);
            assert(p10(10) == 10000000000);
        }
        return None;
    }
    let mut acc: u64 = 0;
    let mut t = p;
    while t < q
        invariant
            p <= t <= q,
            q <= s@.len(),
            q - p <= 10,
            forall|x: int| p <= x < q ==> digit_byte(s@[x]),
            acc as int == digits_val(s@, p as int, t as int),
            acc < 10000000000,
        decreases q - t,
    {
        proof {
            assert(digit_byte(s@[t as int]));
            lemma_digits_upper(s@, p as int, t as int + 1);
            lemma_p10_mono(t as int + 1 - p as int, 10);
            reveal_with_fuel(p10, 11);
            assert(p10(10) == 10000000000);
        }
        let d = s[t] - 48;
        acc = acc * 10 + (d as u64);
        t = t + 1;
    }
    let v_wide: i64 = if neg {
        -(acc as i64)
    } else {
        acc as i64
    };
    if v_wide < -2147483648 || v_wide > 2147483647 {
        return None;
    }
    Some((v_wide as i32, q))
}

/// Skips the JSON value starting at the non-whitespace position `i`.
fn skip_value_x(s: &Vec<u8>, i: usize) -> (r: Option<usize>)
    requires
        i <= s@.len(),
    ensures
        match r {
            Some(j) => skip_value(s@, i as int) == Some(j as int) && i < j <= s@.len(),
            None => skip_value(s@, i as int) is None,
        },
    decreases s@.len() - i, 1int,
{
    let n = s.len();
    if i >= n {
        return None;
    }
    let b = s[i];
    if b == 34 {
        match str_rest_x(s, i + 1) {
            Some((_d, j)) => Some(j),
            None => None,
        }
    } else if b == 91 {
        arr_first_x(s, i + 1)
    } else if b == 123 {
        obj_first_x(s, i + 1)
    } else if b == 116 {
        if n - i >= 4 && s[i + 1] == 114 && s[i + 2] == 117 && s[i + 3] == 101 {
            proof {
                assert(s@.subrange(i as int, i as int + 4) =~= lit_true());
            }
            Some(i + 4)
        } else {
            proof {
                if lit_at(s@, i as int, lit_true()) {
                    assert(s@.subrange(i as int, i as int + 4)[1] == s@[i as int + 1]);
                    assert(s@.subrange(i as int, i as int + 4)[2] == s@[i as int + 2]);
                    assert(s@.subrange(i as int, i as int + 4)[3] == s@[i as int + 3]);
                }
            }
            None
        }
    } else if b == 102 {
        if n - i >= 5 && s[i + 1] == 97 && s[i + 2] == 108 && s[i + 3] == 115 && s[i + 4] == 101 {
            proof {
                assert(s@.subrange(i as int, i as int + 5) =~= lit_false());
            }
            Some(i + 5)
        } else {
            proof {
                if lit_at(s@, i as int, lit_false()) {
                    assert(s@.subrange(i as int, i as int + 5)[1] == s@[i as int + 1]);
                    assert(s@.subrange(i as int, i as int + 5)[2] == s@[i as int + 2]);
                    assert(s@.subrange(i as int, i as int + 5)[3] == s@[i as int + 3]);
                    assert(s@.subrange(i as int, i as int + 5)[4] == s@[i as int + 4]);
                }
            }
            None
        }
    } else if b == 110 {
        if n - i >= 4 && s[i + 1] == 117 && s[i + 2] == 108 && s[i + 3] == 108 {
            proof {
                assert(s@.subrange(i as int, i as int + 4) =~= lit_null());
            }
            Some(i + 4)
        } else {
            proof {
                if lit_at(s@, i as int, lit_null()) {
                    assert(s@.subrange(i as int, i as int + 4)[1] == s@[i as int + 1]);
                    assert(s@.subrange(i as int, i as int + 4)[2] == s@[i as int + 2]);
                    assert(s@.subrange(i as int, i as int + 4)[3] == s@[i as int + 3]);
                }
            }
            None
        }
    } else if b == 45 || (48 <= b && b <= 57) {
        number_end_x(s, i)
    } else {
        None
    }
}

/// Skips the rest of an array, starting just after `[`.
fn arr_first_x(s: &Vec<u8>, i: usize) -> (r: Option<usize>)
    requires
        i <= s@.len(),
    ensures
        match r {
            Some(j) => arr_first(s@, i as int) == Some(j as int) && i < j <= s@.len(),
            None => arr_first(s@, i as int) is None,
        },
    decreases s@.len() - i, 4int,
{
    let n = s.len();
    let j = ws_end(s, i);
    proof {
        assert(astep(skip_ws(s@, i as int), i as int, n as int) == j as int);
    }
    if j >= n {
        return None;
    }
    if s[j] == 93 {
        return Some(j + 1);
    }
    match skip_value_x(s, j) {
        Some(k) => {
            proof {
                assert(astep(k as int, j as int + 1, n as int) == k as int);
            }
            arr_more_x(s, k)
        },
        None => None,
    }
}

/// Skips the rest of an array, starting just after an element.
fn arr_more_x(s: &Vec<u8>, i: usize) -> (r: Option<usize>)
    requires
        i <= s@.len(),
    ensures
        match r {
            Some(j) => arr_more(s@, i as int) == Some(j as int) && i < j <= s@.len(),
            None => arr_more(s@, i as int) is None,
        },
    decreases s@.len() - i, 3int,
{
    let n = s.len();
    let j = ws_end(s, i);
    proof {
        assert(astep(skip_ws(s@, i as int), i as int, n as int) == j as int);
    }
    if j >= n {
        return None;
    }
    if s[j] == 93 {
        return Some(j + 1);
    }
    if s[j] != 44 {
        return None;
    }
    let k = ws_end(s, j + 1);
    proof {
        assert(astep(skip_ws(s@, j as int + 1), j as int + 1, n as int) == k as int);
    }
    match skip_value_x(s, k) {
        Some(m) => {
            proof {
                assert(astep(m as int, k as int + 1, n as int) == m as int);
            }
            arr_more_x(s, m)
        },
        None => None,
    }
}

/// Skips one object member whose key starts at the quote at `j`.
fn memb_x(s: &Vec<u8>, j: usize) -> (r: Option<usize>)
    requires
        j <= s@.len(),
    ensures
        match r {
            Some(k) => memb(s@, j as int) == Some(k as int) && j < k <= s@.len(),
            None => memb(s@, j as int) is None,
        },
    decreases s@.len() - j, 2int,
{
    let n = s.len();
    if j >= n {
        return None;
    }
    if s[j] != 34 {
        return None;
    }
    match str_rest_x(s, j + 1) {
        None => None,
        Some((_key, k)) => {
            let m = ws_end(s, k);
            proof {
                assert(astep(k as int, j as int + 1, n as int) == k as int);
                assert(astep(skip_ws(s@, k as int), k as int, n as int) == m as int);
            }
            if !(m < n && s[m] == 58) {
                return None;
            }
            let v = ws_end(s, m + 1);
            proof {
                assert(astep(skip_ws(s@, m as int + 1), m as int + 1, n as int) == v as int);
            }
            skip_value_x(s, v)
        },
    }
}

/// Skips the rest of an object, starting just after `{`.
fn obj_first_x(s: &Vec<u8>, i: usize) -> (r: Option<usize>)
    requires
        i <= s@.len(),
    ensures
        match r {
            Some(j) => obj_first(s@, i as int) == Some(j as int) && i < j <= s@.len(),
            None => obj_first(s@, i as int) is None,
        },
    decreases s@.len() - i, 4int,
{
    let n = s.len();
    let j = ws_end(s, i);
    proof {
        assert(astep(skip_ws(s@, i as int), i as int, n as int) == j as int);
    }
    if j >= n {
        return None;
    }
    if s[j] == 125 {
        return Some(j + 1);
    }
    match memb_x(s, j) {
        Some(k) => {
            proof {
                assert(astep(k as int, j as int + 1, n as int) == k as int);
            }
            obj_more_x(s, k)
        },
        None => None,
    }
}

/// Skips the rest of an object, starting just after a member.
fn obj_more_x(s: &Vec<u8>, i: usize) -> (r: Option<usize>)
    requires
        i <= s@.len(),
    ensures
        match r {
            Some(j) => obj_more(s@, i as int) == Some(j as int) && i < j <= s@.len(),
            None => obj_more(s@, i as int) is None,
        },
    decreases s@.len() - i, 3int,
{
    let n = s.len();
    let j = ws_end(s, i);
    proof {
        assert(astep(skip_ws(s@, i as int), i as int, n as int) == j as int);
    }
    if j >= n {
        return None;
    }
    if s[j] == 125 {
        return Some(j + 1);
    }
    if s[j] != 44 {
        return None;
    }
    let k = ws_end(s, j + 1);
    proof {
        assert(astep(skip_ws(s@, j as int + 1), j as int + 1, n as int) == k as int);
    }
    match memb_x(s, k) {
        Some(m) => {
            proof {
                assert(astep(m as int, k as int + 1, n as int) == m as int);
            }
            obj_more_x(s, m)
        },
        None => None,
    }
}

/// The id accumulator seen as its mathematical value.
pub open spec fn oid(x: Option<i32>) -> Option<int> {
    match x {
        Some(v) => Some(v as int),
        None => None,
    }
}

/// A captured byte string seen as its mathematical value.
pub open spec fn obyt(x: Option<Vec<u8>>) -> Option<Seq<u8>> {
    match x {
        Some(v) => Some(v@),
        None => None,
    }
}

/// Whether the captured key is `id`.
fn is_key_id(k: &Vec<u8>) -> (r: bool)
    ensures
        r == (k@ == key_id()),
{
    let r = k.len() == 2 && k[0] == 105 && k[1] == 100;
    proof {
        if r {
            assert(k@ =~= key_id());
        } else if k@ == key_id() {
            assert(k@.len() == 2 && k@[0] == 105 && k@[1] == 100);
        }
    }
    r
}

/// Whether the captured key is `type`.
fn is_key_type(k: &Vec<u8>) -> (r: bool)
    ensures
        r == (k@ == key_type()),
{
    let r = k.len() == 4 && k[0] == 116 && k[1] == 121 && k[2] == 112 && k[3] == 101;
    proof {
        if r {
            assert(k@ =~= key_type());
        } else if k@ == key_type() {
            assert(k@.len() == 4 && k@[0] == 116 && k@[1] == 121 && k@[2] == 112 && k@[3] == 101);
        }
    }
    r
}

/// Whether the captured key is `name`.
fn is_key_name(k: &Vec<u8>) -> (r: bool)
    ensures
        r == (k@ == key_name()),
{
    let r = k.len() == 4 && k[0] == 110 && k[1] == 97 && k[2] == 109 && k[3] == 101;
    proof {
        if r {
            assert(k@ =~= key_name());
        } else if k@ == key_name() {
            assert(k@.len() == 4 && k@[0] == 110 && k@[1] == 97 && k@[2] == 109 && k@[3] == 101);
        }
    }
    r
}

/// Parses one member of an event object.
fn ev_member_x(
    s: &Vec<u8>,
    j: usize,
    id: Option<i32>,
    et: Option<Vec<u8>>,
    nm: Option<Vec<u8>>,
) -> (r: Option<((Option<i32>, Option<Vec<u8>>, Option<Vec<u8>>), usize)>)
    requires
        j <= s@.len(),
        et is Some ==> valid_utf8(et->0@),
        nm is Some ==> valid_utf8(nm->0@),
    ensures
        match r {
            Some(t) => ({
                let (acc2, e) = t;
                let (id2, et2, nm2) = acc2;
                ev_member(s@, j as int, oid(id), obyt(et), obyt(nm)) == Some(
                    ((oid(id2), obyt(et2), obyt(nm2)), e as int),
                ) && j < e <= s@.len() && (et2 is Some ==> valid_utf8(et2->0@)) && (nm2 is Some
                    ==> valid_utf8(nm2->0@))
            }),
            None => ev_member(s@, j as int, oid(id), obyt(et), obyt(nm)) is None,
        },
{
    let n = s.len();
    if j >= n {
        return None;
    }
    if s[j] != 34 {
        return None;
    }
    match str_rest_x(s, j + 1) {
        None => None,
        Some((key, k)) => {
            let m = ws_end(s, k);
            proof {
                assert(astep(k as int, j as int + 1, n as int) == k as int);
                assert(astep(skip_ws(s@, k as int), k as int, n as int) == m as int);
            }
            if !(m < n && s[m] == 58) {
                return None;
            }
            let v = ws_end(s, m + 1);
            proof {
                assert(astep(skip_ws(s@, m as int + 1), m as int + 1, n as int) == v as int);
            }
            if is_key_id(&key) {
                if id.is_some() {
                    return None;
                }
                match id_value_x(s, v) {
                    Some((nv, e)) => Some(((Some(nv), et, nm), e)),
                    None => None,
                }
            } else if is_key_type(&key) {
                if et.is_some() {
                    return None;
                }
                if !(v < n && s[v] == 34) {
                    return None;
                }
                match str_rest_x(s, v + 1) {
                    Some((t, e)) => if utf8_check(&t) {
                        Some(((id, Some(t), nm), e))
                    } else {
                        None
                    },
                    None => None,
                }
            } else if is_key_name(&key) {
                if nm.is_some() {
                    return None;
                }
                if !(v < n && s[v] == 34) {
                    return None;
                }
                match str_rest_x(s, v + 1) {
                    Some((t, e)) => if utf8_check(&t) {
                        Some(((id, et, Some(t)), e))
                    } else {
                        None
                    },
                    None => None,
                }
            } else {
                match skip_value_x(s, v) {
                    Some(e) => Some(((id, et, nm), e)),
                    None => None,
                }
            }
        },
    }
}

/// Parses the rest of an event object after a member.
fn ev_after_member_x(
    s: &Vec<u8>,
    i: usize,
    id: Option<i32>,
    et: Option<Vec<u8>>,
    nm: Option<Vec<u8>>,
) -> (r: Option<(Workout, usize)>)
    requires
        i <= s@.len(),
        et is Some ==> valid_utf8(et->0@),
        nm is Some ==> valid_utf8(nm->0@),
    ensures
        match r {
            Some(t) => ({
                let (w, e) = t;
                let ro = ev_after_member(s@, i as int, oid(id), obyt(et), obyt(nm));
                ro is Some && ({
                    let (ev, ee) = ro->0;
                    ee == e as int && wk_match(w, ev)
                }) && i < e <= s@.len()
            }),
            None => ev_after_member(s@, i as int, oid(id), obyt(et), obyt(nm)) is None,
        },
    decreases s@.len() - i,
{
    let n = s.len();
    let j = ws_end(s, i);
    proof {
        assert(astep(skip_ws(s@, i as int), i as int, n as int) == j as int);
    }
    if j >= n {
        return None;
    }
    let b = s[j];
    if b == 125 {
        match (id, et, nm) {
            (Some(idv), Some(etv), Some(nmv)) => {
                let wt = vec_to_string(etv);
                let nms = vec_to_string(nmv);
                Some((Workout { id: idv, workout_type: wt, name: nms }, j + 1))
            },
            _ => None,
        }
    } else if b == 44 {
        let k = ws_end(s, j + 1);
        proof {
            assert(astep(skip_ws(s@, j as int + 1), j as int + 1, n as int) == k as int);
        }
        match ev_member_x(s, k, id, et, nm) {
            Some(((id2, et2, nm2), e)) => {
                proof {
                    assert(astep(e as int, k as int + 1, n as int) == e as int);
                }
                ev_after_member_x(s, e, id2, et2, nm2)
            },
            None => None,
        }
    } else {
        None
    }
}

/// Parses a whole event object, starting just after `{`.
fn ev_object_x(s: &Vec<u8>, i: usize) -> (r: Option<(Workout, usize)>)
    requires
        i <= s@.len(),
    ensures
        match r {
            Some(t) => ({
                let (w, e) = t;
                let ro = ev_object(s@, i as int);
                ro is Some && ({
                    let (ev, ee) = ro->0;
                    ee == e as int && wk_match(w, ev)
                }) && i < e <= s@.len()
            }),
            None => ev_object(s@, i as int) is None,
        },
{
    let n = s.len();
    let j = ws_end(s, i);
    proof {
        assert(astep(skip_ws(s@, i as int), i as int, n as int) == j as int);
    }
    if j >= n {
        return None;
    }
    if s[j] == 125 {
        return None;
    }
    match ev_member_x(s, j, None, None, None) {
        Some(((id, et, nm), e)) => {
            proof {
                assert(astep(e as int, j as int + 1, n as int) == e as int);
            }
            ev_after_member_x(s, e, id, et, nm)
        },
        None => None,
    }
}

/// Parses the rest of the event array after an event object.
fn evs_after_x(
    s: &Vec<u8>,
    i: usize,
    acc: Vec<Workout>,
    Ghost(accg): Ghost<Seq<EvRec>>,
) -> (r: Option<(Vec<Workout>, usize)>)
    requires
        i <= s@.len(),
        wks_match(acc@, accg),
    ensures
        match r {
            Some(t) => ({
                let (out, e) = t;
                let ro = evs_after(s@, i as int, accg);
                ro is Some && ({
                    let (evs, ee) = ro->0;
                    ee == e as int && wks_match(out@, evs)
                }) && i < e <= s@.len()
            }),
            None => evs_after(s@, i as int, accg) is None,
        },
    decreases s@.len() - i,
{
    let n = s.len();
    let j = ws_end(s, i);
    proof {
        assert(astep(skip_ws(s@, i as int), i as int, n as int) == j as int);
    }
    if j >= n {
        return None;
    }
    let b = s[j];
    if b == 93 {
        Some((acc, j + 1))
    } else if b == 44 {
        let k = ws_end(s, j + 1);
        proof {
            assert(astep(skip_ws(s@, j as int + 1), j as int + 1, n as int) == k as int);
        }
        if !(k < n && s[k] == 123) {
            return None;
        }
        match ev_object_x(s, k + 1) {
            Some((w, e)) => {
                let ghost evp = ev_object(s@, k as int + 1)->0;
                let ghost ev = evp.0;
                let mut acc2 = acc;
                acc2.push(w);
                proof {
                    assert(wks_match(acc2@, accg.push(ev)));
                    assert(astep(e as int, k as int + 2, n as int) == e as int);
                }
                let ghost accg2 = accg.push(ev);
                evs_after_x(s, e, acc2, Ghost(accg2))
            },
            None => None,
        }
    } else {
        None
    }
}

/// The error of a response body the event grammar refuses.
pub struct ParseError;

/// Parses the events endpoint's response body: one `Workout` for each
/// element of the JSON array, in order. Any input the grammar refuses
/// yields `Err`.
pub fn parse_events(body: &Vec<u8>) -> (r: Result<Vec<Workout>, ParseError>)
    ensures
        r is Ok <==> events_spec(body@) is Some,
        r is Ok ==> wks_match(r->Ok_0@, events_spec(body@)->0),
{
    let n = body.len();
    if !utf8_check(body) {
        return Err(ParseError);
    }
    let i = ws_end(body, 0);
    proof {
        assert(amax(skip_ws(body@, 0), 0) == i as int);
    }
    if !(i < n) {
        return Err(ParseError);
    }
    if body[i] != 91 {
        return Err(ParseError);
    }
    let j = ws_end(body, i + 1);
    proof {
        assert(astep(skip_ws(body@, i as int + 1), i as int + 1, n as int) == j as int);
    }
    if j >= n {
        return Err(ParseError);
    }
    let b = body[j];
    if b == 93 {
        let f = ws_end(body, j + 1);
        proof {
            assert(amax(skip_ws(body@, j as int + 1), j as int + 1) == f as int);
        }
        if f == n {
            let out: Vec<Workout> = Vec::new();
            proof {
                assert(wks_match(out@, Seq::<EvRec>::empty()));
            }
            Ok(out)
        } else {
            Err(ParseError)
        }
    } else if b == 123 {
        match ev_object_x(body, j + 1) {
            Some((w, e)) => {
                let ghost evp = ev_object(body@, j as int + 1)->0;
                let ghost ev = evp.0;
                let mut acc: Vec<Workout> = Vec::new();
                acc.push(w);
                proof {
                    assert(acc@ =~= seq![w]);
                    assert(wks_match(acc@, seq![ev]));
                    assert(astep(e as int, j as int + 2, n as int) == e as int);
                }
                let ghost accg0: Seq<EvRec> = seq![ev];
                match evs_after_x(body, e, acc, Ghost(accg0)) {
                    Some((out, e2)) => {
                        let f = ws_end(body, e2);
                        proof {
                            assert(amax(skip_ws(body@, e2 as int), e2 as int) == f as int);
                        }
                        if f == n {
                            Ok(out)
                        } else {
                            Err(ParseError)
                        }
                    },
                    None => Err(ParseError),
                }
            },
            None => Err(ParseError),
        }
    } else {
        Err(ParseError)
    }
}

/// A cycling-type event record at position `i`, with none before it, is
/// the one selected: records before or after it with other tags are
/// ignored.
pub proof fn lemma_first_cycling_ev_found(evs: Seq<EvRec>, i: int)
    requires
        0 <= i < evs.len(),
        is_cycling(decode_utf8(evs[i].etype)),
        forall|j: int| 0 <= j < i ==> !is_cycling(decode_utf8(evs[j].etype)),
    ensures
        first_cycling_ev(evs) == Some((evs[i].id, decode_utf8(evs[i].name))),
    decreases i,
{
    if i > 0 {
        lemma_first_cycling_ev_found(evs.drop_first(), i - 1);
    }
}

/// An event list with no cycling-type record (in particular an empty list)
/// selects nothing.
pub proof fn lemma_first_cycling_ev_none(evs: Seq<EvRec>)
    requires
        forall|j: int| 0 <= j < evs.len() ==> !is_cycling(decode_utf8(evs[j].etype)),
    ensures
        first_cycling_ev(evs) is None,
    decreases evs.len(),
{
    if evs.len() > 0 {
        lemma_first_cycling_ev_none(evs.drop_first());
    }
}

/// Lists that reflect each other select the same workout.
pub proof fn lemma_first_cycling_matches(ws: Seq<Workout>, evs: Seq<EvRec>)
    requires
        wks_match(ws, evs),
    ensures
        crate::events::first_cycling(ws) is Some <==> first_cycling_ev(evs) is Some,
        crate::events::first_cycling(ws) is Some ==> {
            let (id1, n1) = crate::events::first_cycling(ws)->0;
            let (id2, n2) = first_cycling_ev(evs)->0;
            id1 as int == id2 && n1 == n2
        },
    decreases ws.len(),
{
    if ws.len() > 0 {
        assert(wk_match(ws[0], evs[0]));
        if !is_cycling(ws[0].workout_type@) {
            assert(forall|i: int|
                0 <= i < ws.drop_first().len() ==> wk_match(
                    ws.drop_first()[i],
                    evs.drop_first()[i],
                ));
            lemma_first_cycling_matches(ws.drop_first(), evs.drop_first());
        }
    }
}

} // verus!
