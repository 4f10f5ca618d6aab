//! The JSON grammar and its parser.
//!
//! The grammar is stated as spec functions over a byte sequence and a
//! start position; each returns the parsed value and the position after
//! it, or `None` when the text does not match. The executable parser
//! returns exactly what the grammar says, which is the whole of its
//! contract: a document is malformed precisely when [`spec_json_doc`]
//! is `None` of it.

use vstd::prelude::*;

use crate::json::JsonValue;
use crate::json::SpecJson;

verus! {

broadcast use vstd::std_specs::vec::group_vec_axioms;

/// JSON whitespace: space, tab, line feed, carriage return.
pub open spec fn is_ws(c: u8) -> bool {
    c == 32 || c == 9 || c == 10 || c == 13
}

/// An ASCII decimal digit.
pub open spec fn is_digit(c: u8) -> bool {
    48 <= c <= 57
}

/// First position at or after `i` that does not hold whitespace.
pub open spec fn spec_skip_ws(s: Seq<u8>, i: nat) -> nat
    decreases s.len() - i,
{
    if i < s.len() && is_ws(s[i as int]) {
        spec_skip_ws(s, i + 1)
    } else {
        i
    }
}

/// Skipping whitespace never moves backwards and never leaves the text.
pub proof fn lemma_skip_ws(s: Seq<u8>, i: nat)
    ensures
        i <= spec_skip_ws(s, i),
        i <= s.len() ==> spec_skip_ws(s, i) <= s.len(),
    decreases s.len() - i,
{
    if i < s.len() && is_ws(s[i as int]) {
        lemma_skip_ws(s, i + 1);
    }
}

/// [`lemma_skip_ws`] for every start position at once.
pub proof fn lemma_skip_ws_all(s: Seq<u8>)
    ensures
        forall|k: nat|
            k <= #[trigger] spec_skip_ws(s, k) && (k <= s.len() ==> spec_skip_ws(s, k)
                <= s.len()),
{
    assert forall|k: nat|
        k <= #[trigger] spec_skip_ws(s, k) && (k <= s.len() ==> spec_skip_ws(s, k)
            <= s.len()) by {
        lemma_skip_ws(s, k);
    }
}

/// First position at or after `i` that does not hold a digit.
pub open spec fn spec_scan_digits(s: Seq<u8>, i: nat) -> nat
    decreases s.len() - i,
{
    if i < s.len() && is_digit(s[i as int]) {
        spec_scan_digits(s, i + 1)
    } else {
        i
    }
}

/// Value of an ASCII hexadecimal digit.
pub open spec fn hex_val(c: u8) -> Option<u32> {
    if 48 <= c <= 57 {
        Some((c - 48) as u32)
    } else if 97 <= c <= 102 {
        Some((c - 87) as u32)
    } else if 65 <= c <= 70 {
        Some((c - 55) as u32)
    } else {
        None
    }
}

/// Value of the four hexadecimal digits at `i`.
pub open spec fn spec_hex4(s: Seq<u8>, i: nat) -> Option<u32> {
    if i + 4 <= s.len() {
        match (
            hex_val(s[i as int]),
            hex_val(s[i as int + 1]),
            hex_val(s[i as int + 2]),
            hex_val(s[i as int + 3]),
        ) {
            (Some(a), Some(b), Some(c), Some(d)) => Some(
                (a * 4096 + b * 256 + c * 16 + d) as u32,
            ),
            _ => None,
        }
    } else {
        None
    }
}

/// UTF-8 encoding of a Unicode scalar value, by integer arithmetic.
pub open spec fn utf8_enc(cp: u32) -> Seq<u8> {
    if cp < 0x80 {
        seq![cp as u8]
    } else if cp < 0x800 {
        seq![(192 + cp / 64) as u8, (128 + cp % 64) as u8]
    } else if cp < 0x10000 {
        seq![(224 + cp / 4096) as u8, (128 + (cp / 64) % 64) as u8, (128 + cp % 64) as u8]
    } else {
        seq![
            (240 + cp / 262144) as u8,
            (128 + (cp / 4096) % 64) as u8,
            (128 + (cp / 64) % 64) as u8,
            (128 + cp % 64) as u8,
        ]
    }
}

/// Body of a JSON string, starting after the opening quote; yields the
/// decoded bytes and the position after the closing quote.
pub open spec fn spec_parse_string(s: Seq<u8>, i: nat) -> Option<(Seq<u8>, nat)>
    decreases s.len() - i,
{
    if i >= s.len() {
        None
    } else if s[i as int] == 34 {  // closing quote
        Some((Seq::empty(), (i + 1) as nat))
    } else if s[i as int] == 92 {  // backslash
        if i + 1 >= s.len() {
            None
        } else {
            let e = s[i as int + 1];
            if e == 34 || e == 92 || e == 47 {
                match spec_parse_string(s, i + 2) {
                    Some((t, p)) => Some((seq![e] + t, p)),
                    None => None,
                }
            } else if e == 98 || e == 102 || e == 110 || e == 114 || e == 116 {
                let d: u8 = if e == 98 {
                    8
                } else if e == 102 {
                    12
                } else if e == 110 {
                    10
                } else if e == 114 {
                    13
                } else {
                    9
                };
                match spec_parse_string(s, i + 2) {
                    Some((t, p)) => Some((seq![d] + t, p)),
                    None => None,
                }
            } else if e == 117 {  // \uXXXX
                match spec_hex4(s, i + 2) {
                    None => None,
                    Some(cp) => {
                        if 0xD800 <= cp < 0xDC00 {
                            // high surrogate: a low surrogate escape must follow
                            if i + 8 <= s.len() && s[i as int + 6] == 92 && s[i as int + 7]
                                == 117 {
                                match spec_hex4(s, i + 8) {
                                    Some(lo) => {
                                        if 0xDC00 <= lo < 0xE000 {
                                            let c2 = (0x10000 + (cp - 0xD800) * 0x400 + (lo
                                                - 0xDC00)) as u32;
                                            match spec_parse_string(s, i + 12) {
                                                Some((t, p)) => Some((utf8_enc(c2) + t, p)),
                                                None => None,
                                            }
                                        } else {
                                            None
                                        }
                                    },
                                    None => None,
                                }
                            } else {
                                None
                            }
                        } else if 0xDC00 <= cp < 0xE000 {
                            None
                        } else {
                            match spec_parse_string(s, i + 6) {
                                Some((t, p)) => Some((utf8_enc(cp) + t, p)),
                                None => None,
                            }
                        }
                    },
                }
            } else {
                None
            }
        }
    } else if s[i as int] < 32 {
        None
    } else {
        match spec_parse_string(s, i + 1) {
            Some((t, p)) => Some((seq![s[i as int]] + t, p)),
            None => None,
        }
    }
}

/// The exponent and closing part of a numeric literal that began at
/// `start`, with the integer and fraction parts ending at `e1`.
pub open spec fn spec_finish_number(s: Seq<u8>, start: nat, e1: nat) -> Option<
    (SpecJson, nat),
> {
    if e1 < s.len() && (s[e1 as int] == 101 || s[e1 as int] == 69) {  // e | E
        let e2: nat = if e1 + 1 < s.len() && (s[e1 as int + 1] == 43 || s[e1 as int + 1]
            == 45) {
            (e1 + 2) as nat
        } else {
            (e1 + 1) as nat
        };
        let d = spec_scan_digits(s, e2);
        if d == e2 {
            None
        } else {
            Some((SpecJson::Num(s.subrange(start as int, d as int)), d))
        }
    } else {
        Some((SpecJson::Num(s.subrange(start as int, e1 as int)), e1))
    }
}

/// A numeric literal at `i`: optional minus, integer part, optional
/// fraction and exponent; the value keeps its lexeme.
pub open spec fn spec_parse_number(s: Seq<u8>, i: nat) -> Option<(SpecJson, nat)> {
    let a: nat = if i < s.len() && s[i as int] == 45 {
        (i + 1) as nat
    } else {
        i
    };
    if a >= s.len() || !is_digit(s[a as int]) {
        None
    } else {
        let ie: nat = if s[a as int] == 48 {
            (a + 1) as nat
        } else {
            spec_scan_digits(s, a)
        };
        if ie < s.len() && s[ie as int] == 46 {  // '.'
            let d = spec_scan_digits(s, ie + 1);
            if d == ie + 1 {
                None
            } else {
                spec_finish_number(s, i, d)
            }
        } else {
            spec_finish_number(s, i, ie)
        }
    }
}

/// A parser position forced past `floor`. A successful parse always
/// consumes input, so the force is inert; it keeps positions visibly
/// increasing for termination.
pub open spec fn bumped(p: nat, floor: nat) -> nat {
    if p > floor {
        p
    } else {
        (floor + 1) as nat
    }
}

/// A JSON value at `i`, after optional whitespace.
pub open spec fn spec_parse_value(s: Seq<u8>, i: nat) -> Option<(SpecJson, nat)>
    decreases s.len() - i, 0nat,
    via spec_parse_value_dec
{
    let j = spec_skip_ws(s, i);
    if j >= s.len() {
        None
    } else {
        let c = s[j as int];
        if c == 91 {  // '['
            match spec_parse_elements(s, j + 1) {
                Some((xs, p)) => Some((SpecJson::Arr(xs), p)),
                None => None,
            }
        } else if c == 123 {  // '{'
            match spec_parse_members(s, j + 1) {
                Some((ms, p)) => Some((SpecJson::Obj(ms), p)),
                None => None,
            }
        } else if c == 34 {  // '"'
            match spec_parse_string(s, j + 1) {
                Some((t, p)) => Some((SpecJson::Str(t), p)),
                None => None,
            }
        } else if c == 116 {  // "true"
            if j + 4 <= s.len() && s[j as int + 1] == 114 && s[j as int + 2] == 117 && s[j
                as int + 3] == 101 {
                Some((SpecJson::Bool(true), (j + 4) as nat))
            } else {
                None
            }
        } else if c == 102 {  // "false"
            if j + 5 <= s.len() && s[j as int + 1] == 97 && s[j as int + 2] == 108 && s[j
                as int + 3] == 115 && s[j as int + 4] == 101 {
                Some((SpecJson::Bool(false), (j + 5) as nat))
            } else {
                None
            }
        } else if c == 110 {  // "null"
            if j + 4 <= s.len() && s[j as int + 1] == 117 && s[j as int + 2] == 108 && s[j
                as int + 3] == 108 {
                Some((SpecJson::Null, (j + 4) as nat))
            } else {
                None
            }
        } else if c == 45 || is_digit(c) {
            spec_parse_number(s, j)
        } else {
            None
        }
    }
}

/// The elements of an array, starting after `[`: a closing bracket or
/// at least one item.
pub open spec fn spec_parse_elements(s: Seq<u8>, i: nat) -> Option<(Seq<SpecJson>, nat)>
    decreases s.len() - i, 2nat,
    via spec_parse_elements_dec
{
    let j = spec_skip_ws(s, i);
    if j >= s.len() {
        None
    } else if s[j as int] == 93 {  // ']'
        Some((Seq::empty(), (j + 1) as nat))
    } else {
        spec_parse_items(s, j)
    }
}

/// One array item and what follows it: a comma and more items, or the
/// closing bracket.
pub open spec fn spec_parse_items(s: Seq<u8>, i: nat) -> Option<(Seq<SpecJson>, nat)>
    decreases s.len() - i, 1nat,
    via spec_parse_items_dec
{
    match spec_parse_value(s, i) {
        None => None,
        Some((v, k0)) => {
            let k = bumped(k0, i);
            let m = spec_skip_ws(s, k);
            if m < s.len() && s[m as int] == 44 {  // ','
                match spec_parse_items(s, m + 1) {
                    Some((rest, p)) => Some((seq![v] + rest, p)),
                    None => None,
                }
            } else if m < s.len() && s[m as int] == 93 {
                Some((seq![v], (m + 1) as nat))
            } else {
                None
            }
        },
    }
}

/// The members of an object, starting after `{`: a closing brace or at
/// least one pair.
pub open spec fn spec_parse_members(s: Seq<u8>, i: nat) -> Option<
    (Seq<(Seq<u8>, SpecJson)>, nat),
>
    decreases s.len() - i, 2nat,
    via spec_parse_members_dec
{
    let j = spec_skip_ws(s, i);
    if j >= s.len() {
        None
    } else if s[j as int] == 125 {  // '}'
        Some((Seq::empty(), (j + 1) as nat))
    } else {
        spec_parse_pairs(s, j)
    }
}

/// One key and value pair and what follows it: a comma and more pairs,
/// or the closing brace.
pub open spec fn spec_parse_pairs(s: Seq<u8>, i: nat) -> Option<
    (Seq<(Seq<u8>, SpecJson)>, nat),
>
    decreases s.len() - i, 1nat,
    via spec_parse_pairs_dec
{
    if i >= s.len() || s[i as int] != 34 {  // a key must open with '"'
        None
    } else {
        match spec_parse_string(s, i + 1) {
            None => None,
            Some((key, k0)) => {
                let k = bumped(k0, i);
                let m = spec_skip_ws(s, k);
                if m < s.len() && s[m as int] == 58 {  // ':'
                    match spec_parse_value(s, m + 1) {
                        None => None,
                        Some((v, q0)) => {
                            let q = bumped(q0, m);
                            let p = spec_skip_ws(s, q);
                            if p < s.len() && s[p as int] == 44 {  // ','
                                let j2 = spec_skip_ws(s, (p + 1) as nat);
                                match spec_parse_pairs(s, j2) {
                                    Some((rest, r)) => Some((seq![(key, v)] + rest, r)),
                                    None => None,
                                }
                            } else if p < s.len() && s[p as int] == 125 {
                                Some((seq![(key, v)], (p + 1) as nat))
                            } else {
                                None
                            }
                        },
                    }
                } else {
                    None
                }
            },
        }
    }
}

#[via_fn]
proof fn spec_parse_value_dec(s: Seq<u8>, i: nat) {
    lemma_skip_ws_all(s);
}

#[via_fn]
proof fn spec_parse_elements_dec(s: Seq<u8>, i: nat) {
    lemma_skip_ws_all(s);
}

#[via_fn]
proof fn spec_parse_items_dec(s: Seq<u8>, i: nat) {
    lemma_skip_ws_all(s);
}

#[via_fn]
proof fn spec_parse_members_dec(s: Seq<u8>, i: nat) {
    lemma_skip_ws_all(s);
}

#[via_fn]
proof fn spec_parse_pairs_dec(s: Seq<u8>, i: nat) {
    lemma_skip_ws_all(s);
}

/// A whole document: one value, with only whitespace around it.
pub open spec fn spec_json_doc(s: Seq<u8>) -> Option<SpecJson> {
    match spec_parse_value(s, 0) {
        None => None,
        Some((v, p)) => if spec_skip_ws(s, p) == s.len() {
            Some(v)
        } else {
            None
        },
    }
}

/// Executable twin of [`spec_skip_ws`].
pub fn skip_ws(s: &[u8], i: usize) -> (r: usize)
    requires
        i <= s.len(),
    ensures
        r as nat == spec_skip_ws(s@, i as nat),
        i <= r <= s.len(),
    decreases s.len() - i,
{
    if i < s.len() {
        let c = s[i];
        if c == 32 || c == 9 || c == 10 || c == 13 {
            return skip_ws(s, i + 1);
        }
    }
    i
}

/// Executable twin of [`spec_scan_digits`].
pub fn scan_digits(s: &[u8], i: usize) -> (r: usize)
    requires
        i <= s.len(),
    ensures
        r as nat == spec_scan_digits(s@, i as nat),
        i <= r <= s.len(),
    decreases s.len() - i,
{
    if i < s.len() {
        let c = s[i];
        if 48 <= c && c <= 57 {
            return scan_digits(s, i + 1);
        }
    }
    i
}

/// Executable twin of [`hex_val`].
pub fn hex_digit(c: u8) -> (r: Option<u32>)
    ensures
        r == hex_val(c),
{
    if 48 <= c && c <= 57 {
        Some((c - 48) as u32)
    } else if 97 <= c && c <= 102 {
        Some((c - 87) as u32)
    } else if 65 <= c && c <= 70 {
        Some((c - 55) as u32)
    } else {
        None
    }
}

/// Executable twin of [`spec_hex4`].
pub fn hex4(s: &[u8], i: usize) -> (r: Option<u32>)
    requires
        i <= s.len(),
    ensures
        r == spec_hex4(s@, i as nat),
        r is Some ==> r.unwrap() < 0x10000,
{
    if s.len() - i >= 4 {
        let a = hex_digit(s[i]);
        let b = hex_digit(s[i + 1]);
        let c = hex_digit(s[i + 2]);
        let d = hex_digit(s[i + 3]);
        match (a, b, c, d) {
            (Some(a), Some(b), Some(c), Some(d)) => Some(a * 4096 + b * 256 + c * 16 + d),
            _ => None,
        }
    } else {
        None
    }
}

/// Executable twin of [`utf8_enc`]; callers keep scalar values below
/// the Unicode ceiling, so every arithmetic step stays in range.
pub fn utf8_bytes(cp: u32) -> (v: Vec<u8>)
    requires
        cp < 0x110000,
    ensures
        v@ == utf8_enc(cp),
{
    let mut v: Vec<u8> = Vec::new();
    if cp < 0x80 {
        v.push(cp as u8);
    } else if cp < 0x800 {
        v.push((192 + cp / 64) as u8);
        v.push((128 + cp % 64) as u8);
    } else if cp < 0x10000 {
        v.push((224 + cp / 4096) as u8);
        v.push((128 + (cp / 64) % 64) as u8);
        v.push((128 + cp % 64) as u8);
    } else {
        v.push((240 + cp / 262144) as u8);
        v.push((128 + (cp / 4096) % 64) as u8);
        v.push((128 + (cp / 64) % 64) as u8);
        v.push((128 + cp % 64) as u8);
    }
    proof {
        assert(v@ =~= utf8_enc(cp));
    }
    v
}

/// Executable twin of [`spec_parse_string`].
pub fn parse_string(s: &[u8], i: usize) -> (r: Option<(Vec<u8>, usize)>)
    requires
        i <= s.len(),
    ensures
        match r {
            Some((t, p)) => spec_parse_string(s@, i as nat) == Some((t@, p as nat)) && i < p
                <= s.len(),
            None => spec_parse_string(s@, i as nat) is None,
        },
    decreases s.len() - i,
{
    if i >= s.len() {
        return None;
    }
    let c0 = s[i];
    if c0 == 34 {
        return Some((Vec::new(), i + 1));
    }
    if c0 == 92 {
        if s.len() - i < 2 {
            return None;
        }
        let e = s[i + 1];
        if e == 34 || e == 92 || e == 47 || e == 98 || e == 102 || e == 110 || e == 114 || e
            == 116 {
            let d: u8 = if e == 98 {
                8
            } else if e == 102 {
                12
            } else if e == 110 {
                10
            } else if e == 114 {
                13
            } else if e == 116 {
                9
            } else {
                e
            };
            match parse_string(s, i + 2) {
                Some((t, p)) => {
                    let mut t = t;
                    t.insert(0, d);
                    proof {
                        assert(t@ =~= seq![d] + t@.drop_first());
                    }
                    return Some((t, p));
                },
                None => {
                    return None;
                },
            }
        }
        if e == 117 {
            match hex4(s, i + 2) {
                None => {
                    return None;
                },
                Some(cp) => {
                    if 0xD800 <= cp && cp < 0xDC00 {
                        if s.len() - i >= 8 && s[i + 6] == 92 && s[i + 7] == 117 {
                            match hex4(s, i + 8) {
                                Some(lo) => {
                                    if 0xDC00 <= lo && lo < 0xE000 {
                                        let c2: u32 = 0x10000 + (cp - 0xD800) * 0x400 + (lo
                                            - 0xDC00);
                                        match parse_string(s, i + 12) {
                                            Some((t, p)) => {
                                                let mut enc = utf8_bytes(c2);
                                                let mut t = t;
                                                enc.append(&mut t);
                                                return Some((enc, p));
                                            },
                                            None => {
                                                return None;
                                            },
                                        }
                                    } else {
                                        return None;
                                    }
                                },
                                None => {
                                    return None;
                                },
                            }
                        } else {
                            return None;
                        }
                    } else if 0xDC00 <= cp && cp < 0xE000 {
                        return None;
                    } else {
                        match parse_string(s, i + 6) {
                            Some((t, p)) => {
                                let mut enc = utf8_bytes(cp);
                                let mut t = t;
                                enc.append(&mut t);
                                return Some((enc, p));
                            },
                            None => {
                                return None;
                            },
                        }
                    }
                },
            }
        }
        return None;
    }
    if c0 < 32 {
        return None;
    }
    match parse_string(s, i + 1) {
        Some((t, p)) => {
            let mut t = t;
            t.insert(0, c0);
            proof {
                assert(t@ =~= seq![c0] + t@.drop_first());
            }
            Some((t, p))
        },
        None => None,
    }
}
/// The number lexeme from `start` to `end`, as an owned copy.
fn num_lexeme(s: &[u8], start: usize, end: usize) -> (v: JsonValue)
    requires
        start <= end <= s.len(),
    ensures
        v.dv() == SpecJson::Num(s@.subrange(start as int, end as int)),
{
    let part = vstd::slice::slice_subrange(s, start, end);
    JsonValue::Num(vstd::slice::slice_to_vec(part))
}

/// Executable twin of [`spec_finish_number`].
fn finish_number(s: &[u8], start: usize, e1: usize) -> (r: Option<(JsonValue, usize)>)
    requires
        start <= e1 <= s.len(),
    ensures
        match r {
            Some((v, p)) => spec_finish_number(s@, start as nat, e1 as nat) == Some(
                (v.dv(), p as nat),
            ) && start <= p <= s.len(),
            None => spec_finish_number(s@, start as nat, e1 as nat) is None,
        },
{
    if e1 < s.len() && (s[e1] == 101 || s[e1] == 69) {
        let e2: usize = if e1 + 1 < s.len() && (s[e1 + 1] == 43 || s[e1 + 1] == 45) {
            e1 + 2
        } else {
            e1 + 1
        };
        let d = scan_digits(s, e2);
        if d == e2 {
            None
        } else {
            Some((num_lexeme(s, start, d), d))
        }
    } else {
        Some((num_lexeme(s, start, e1), e1))
    }
}

/// Executable twin of [`spec_parse_number`].
pub fn parse_number(s: &[u8], i: usize) -> (r: Option<(JsonValue, usize)>)
    requires
        i <= s.len(),
    ensures
        match r {
            Some((v, p)) => spec_parse_number(s@, i as nat) == Some((v.dv(), p as nat)) && i
                <= p <= s.len(),
            None => spec_parse_number(s@, i as nat) is None,
        },
{
    let a: usize = if i < s.len() && s[i] == 45 {
        i + 1
    } else {
        i
    };
    if a >= s.len() || !(48 <= s[a] && s[a] <= 57) {
        return None;
    }
    let ie: usize = if s[a] == 48 {
        a + 1
    } else {
        scan_digits(s, a)
    };
    if ie < s.len() && s[ie] == 46 {
        let d = scan_digits(s, ie + 1);
        if d == ie + 1 {
            None
        } else {
            finish_number(s, i, d)
        }
    } else {
        finish_number(s, i, ie)
    }
}
/// Executable twin of [`bumped`].
fn bump(p: usize, floor: usize) -> (r: usize)
    requires
        floor < usize::MAX,
    ensures
        r as nat == bumped(p as nat, floor as nat),
        r > floor,
{
    if p > floor {
        p
    } else {
        floor + 1
    }
}

/// Executable twin of [`spec_parse_value`].
pub fn parse_value(s: &[u8], i: usize) -> (r: Option<(JsonValue, usize)>)
    requires
        i <= s.len(),
    ensures
        match r {
            Some((v, p)) => spec_parse_value(s@, i as nat) == Some((v.dv(), p as nat)) && p
                <= s.len(),
            None => spec_parse_value(s@, i as nat) is None,
        },
    decreases s.len() - i, 0int,
{
    let j = skip_ws(s, i);
    if j >= s.len() {
        return None;
    }
    let c = s[j];
    if c == 91 {
        match parse_elements(s, j + 1) {
            Some((xs, p)) => Some((JsonValue::Arr(xs), p)),
            None => None,
        }
    } else if c == 123 {
        match parse_members(s, j + 1) {
            Some((ms, p)) => Some((JsonValue::Obj(ms), p)),
            None => None,
        }
    } else if c == 34 {
        match parse_string(s, j + 1) {
            Some((t, p)) => Some((JsonValue::Str(t), p)),
            None => None,
        }
    } else if c == 116 {
        if s.len() - j >= 4 && s[j + 1] == 114 && s[j + 2] == 117 && s[j + 3] == 101 {
            Some((JsonValue::Bool(true), j + 4))
        } else {
            None
        }
    } else if c == 102 {
        if s.len() - j >= 5 && s[j + 1] == 97 && s[j + 2] == 108 && s[j + 3] == 115 && s[j
            + 4] == 101 {
            Some((JsonValue::Bool(false), j + 5))
        } else {
            None
        }
    } else if c == 110 {
        if s.len() - j >= 4 && s[j + 1] == 117 && s[j + 2] == 108 && s[j + 3] == 108 {
            Some((JsonValue::Null, j + 4))
        } else {
            None
        }
    } else if c == 45 || (48 <= c && c <= 57) {
        parse_number(s, j)
    } else {
        None
    }
}

/// Executable twin of [`spec_parse_elements`].
pub fn parse_elements(s: &[u8], i: usize) -> (r: Option<(Vec<JsonValue>, usize)>)
    requires
        i <= s.len(),
    ensures
        match r {
            Some((xs, p)) => spec_parse_elements(s@, i as nat) == Some(
                (crate::json::dv_elems(xs@), p as nat),
            ) && p <= s.len(),
            None => spec_parse_elements(s@, i as nat) is None,
        },
    decreases s.len() - i, 2int,
{
    let j = skip_ws(s, i);
    if j >= s.len() {
        return None;
    }
    if s[j] == 93 {
        let empty: Vec<JsonValue> = Vec::new();
        proof {
            assert(crate::json::dv_elems(empty@) =~= Seq::<SpecJson>::empty());
        }
        return Some((empty, j + 1));
    }
    parse_items(s, j)
}

/// Executable twin of [`spec_parse_items`].
pub fn parse_items(s: &[u8], i: usize) -> (r: Option<(Vec<JsonValue>, usize)>)
    requires
        i <= s.len(),
    ensures
        match r {
            Some((xs, p)) => spec_parse_items(s@, i as nat) == Some(
                (crate::json::dv_elems(xs@), p as nat),
            ) && p <= s.len(),
            None => spec_parse_items(s@, i as nat) is None,
        },
    decreases s.len() - i, 1int,
{
    match parse_value(s, i) {
        None => None,
        Some((v, k0)) => {
            let k = bump(k0, i);
            let m = skip_ws(s, k);
            if m < s.len() && s[m] == 44 {
                match parse_items(s, m + 1) {
                    Some((rest, p)) => {
                        let ghost rest_view = rest@;
                        let mut xs = rest;
                        xs.insert(0, v);
                        proof {
                            assert(xs@.drop_first() =~= xs@.subrange(1, xs@.len() as int));
                            assert(crate::json::dv_elems(xs@) =~= seq![xs@[0].dv()]
                                + crate::json::dv_elems(xs@.drop_first()));
                            assert(xs@.drop_first() =~= rest_view);
                        }
                        Some((xs, p))
                    },
                    None => None,
                }
            } else if m < s.len() && s[m] == 93 {
                let mut xs: Vec<JsonValue> = Vec::new();
                xs.push(v);
                proof {
                    assert(xs@.drop_first() =~= Seq::<JsonValue>::empty());
                    assert(crate::json::dv_elems(Seq::<JsonValue>::empty())
                        =~= Seq::<SpecJson>::empty());
                    assert(crate::json::dv_elems(xs@) =~= seq![v.dv()]);
                }
                Some((xs, m + 1))
            } else {
                None
            }
        },
    }
}

/// Executable twin of [`spec_parse_members`].
pub fn parse_members(s: &[u8], i: usize) -> (r: Option<(Vec<(Vec<u8>, JsonValue)>, usize)>)
    requires
        i <= s.len(),
    ensures
        match r {
            Some((ms, p)) => spec_parse_members(s@, i as nat) == Some(
                (crate::json::dv_members(ms@), p as nat),
            ) && p <= s.len(),
            None => spec_parse_members(s@, i as nat) is None,
        },
    decreases s.len() - i, 2int,
{
    let j = skip_ws(s, i);
    if j >= s.len() {
        return None;
    }
    if s[j] == 125 {
        let empty: Vec<(Vec<u8>, JsonValue)> = Vec::new();
        proof {
            assert(crate::json::dv_members(empty@) =~= Seq::<(Seq<u8>, SpecJson)>::empty());
        }
        return Some((empty, j + 1));
    }
    parse_pairs(s, j)
}

/// Executable twin of [`spec_parse_pairs`].
pub fn parse_pairs(s: &[u8], i: usize) -> (r: Option<(Vec<(Vec<u8>, JsonValue)>, usize)>)
    requires
        i <= s.len(),
    ensures
        match r {
            Some((ms, p)) => spec_parse_pairs(s@, i as nat) == Some(
                (crate::json::dv_members(ms@), p as nat),
            ) && p <= s.len(),
            None => spec_parse_pairs(s@, i as nat) is None,
        },
    decreases s.len() - i, 1int,
{
    if i >= s.len() || s[i] != 34 {
        return None;
    }
    match parse_string(s, i + 1) {
        None => None,
        Some((key, k0)) => {
            let k = bump(k0, i);
            let m = skip_ws(s, k);
            if m < s.len() && s[m] == 58 {
                match parse_value(s, m + 1) {
                    None => None,
                    Some((v, q0)) => {
                        let q = bump(q0, m);
                        let p = skip_ws(s, q);
                        if p < s.len() && s[p] == 44 {
                            let j2 = skip_ws(s, p + 1);
                            match parse_pairs(s, j2) {
                                Some((rest, rp)) => {
                                    let ghost rest_view = rest@;
                                    let mut ms = rest;
                                    ms.insert(0, (key, v));
                                    proof {
                                        assert(ms@.drop_first() =~= ms@.subrange(
                                            1,
                                            ms@.len() as int,
                                        ));
                                        assert(crate::json::dv_members(ms@) =~= seq![
                                            (ms@[0].0@, ms@[0].1.dv()),
                                        ] + crate::json::dv_members(ms@.drop_first()));
                                        assert(ms@.drop_first() =~= rest_view);
                                    }
                                    Some((ms, rp))
                                },
                                None => None,
                            }
                        } else if p < s.len() && s[p] == 125 {
                            let mut ms: Vec<(Vec<u8>, JsonValue)> = Vec::new();
                            ms.push((key, v));
                            proof {
                                assert(ms@.drop_first() =~= Seq::<(Vec<u8>, JsonValue)>::empty());
                                assert(crate::json::dv_members(Seq::<(Vec<u8>, JsonValue)>::empty())
                                    =~= Seq::<(Seq<u8>, SpecJson)>::empty());
                                assert(crate::json::dv_members(ms@) =~= seq![(key@, v.dv())]);
                            }
                            Some((ms, p + 1))
                        } else {
                            None
                        }
                    },
                }
            } else {
                None
            }
        },
    }
}

/// Parse a whole JSON document: one value with only whitespace around
/// it, exactly when [`spec_json_doc`] accepts the bytes.
pub fn parse_json(doc: &[u8]) -> (r: Option<JsonValue>)
    ensures
        match r {
            Some(v) => spec_json_doc(doc@) == Some(v.dv()),
            None => spec_json_doc(doc@) is None,
        },
{
    match parse_value(doc, 0) {
        None => None,
        Some((v, p)) => {
            let q = skip_ws(doc, p);
            if q == doc.len() {
                Some(v)
            } else {
                None
            }
        },
    }
}
} // verus!
