//! Wire codec: line-delimited JSON over the worker's standard streams.
//!
//! Incoming: each line of the primary output stream is classified by
//! parsing it against the JSON grammar written out below as spec
//! functions — into a handshake signal, a correlated response, or
//! unclassified diagnostic text; malformed or partial JSON is diagnostic
//! text, never an error. Outgoing: a command is framed as one JSON line,
//! `{"id":..,"command":..,"payload":..}` plus a newline.
//!
//! Strings travel as unescaped UTF-8 bytes; a response's `data` member is
//! carried as the raw JSON text of that value, for the caller to
//! interpret.

use vstd::prelude::*;

verus! {

/// The worker's one-time readiness announcement:
/// `{"status":"ready","version":...,"pid":...}`.
pub struct ReadySignal {
    pub status: Vec<u8>,
    pub version: Vec<u8>,
    pub pid: u32,
}

/// Error details carried inside a response envelope.
pub struct EngineError {
    pub code: Vec<u8>,
    pub message: Vec<u8>,
}

/// A correlated response envelope:
/// `{"id":...,"status":...,"data":...?,"error":...?}`.
///
/// `data` holds the raw JSON text of the `data` member when one was present
/// and not `null`; `error` likewise the decoded error object.
pub struct EngineResponse {
    pub id: u64,
    pub status: Vec<u8>,
    pub data: Option<Vec<u8>>,
    pub error: Option<EngineError>,
}

/// What one line of the worker's primary output stream turned out to be.
pub enum StdoutMessage {
    Ready(ReadySignal),
    Response(EngineResponse),
}

// ---------------------------------------------------------------------------
// The incoming grammar: JSON, as the worker's stream carries it.
//
// A line is classified by parsing it as one JSON value. The spec functions
// below are the grammar: a parsed value is modelled as a `Jv`, an object
// member keeps the span of its value text so a response's `data` can be
// handed on verbatim. Nesting of containers is bounded the way a stream
// parser bounds it: `DEPTH_LIMIT` levels, one level consumed per container.
// ---------------------------------------------------------------------------

/// Nesting budget for containers; a line nested deeper is not a protocol
/// message.
pub const DEPTH_LIMIT: u32 = 128;

/// A parsed JSON value. Numbers keep their lexeme; strings are unescaped
/// UTF-8 bytes; array contents are validated but not retained, since no
/// protocol field lives inside an array.
pub enum Jv {
    Null,
    Bool(bool),
    Num(Seq<u8>),
    Str(Seq<u8>),
    Arr,
    Obj(Seq<JMember>),
}

/// One member of a parsed JSON object: its key, its value, and the span
/// `[vstart, vend)` of the value's text in the parsed line.
pub struct JMember {
    pub key: Seq<u8>,
    pub val: Jv,
    pub vstart: int,
    pub vend: int,
}

/// JSON whitespace: space, tab, line feed, carriage return.
pub open spec fn is_json_ws(b: u8) -> bool {
    b == 32 || b == 9 || b == 10 || b == 13
}

pub open spec fn is_digit(b: u8) -> bool {
    48 <= b <= 57
}

/// First index at or after `i` that does not hold whitespace (at most the
/// length).
pub open spec fn ws_end(s: Seq<u8>, i: nat) -> nat
    decreases s.len() - i,
{
    if i < s.len() && is_json_ws(s[i as int]) {
        ws_end(s, i + 1)
    } else {
        i
    }
}

/// First index at or after `i` that does not hold a decimal digit.
pub open spec fn digits_end(s: Seq<u8>, i: nat) -> nat
    decreases s.len() - i,
{
    if i < s.len() && is_digit(s[i as int]) {
        digits_end(s, i + 1)
    } else {
        i
    }
}

/// A successor position for recursion: `j` when it lies properly beyond
/// `i` and inside the input, clamped otherwise. On every reachable path the
/// clamps change nothing; they make progress self-evident.
pub open spec fn advp(s: Seq<u8>, i: nat, j: nat) -> nat {
    let k: nat = if j > i {
        j
    } else {
        i + 1
    };
    if k > s.len() {
        s.len()
    } else {
        k
    }
}

pub open spec fn is_hex_digit(b: u8) -> bool {
    is_digit(b) || (97 <= b <= 102) || (65 <= b <= 70)
}

/// Value of one hex digit (meaningful only when `is_hex_digit` holds).
pub open spec fn hex_digit_val(b: u8) -> nat {
    if is_digit(b) {
        (b - 48) as nat
    } else if 97 <= b <= 102 {
        (b - 87) as nat
    } else {
        (b - 55) as nat
    }
}

/// Four hex digits at `i`?
pub open spec fn is_hex4(s: Seq<u8>, i: nat) -> bool {
    &&& i + 4 <= s.len()
    &&& is_hex_digit(s[i as int])
    &&& is_hex_digit(s[(i + 1) as int])
    &&& is_hex_digit(s[(i + 2) as int])
    &&& is_hex_digit(s[(i + 3) as int])
}

/// Value of the four hex digits at `i`.
pub open spec fn hex4_val(s: Seq<u8>, i: nat) -> nat {
    hex_digit_val(s[i as int]) * 4096 + hex_digit_val(s[(i + 1) as int]) * 256 + hex_digit_val(s[(i + 2) as int])
        * 16 + hex_digit_val(s[(i + 3) as int])
}

/// UTF-8 encoding of a scalar value.
pub open spec fn utf8_enc(cp: nat) -> Seq<u8> {
    if cp < 0x80 {
        seq![cp as u8]
    } else if cp < 0x800 {
        seq![(192 + cp / 64) as u8, (128 + cp % 64) as u8]
    } else if cp < 0x10000 {
        seq![(224 + cp / 4096) as u8, (128 + (cp / 64) % 64) as u8, (128 + cp % 64) as u8]
    } else {
        seq![
            (240 + cp / 262144) as u8,
            (128 + (cp / 4096) % 64) as u8,
            (128 + (cp / 64) % 64) as u8,
            (128 + cp % 64) as u8,
        ]
    }
}

/// String body starting at `i` (the byte after the opening quote): returns
/// the unescaped content and the position after the closing quote. Control
/// bytes must be escaped; `\uXXXX` escapes decode to UTF-8, surrogate pairs
/// combine, lone surrogates are refused.
pub open spec fn parse_string(s: Seq<u8>, i: nat) -> Option<(Seq<u8>, nat)>
    decreases s.len() - i,
{
    if i >= s.len() {
        None
    } else {
        let b = s[i as int];
        if b == 34 {  // closing quote
            Some((Seq::<u8>::empty(), i + 1))
        } else if b == 92 {  // backslash
            if i + 1 >= s.len() {
                None
            } else {
                let e = s[(i + 1) as int];
                if e == 34 || e == 92 || e == 47 {
                    match parse_string(s, i + 2) {
                        Some((c, j)) => Some((seq![e] + c, j)),
                        None => None,
                    }
                } else if e == 98 {  // \b
                    match parse_string(s, i + 2) {
                        Some((c, j)) => Some((seq![8u8] + c, j)),
                        None => None,
                    }
                } else if e == 102 {  // \f
                    match parse_string(s, i + 2) {
                        Some((c, j)) => Some((seq![12u8] + c, j)),
                        None => None,
                    }
                } else if e == 110 {  // \n
                    match parse_string(s, i + 2) {
                        Some((c, j)) => Some((seq![10u8] + c, j)),
                        None => None,
                    }
                } else if e == 114 {  // \r
                    match parse_string(s, i + 2) {
                        Some((c, j)) => Some((seq![13u8] + c, j)),
                        None => None,
                    }
                } else if e == 116 {  // \t
                    match parse_string(s, i + 2) {
                        Some((c, j)) => Some((seq![9u8] + c, j)),
                        None => None,
                    }
                } else if e == 117 {  // \uXXXX
                    if is_hex4(s, i + 2) {
                        let cp = hex4_val(s, i + 2);
                        if 0xD800 <= cp < 0xDC00 {  // leading surrogate: a trailing one must follow
                            if i + 12 <= s.len() && s[(i + 6) as int] == 92 && s[(i + 7) as int] == 117 && is_hex4(
                                s,
                                i + 8,
                            ) {
                                let lo = hex4_val(s, i + 8);
                                if 0xDC00 <= lo < 0xE000 {
                                    match parse_string(s, i + 12) {
                                        Some((c, j)) => Some(
                                            (
                                                utf8_enc(
                                                    (0x10000 + (cp - 0xD800) * 0x400 + (lo - 0xDC00)) as nat,
                                                ) + c,
                                                j,
                                            ),
                                        ),
                                        None => None,
                                    }
                                } else {
                                    None
                                }
                            } else {
                                None
                            }
                        } else if 0xDC00 <= cp < 0xE000 {  // lone trailing surrogate
                            None
                        } else {
                            match parse_string(s, i + 6) {
                                Some((c, j)) => Some((utf8_enc(cp) + c, j)),
                                None => None,
                            }
                        }
                    } else {
                        None
                    }
                } else {
                    None
                }
            }
        } else if b < 32 {  // unescaped control byte
            None
        } else {
            match parse_string(s, i + 1) {
                Some((c, j)) => Some((seq![b] + c, j)),
                None => None,
            }
        }
    }
}

/// End of the fraction part beginning at `i` (present or absent).
pub open spec fn frac_end(s: Seq<u8>, i: nat) -> Option<nat> {
    if i < s.len() && s[i as int] == 46 {  // '.'
        if i + 1 < s.len() && is_digit(s[(i + 1) as int]) {
            Some(digits_end(s, i + 1))
        } else {
            None
        }
    } else {
        Some(i)
    }
}

/// End of the exponent part beginning at `i` (present or absent).
pub open spec fn exp_end(s: Seq<u8>, i: nat) -> Option<nat> {
    if i < s.len() && (s[i as int] == 101 || s[i as int] == 69) {  // 'e' | 'E'
        let j: nat = if i + 1 < s.len() && (s[(i + 1) as int] == 43 || s[(i + 1) as int] == 45) {
            i + 2
        } else {
            i + 1
        };
        if j < s.len() && is_digit(s[j as int]) {
            Some(digits_end(s, j))
        } else {
            None
        }
    } else {
        Some(i)
    }
}

/// End of the number whose first byte (`-` or a digit) stands at `i`:
/// optional sign, integer part without a superfluous leading zero, optional
/// fraction, optional exponent.
pub open spec fn number_end(s: Seq<u8>, i: nat) -> Option<nat> {
    let m: nat = if i < s.len() && s[i as int] == 45 {
        i + 1
    } else {
        i
    };
    if m >= s.len() || !is_digit(s[m as int]) {
        None
    } else {
        let ip: nat = if s[m as int] == 48 {
            m + 1
        } else {
            digits_end(s, m)
        };
        match frac_end(s, ip) {
            Some(fe) => exp_end(s, fe),
            None => None,
        }
    }
}

/// One JSON value whose first byte stands at `i`. `d` is the remaining
/// container budget; reading a `{` or `[` with a budget of one or less is
/// a refusal, and children are read with one less.
pub open spec fn parse_value(s: Seq<u8>, i: nat, d: nat) -> Option<(Jv, nat)>
    decreases s.len() - i, 0int,
{
    if i >= s.len() {
        None
    } else {
        let b = s[i as int];
        if b == 110 {  // 'n' ull
            if i + 4 <= s.len() && s[(i + 1) as int] == 117 && s[(i + 2) as int] == 108 && s[(i + 3) as int] == 108 {
                Some((Jv::Null, i + 4))
            } else {
                None
            }
        } else if b == 116 {  // 't' rue
            if i + 4 <= s.len() && s[(i + 1) as int] == 114 && s[(i + 2) as int] == 117 && s[(i + 3) as int] == 101 {
                Some((Jv::Bool(true), i + 4))
            } else {
                None
            }
        } else if b == 102 {  // 'f' alse
            if i + 5 <= s.len() && s[(i + 1) as int] == 97 && s[(i + 2) as int] == 108 && s[(i + 3) as int] == 115 && s[(i + 4) as int]
                == 101 {
                Some((Jv::Bool(false), i + 5))
            } else {
                None
            }
        } else if b == 34 {  // '"'
            match parse_string(s, i + 1) {
                Some((c, j)) => Some((Jv::Str(c), j)),
                None => None,
            }
        } else if b == 45 || is_digit(b) {
            match number_end(s, i) {
                Some(e) => Some((Jv::Num(s.subrange(i as int, e as int)), e)),
                None => None,
            }
        } else if b == 123 {  // '{'
            if d <= 1 {
                None
            } else {
                let j = advp(s, i, ws_end(s, i + 1));
                if j < s.len() && s[j as int] == 125 {  // '}'
                    Some((Jv::Obj(Seq::<JMember>::empty()), j + 1))
                } else {
                    match parse_members(s, j, (d - 1) as nat) {
                        Some((ms, e)) => Some((Jv::Obj(ms), e)),
                        None => None,
                    }
                }
            }
        } else if b == 91 {  // '['
            if d <= 1 {
                None
            } else {
                let j = advp(s, i, ws_end(s, i + 1));
                if j < s.len() && s[j as int] == 93 {  // ']'
                    Some((Jv::Arr, j + 1))
                } else {
                    match parse_elems(s, j, (d - 1) as nat) {
                        Some(e) => Some((Jv::Arr, e)),
                        None => None,
                    }
                }
            }
        } else {
            None
        }
    }
}

/// One object member whose key's opening quote stands at `i`: returns the
/// member, the position to continue at, and whether a comma promised a
/// further member.
pub open spec fn parse_member_one(s: Seq<u8>, i: nat, d: nat) -> Option<(JMember, nat, bool)>
    decreases s.len() - i, 1int,
{
    if i >= s.len() || s[i as int] != 34 {
        None
    } else {
        match parse_string(s, i + 1) {
            None => None,
            Some((k, j)) => {
                let c = advp(s, i, ws_end(s, j));
                if c >= s.len() || s[c as int] != 58 {  // ':'
                    None
                } else {
                    let v0 = advp(s, i, ws_end(s, c + 1));
                    match parse_value(s, v0, d) {
                        None => None,
                        Some((v, e)) => {
                            let m = JMember { key: k, val: v, vstart: v0 as int, vend: e as int };
                            let p = advp(s, i, ws_end(s, e));
                            if p >= s.len() {
                                None
                            } else if s[p as int] == 44 {  // ','
                                Some((m, advp(s, i, ws_end(s, p + 1)), true))
                            } else if s[p as int] == 125 {  // '}'
                                Some((m, p + 1, false))
                            } else {
                                None
                            }
                        },
                    }
                }
            },
        }
    }
}

/// The members of a non-empty object body, first key at `i`; returns them
/// in order together with the position after the closing brace.
pub open spec fn parse_members(s: Seq<u8>, i: nat, d: nat) -> Option<(Seq<JMember>, nat)>
    decreases s.len() - i, 2int,
{
    if i >= s.len() {
        None
    } else {
        match parse_member_one(s, i, d) {
            None => None,
            Some((m, next, more)) => if more {
                match parse_members(s, advp(s, i, next), d) {
                    Some((rest, e)) => Some((seq![m] + rest, e)),
                    None => None,
                }
            } else {
                Some((seq![m], next))
            },
        }
    }
}

/// The elements of a non-empty array body, first element at `i`; returns
/// the position after the closing bracket.
pub open spec fn parse_elems(s: Seq<u8>, i: nat, d: nat) -> Option<nat>
    decreases s.len() - i, 1int,
{
    if i >= s.len() {
        None
    } else {
        match parse_value(s, i, d) {
            None => None,
            Some((_v, e)) => {
                let p = advp(s, i, ws_end(s, e));
                if p >= s.len() {
                    None
                } else if s[p as int] == 44 {  // ','
                    parse_elems(s, advp(s, i, ws_end(s, p + 1)), d)
                } else if s[p as int] == 93 {  // ']'
                    Some(p + 1)
                } else {
                    None
                }
            },
        }
    }
}

/// The whole input as exactly one JSON value amid whitespace.
pub open spec fn spec_parse_top(s: Seq<u8>) -> Option<Jv> {
    match parse_value(s, ws_end(s, 0), DEPTH_LIMIT as nat) {
        Some((v, e)) => if ws_end(s, e) == s.len() {
            Some(v)
        } else {
            None
        },
        None => None,
    }
}

/// Whether `s` is the text of exactly one JSON value: what a payload handed
/// to the dispatcher must be.
pub open spec fn spec_is_json_text(s: Seq<u8>) -> bool {
    spec_parse_top(s) is Some
}

// ---------------------------------------------------------------------------
// The parser: executable mirrors of the grammar above
// ---------------------------------------------------------------------------

/// Scan past whitespace from `i`.
fn ws_to(s: &[u8], i: usize) -> (r: usize)
    requires
        i <= s@.len(),
    ensures
        r == ws_end(s@, i as nat),
        i <= r <= s@.len(),
{
    let n = s.len();
    let mut cur: usize = i;
    while cur < n
        invariant
            i <= cur <= n,
            n == s@.len(),
            ws_end(s@, i as nat) == ws_end(s@, cur as nat),
        ensures
            i <= cur <= n,
            ws_end(s@, i as nat) == ws_end(s@, cur as nat),
            cur == n || !is_json_ws(s@[cur as int]),
        decreases n - cur,
    {
        let b = s[cur];
        if b == 32 || b == 9 || b == 10 || b == 13 {
            cur = cur + 1;
        } else {
            break ;
        }
    }
    cur
}

/// Scan past decimal digits from `i`.
fn digits_to(s: &[u8], i: usize) -> (r: usize)
    requires
        i <= s@.len(),
    ensures
        r == digits_end(s@, i as nat),
        i <= r <= s@.len(),
{
    let n = s.len();
    let mut cur: usize = i;
    while cur < n
        invariant
            i <= cur <= n,
            n == s@.len(),
            digits_end(s@, i as nat) == digits_end(s@, cur as nat),
        ensures
            i <= cur <= n,
            digits_end(s@, i as nat) == digits_end(s@, cur as nat),
            cur == n || !is_digit(s@[cur as int]),
        decreases n - cur,
    {
        let b = s[cur];
        if 48 <= b && b <= 57 {
            cur = cur + 1;
        } else {
            break ;
        }
    }
    cur
}

/// Value of one hex digit, or nothing.
fn hex_val_ex(b: u8) -> (r: Option<u8>)
    ensures
        match r {
            Some(v) => is_hex_digit(b) && v == hex_digit_val(b),
            None => !is_hex_digit(b),
        },
{
    if 48 <= b && b <= 57 {
        Some(b - 48)
    } else if 97 <= b && b <= 102 {
        Some(b - 87)
    } else if 65 <= b && b <= 70 {
        Some(b - 55)
    } else {
        None
    }
}

/// The four hex digits at `i`, as a value, when they are there.
fn hex4_ex(s: &[u8], i: usize) -> (r: Option<u32>)
    requires
        i <= s@.len(),
    ensures
        match r {
            Some(v) => is_hex4(s@, i as nat) && v == hex4_val(s@, i as nat) && v < 0x10000,
            None => !is_hex4(s@, i as nat),
        },
{
    if s.len() - i < 4 {
        return None;
    }
    let h0 = hex_val_ex(s[i]);
    let h1 = hex_val_ex(s[i + 1]);
    let h2 = hex_val_ex(s[i + 2]);
    let h3 = hex_val_ex(s[i + 3]);
    match (h0, h1, h2, h3) {
        (Some(a), Some(b), Some(c), Some(d)) => Some(
            (a as u32) * 4096 + (b as u32) * 256 + (c as u32) * 16 + (d as u32),
        ),
        _ => None,
    }
}

/// Append the UTF-8 encoding of scalar value `cp`.
fn push_utf8(out: &mut Vec<u8>, cp: u32)
    requires
        cp < 0x110000,
    ensures
        final(out)@ == old(out)@ + utf8_enc(cp as nat),
{
    if cp < 0x80 {
        out.push(cp as u8);
    } else if cp < 0x800 {
        out.push(192 + (cp / 64) as u8);
        out.push(128 + (cp % 64) as u8);
    } else if cp < 0x10000 {
        out.push(224 + (cp / 4096) as u8);
        out.push(128 + ((cp / 64) % 64) as u8);
        out.push(128 + (cp % 64) as u8);
    } else {
        out.push(240 + (cp / 262144) as u8);
        out.push(128 + ((cp / 4096) % 64) as u8);
        out.push(128 + ((cp / 64) % 64) as u8);
        out.push(128 + (cp % 64) as u8);
    }
    proof {
        assert(final(out)@ =~= old(out)@ + utf8_enc(cp as nat));
    }
}

/// String body from `i` (after the opening quote): unescaped content and
/// the position after the closing quote, or nothing when the grammar
/// refuses it.
fn parse_string_ex(s: &[u8], i: usize) -> (r: Option<(Vec<u8>, usize)>)
    requires
        i <= s@.len(),
    ensures
        match parse_string(s@, i as nat) {
            Some(p) => {
                &&& r matches Some(q)
                &&& q.0@ == p.0
                &&& q.1 == p.1
                &&& i < p.1 <= s@.len()
            },
            None => r is None,
        },
{
    let n = s.len();
    let mut cur: usize = i;
    let mut acc: Vec<u8> = Vec::new();
    loop
        invariant
            i <= cur <= n,
            n == s@.len(),
            match parse_string(s@, cur as nat) {
                Some(p) => {
                    &&& parse_string(s@, i as nat) matches Some(q)
                    &&& q.0 == acc@ + p.0
                    &&& q.1 == p.1
                },
                None => parse_string(s@, i as nat) is None,
            },
        decreases n - cur,
    {
        if cur >= n {
            return None;
        }
        let b = s[cur];
        if b == 34 {
            proof {
                assert(acc@ + Seq::<u8>::empty() =~= acc@);
            }
            return Some((acc, cur + 1));
        } else if b == 92 {
            if cur + 1 >= n {
                return None;
            }
            let ghost prev = cur as nat;
            let ghost acc0 = acc@;
            let e = s[cur + 1];
            if e == 34 || e == 92 || e == 47 {
                acc.push(e);
                cur = cur + 2;
                proof {
                    assert(acc@ =~= acc0 + seq![e]);
                    lemma_string_step_glue(s@, i as nat, prev, acc0, seq![e], cur as nat, acc@);
                }
            } else if e == 98 {
                acc.push(8);
                cur = cur + 2;
                proof {
                    assert(acc@ =~= acc0 + seq![8u8]);
                    lemma_string_step_glue(s@, i as nat, prev, acc0, seq![8u8], cur as nat, acc@);
                }
            } else if e == 102 {
                acc.push(12);
                cur = cur + 2;
                proof {
                    assert(acc@ =~= acc0 + seq![12u8]);
                    lemma_string_step_glue(s@, i as nat, prev, acc0, seq![12u8], cur as nat, acc@);
                }
            } else if e == 110 {
                acc.push(10);
                cur = cur + 2;
                proof {
                    assert(acc@ =~= acc0 + seq![10u8]);
                    lemma_string_step_glue(s@, i as nat, prev, acc0, seq![10u8], cur as nat, acc@);
                }
            } else if e == 114 {
                acc.push(13);
                cur = cur + 2;
                proof {
                    assert(acc@ =~= acc0 + seq![13u8]);
                    lemma_string_step_glue(s@, i as nat, prev, acc0, seq![13u8], cur as nat, acc@);
                }
            } else if e == 116 {
                acc.push(9);
                cur = cur + 2;
                proof {
                    assert(acc@ =~= acc0 + seq![9u8]);
                    lemma_string_step_glue(s@, i as nat, prev, acc0, seq![9u8], cur as nat, acc@);
                }
            } else if e == 117 {
                match hex4_ex(s, cur + 2) {
                    None => {
                        return None;
                    },
                    Some(cp) => {
                        if 0xD800 <= cp && cp < 0xDC00 {
                            if n - cur < 12 {
                                return None;
                            }
                            if !(s[cur + 6] == 92 && s[cur + 7] == 117) {
                                return None;
                            }
                            match hex4_ex(s, cur + 8) {
                                None => {
                                    return None;
                                },
                                Some(lo) => {
                                    if !(0xDC00 <= lo && lo < 0xE000) {
                                        return None;
                                    }
                                    let scalar: u32 = 0x10000 + (cp - 0xD800) * 0x400 + (lo
                                        - 0xDC00);
                                    push_utf8(&mut acc, scalar);
                                    cur = cur + 12;
                                    proof {
                                        lemma_string_step_glue(
                                            s@,
                                            i as nat,
                                            prev,
                                            acc0,
                                            utf8_enc(scalar as nat),
                                            cur as nat,
                                            acc@,
                                        );
                                    }
                                },
                            }
                        } else if 0xDC00 <= cp && cp < 0xE000 {
                            return None;
                        } else {
                            push_utf8(&mut acc, cp);
                            cur = cur + 6;
                            proof {
                                lemma_string_step_glue(
                                    s@,
                                    i as nat,
                                    prev,
                                    acc0,
                                    utf8_enc(cp as nat),
                                    cur as nat,
                                    acc@,
                                );
                            }
                        }
                    },
                }
            } else {
                return None;
            }
        } else if b < 32 {
            return None;
        } else {
            let ghost prev = cur as nat;
            let ghost acc0 = acc@;
            acc.push(b);
            cur = cur + 1;
            proof {
                assert(acc@ =~= acc0 + seq![b]);
                lemma_string_step_glue(s@, i as nat, prev, acc0, seq![b], cur as nat, acc@);
            }
        }
    }
}

/// One unescaping step composes: when the body from `prev` reads as `piece`
/// followed by the body from `next`, an accumulator extended with `piece`
/// still glues the whole parse from `start` together.
proof fn lemma_string_step_glue(
    s: Seq<u8>,
    start: nat,
    prev: nat,
    acc0: Seq<u8>,
    piece: Seq<u8>,
    next: nat,
    acc1: Seq<u8>,
)
    requires
        acc1 == acc0 + piece,
        parse_string(s, prev) == (match parse_string(s, next) {
            Some((c, j)) => Some(((piece + c), j)),
            None => None::<(Seq<u8>, nat)>,
        }),
        match parse_string(s, prev) {
            Some(p) => {
                &&& parse_string(s, start) matches Some(q)
                &&& q.0 == acc0 + p.0
                &&& q.1 == p.1
            },
            None => parse_string(s, start) is None,
        },
    ensures
        match parse_string(s, next) {
            Some(p) => {
                &&& parse_string(s, start) matches Some(q)
                &&& q.0 == acc1 + p.0
                &&& q.1 == p.1
            },
            None => parse_string(s, start) is None,
        },
{
    match parse_string(s, next) {
        Some((c, j)) => {
            assert(acc0 + (piece + c) =~= (acc0 + piece) + c);
        },
        None => {
        },
    }
}

/// Digit scanning stays inside the input and never goes backward.
proof fn lemma_digits_end_bounds(s: Seq<u8>, i: nat)
    requires
        i <= s.len(),
    ensures
        i <= digits_end(s, i) <= s.len(),
    decreases s.len() - i,
{
    if i < s.len() && is_digit(s[i as int]) {
        lemma_digits_end_bounds(s, i + 1);
    }
}

/// End of the number whose first byte stands at `i`, or nothing when the
/// grammar refuses it.
#[verifier::rlimit(50)]
fn skip_number_ex(s: &[u8], i: usize) -> (r: Option<usize>)
    requires
        i <= s@.len(),
    ensures
        match number_end(s@, i as nat) {
            Some(e) => r matches Some(j) && j == e && i < e <= s@.len(),
            None => r is None,
        },
{
    let n = s.len();
    let m: usize = if i < n && s[i] == 45 {
        i + 1
    } else {
        i
    };
    if m >= n {
        return None;
    }
    let b = s[m];
    if !(48 <= b && b <= 57) {
        return None;
    }
    let ip: usize = if b == 48 {
        m + 1
    } else {
        digits_to(s, m)
    };
    proof {
        if b != 48 {
            assert(digits_end(s@, m as nat) == digits_end(s@, (m + 1) as nat));
            lemma_digits_end_bounds(s@, (m + 1) as nat);
        }
    }
    let fe: usize;
    if ip < n && s[ip] == 46 {
        if ip + 1 < n && 48 <= s[ip + 1] && s[ip + 1] <= 57 {
            fe = digits_to(s, ip + 1);
            proof {
                assert(digits_end(s@, (ip + 1) as nat) == digits_end(s@, (ip + 2) as nat));
                lemma_digits_end_bounds(s@, (ip + 2) as nat);
            }
        } else {
            return None;
        }
    } else {
        fe = ip;
    }
    if fe < n && (s[fe] == 101 || s[fe] == 69) {
        let j: usize = if fe + 1 < n && (s[fe + 1] == 43 || s[fe + 1] == 45) {
            fe + 2
        } else {
            fe + 1
        };
        if j < n && 48 <= s[j] && s[j] <= 57 {
            let e = digits_to(s, j);
            proof {
                assert(digits_end(s@, j as nat) == digits_end(s@, (j + 1) as nat));
                lemma_digits_end_bounds(s@, (j + 1) as nat);
            }
            Some(e)
        } else {
            None
        }
    } else {
        Some(fe)
    }
}

/// The value of a digit lexeme grows with its length.
proof fn lemma_digits_prefix_monotone(lex: Seq<u8>, k1: nat, k2: nat)
    requires
        k1 <= k2 <= lex.len(),
        forall|j: int| 0 <= j < k2 ==> is_digit(#[trigger] lex[j]),
    ensures
        digits_prefix_val(lex, k1) <= digits_prefix_val(lex, k2),
    decreases k2,
{
    if k2 > k1 {
        lemma_digits_prefix_monotone(lex, k1, (k2 - 1) as nat);
        assert(is_digit(lex[k2 - 1]));
    }
}

/// The bytes `[a, b)` as an unsigned 64-bit value: all digits, in range.
fn parse_uint_ex(s: &[u8], a: usize, b: usize) -> (r: Option<u64>)
    requires
        a <= b <= s@.len(),
    ensures
        r == uint_of_lexeme(s@.subrange(a as int, b as int)),
{
    let ghost lex = s@.subrange(a as int, b as int);
    if a == b {
        return None;
    }
    let mut k: usize = a;
    let mut acc: u128 = 0;
    while k < b
        invariant
            a <= k <= b <= s@.len(),
            lex == s@.subrange(a as int, b as int),
            forall|j: int| 0 <= j < k - a ==> is_digit(#[trigger] lex[j]),
            acc == digits_prefix_val(lex, (k - a) as nat),
            acc <= u64::MAX,
        decreases b - k,
    {
        let c = s[k];
        if !(48 <= c && c <= 57) {
            proof {
                assert(!is_digit(lex[k - a]));
            }
            return None;
        }
        let d: u128 = (c - 48) as u128;
        proof {
            assert(digits_prefix_val(lex, (k + 1 - a) as nat) == digits_prefix_val(
                lex,
                (k - a) as nat,
            ) * 10 + (lex[k - a] - 48) as nat);
        }
        acc = acc * 10 + d;
        k = k + 1;
        if acc > u64::MAX as u128 {
            proof {
                if is_uint_lexeme(lex) {
                    lemma_digits_prefix_monotone(lex, (k - a) as nat, lex.len());
                }
            }
            return None;
        }
    }
    proof {
        assert((k - a) as nat == lex.len());
    }
    Some(acc as u64)
}

/// Walk past one JSON value whose first byte stands at `i`.
fn skip_value_ex(s: &[u8], i: usize, d: u32) -> (r: Option<usize>)
    requires
        i <= s@.len(),
    ensures
        match parse_value(s@, i as nat, d as nat) {
            Some(p) => r matches Some(j) && j == p.1 && i < p.1 <= s@.len(),
            None => r is None,
        },
    decreases s@.len() - i, 0int,
{
    let n = s.len();
    if i >= n {
        return None;
    }
    let b = s[i];
    if b == 110 {  // 'n'
        if n - i >= 4 && s[i + 1] == 117 && s[i + 2] == 108 && s[i + 3] == 108 {
            Some(i + 4)
        } else {
            None
        }
    } else if b == 116 {  // 't'
        if n - i >= 4 && s[i + 1] == 114 && s[i + 2] == 117 && s[i + 3] == 101 {
            Some(i + 4)
        } else {
            None
        }
    } else if b == 102 {  // 'f'
        if n - i >= 5 && s[i + 1] == 97 && s[i + 2] == 108 && s[i + 3] == 115 && s[i + 4] == 101 {
            Some(i + 5)
        } else {
            None
        }
    } else if b == 34 {  // '"'
        match parse_string_ex(s, i + 1) {
            Some(p) => Some(p.1),
            None => None,
        }
    } else if b == 45 || (48 <= b && b <= 57) {
        skip_number_ex(s, i)
    } else if b == 123 {  // '{'
        if d <= 1 {
            return None;
        }
        let j = ws_to(s, i + 1);
        proof {
            assert(advp(s@, i as nat, ws_end(s@, (i + 1) as nat)) == j as nat);
        }
        if j < n && s[j] == 125 {  // '}'
            Some(j + 1)
        } else {
            skip_members_ex(s, j, d - 1)
        }
    } else if b == 91 {  // '['
        if d <= 1 {
            return None;
        }
        let j = ws_to(s, i + 1);
        proof {
            assert(advp(s@, i as nat, ws_end(s@, (i + 1) as nat)) == j as nat);
        }
        if j < n && s[j] == 93 {  // ']'
            Some(j + 1)
        } else {
            skip_elems_ex(s, j, d - 1)
        }
    } else {
        None
    }
}

/// Walk past the members of a non-empty object body, first key at `i`.
fn skip_members_ex(s: &[u8], i: usize, d: u32) -> (r: Option<usize>)
    requires
        i <= s@.len(),
    ensures
        match parse_members(s@, i as nat, d as nat) {
            Some(p) => r matches Some(j) && j == p.1 && i < p.1 <= s@.len(),
            None => r is None,
        },
    decreases s@.len() - i, 2int,
{
    let n = s.len();
    let mut cur: usize = i;
    loop
        invariant
            i <= cur <= n,
            n == s@.len(),
            match parse_members(s@, cur as nat, d as nat) {
                Some(p) => {
                    &&& parse_members(s@, i as nat, d as nat) matches Some(q)
                    &&& q.1 == p.1
                },
                None => parse_members(s@, i as nat, d as nat) is None,
            },
        decreases n - cur,
    {
        if cur >= n {
            return None;
        }
        if s[cur] != 34 {
            return None;
        }
        match parse_string_ex(s, cur + 1) {
            None => {
                return None;
            },
            Some(kp) => {
                let j = kp.1;
                let c = ws_to(s, j);
                proof {
                    assert(advp(s@, cur as nat, ws_end(s@, j as nat)) == c as nat);
                }
                if c >= n || s[c] != 58 {
                    return None;
                }
                let v0 = ws_to(s, c + 1);
                proof {
                    assert(advp(s@, cur as nat, ws_end(s@, (c + 1) as nat)) == v0 as nat);
                }
                match skip_value_ex(s, v0, d) {
                    None => {
                        return None;
                    },
                    Some(e) => {
                        let p = ws_to(s, e);
                        proof {
                            assert(advp(s@, cur as nat, ws_end(s@, e as nat)) == p as nat);
                        }
                        if p >= n {
                            return None;
                        }
                        if s[p] == 44 {  // ','
                            let nx = ws_to(s, p + 1);
                            proof {
                                assert(advp(s@, cur as nat, ws_end(s@, (p + 1) as nat))
                                    == nx as nat);
                                assert(parse_member_one(s@, cur as nat, d as nat) matches Some(t)
                                    && t.1 == nx as nat && t.2 == true);
                                lemma_members_glue(s@, i as nat, cur as nat, nx as nat, d as nat);
                            }
                            cur = nx;
                        } else if s[p] == 125 {  // '}'
                            proof {
                                assert(parse_member_one(s@, cur as nat, d as nat) matches Some(t)
                                    && t.1 == (p + 1) as nat && t.2 == false);
                                assert(parse_members(s@, cur as nat, d as nat) matches Some(q)
                                    && q.1 == (p + 1) as nat);
                            }
                            return Some(p + 1);
                        } else {
                            return None;
                        }
                    },
                }
            },
        }
    }
}

/// When one member ends in a comma at `cur` and hands on to `nx`, the end
/// of the whole member list from `i` is the end of the list from `nx`.
proof fn lemma_members_glue(s: Seq<u8>, i: nat, cur: nat, nx: nat, d: nat)
    requires
        cur < s.len(),
        parse_member_one(s, cur, d) matches Some(t) && t.1 == nx && t.2 == true,
        advp(s, cur, nx) == nx,
        match parse_members(s, cur, d) {
            Some(p) => parse_members(s, i, d) matches Some(q) && q.1 == p.1,
            None => parse_members(s, i, d) is None,
        },
    ensures
        match parse_members(s, nx, d) {
            Some(p) => parse_members(s, i, d) matches Some(q) && q.1 == p.1,
            None => parse_members(s, i, d) is None,
        },
{
    assert(parse_members(s, cur, d) is Some <==> parse_members(s, nx, d) is Some);
    if parse_members(s, nx, d) is Some {
        assert(parse_members(s, cur, d)->Some_0.1 == parse_members(s, nx, d)->Some_0.1);
    }
}

/// Walk past the elements of a non-empty array body, first element at `i`.
fn skip_elems_ex(s: &[u8], i: usize, d: u32) -> (r: Option<usize>)
    requires
        i <= s@.len(),
    ensures
        match parse_elems(s@, i as nat, d as nat) {
            Some(e) => r matches Some(j) && j == e && i < e <= s@.len(),
            None => r is None,
        },
    decreases s@.len() - i, 1int,
{
    let n = s.len();
    let mut cur: usize = i;
    loop
        invariant
            i <= cur <= n,
            n == s@.len(),
            parse_elems(s@, i as nat, d as nat) == parse_elems(s@, cur as nat, d as nat),
        decreases n - cur,
    {
        if cur >= n {
            return None;
        }
        match skip_value_ex(s, cur, d) {
            None => {
                return None;
            },
            Some(e) => {
                let p = ws_to(s, e);
                proof {
                    assert(advp(s@, cur as nat, ws_end(s@, e as nat)) == p as nat);
                }
                if p >= n {
                    return None;
                }
                if s[p] == 44 {  // ','
                    let nx = ws_to(s, p + 1);
                    proof {
                        assert(advp(s@, cur as nat, ws_end(s@, (p + 1) as nat)) == nx as nat);
                        assert(parse_elems(s@, cur as nat, d as nat) == parse_elems(
                            s@,
                            nx as nat,
                            d as nat,
                        ));
                    }
                    cur = nx;
                } else if s[p] == 93 {  // ']'
                    proof {
                        assert(parse_elems(s@, cur as nat, d as nat) == Some((p + 1) as nat));
                    }
                    return Some(p + 1);
                } else {
                    return None;
                }
            },
        }
    }
}

// ---------------------------------------------------------------------------
// Classification of a parsed line
// ---------------------------------------------------------------------------

/// Last member with the given key, if any: a repeated key reads as its last
/// occurrence.
pub open spec fn obj_lookup(ms: Seq<JMember>, k: Seq<u8>) -> Option<JMember>
    decreases ms.len(),
{
    if ms.len() == 0 {
        None
    } else if ms.last().key == k {
        Some(ms.last())
    } else {
        obj_lookup(ms.drop_last(), k)
    }
}

/// All digits, at least one.
pub open spec fn is_uint_lexeme(lex: Seq<u8>) -> bool {
    lex.len() >= 1 && forall|j: int| 0 <= j < lex.len() ==> is_digit(#[trigger] lex[j])
}

/// Value of the digit prefix `lex[..k]`.
pub open spec fn digits_prefix_val(lex: Seq<u8>, k: nat) -> nat
    decreases k,
{
    if k == 0 {
        0
    } else {
        digits_prefix_val(lex, (k - 1) as nat) * 10 + (lex[(k - 1) as int] - 48) as nat
    }
}

/// Numeric value of a digit lexeme.
pub open spec fn lex_val(lex: Seq<u8>) -> nat {
    digits_prefix_val(lex, lex.len())
}

/// How a member read as a string field presents: absent, a string with
/// this content, or present as something that is not a string.
pub enum StrFieldSpec {
    Missing,
    Text(Seq<u8>),
    Other,
}

/// How a member read as an unsigned-integer field presents: absent, an
/// unsigned integer in range, or present as anything else (a fraction, an
/// exponent, a sign, an overflow, a non-number).
pub enum NumFieldSpec {
    Missing,
    UInt(u64),
    Other,
}

/// How the `data` member presents: absent, an explicit `null`, or the raw
/// text of its value.
pub enum DataFieldSpec {
    Missing,
    NullVal,
    Raw(Seq<u8>),
}

/// How the `error` member presents: absent, `null`, an object read through
/// its `code` and `message` members, or any other value.
pub enum ErrFieldSpec {
    Missing,
    NullVal,
    Fields(StrFieldSpec, StrFieldSpec),
    Other,
}

pub open spec fn str_field_of(ms: Seq<JMember>, k: Seq<u8>) -> StrFieldSpec {
    match obj_lookup(ms, k) {
        None => StrFieldSpec::Missing,
        Some(m) => match m.val {
            Jv::Str(t) => StrFieldSpec::Text(t),
            _ => StrFieldSpec::Other,
        },
    }
}

/// The lexeme as an unsigned 64-bit value, when it is all digits and fits.
pub open spec fn uint_of_lexeme(lex: Seq<u8>) -> Option<u64> {
    if is_uint_lexeme(lex) && lex_val(lex) <= u64::MAX {
        Some(lex_val(lex) as u64)
    } else {
        None
    }
}

pub open spec fn num_field_of(ms: Seq<JMember>, k: Seq<u8>) -> NumFieldSpec {
    match obj_lookup(ms, k) {
        None => NumFieldSpec::Missing,
        Some(m) => match m.val {
            Jv::Num(lex) => match uint_of_lexeme(lex) {
                Some(v) => NumFieldSpec::UInt(v),
                None => NumFieldSpec::Other,
            },
            _ => NumFieldSpec::Other,
        },
    }
}

pub open spec fn data_field_of(s: Seq<u8>, ms: Seq<JMember>) -> DataFieldSpec {
    match obj_lookup(ms, key_data()) {
        None => DataFieldSpec::Missing,
        Some(m) => match m.val {
            Jv::Null => DataFieldSpec::NullVal,
            _ => DataFieldSpec::Raw(s.subrange(m.vstart, m.vend)),
        },
    }
}

pub open spec fn err_field_of(ms: Seq<JMember>) -> ErrFieldSpec {
    match obj_lookup(ms, key_error()) {
        None => ErrFieldSpec::Missing,
        Some(m) => match m.val {
            Jv::Null => ErrFieldSpec::NullVal,
            Jv::Obj(ems) => ErrFieldSpec::Fields(
                str_field_of(ems, key_code()),
                str_field_of(ems, key_message()),
            ),
            _ => ErrFieldSpec::Other,
        },
    }
}

/// The key `status`.
pub open spec fn key_status() -> Seq<u8> {
    seq![115u8, 116u8, 97u8, 116u8, 117u8, 115u8]
}

/// The key `version`.
pub open spec fn key_version() -> Seq<u8> {
    seq![118u8, 101u8, 114u8, 115u8, 105u8, 111u8, 110u8]
}

/// The key `pid`.
pub open spec fn key_pid() -> Seq<u8> {
    seq![112u8, 105u8, 100u8]
}

/// The key `id`.
pub open spec fn key_id() -> Seq<u8> {
    seq![105u8, 100u8]
}

/// The key `data`.
pub open spec fn key_data() -> Seq<u8> {
    seq![100u8, 97u8, 116u8, 97u8]
}

/// The key `error`.
pub open spec fn key_error() -> Seq<u8> {
    seq![101u8, 114u8, 114u8, 111u8, 114u8]
}

/// The key `code`.
pub open spec fn key_code() -> Seq<u8> {
    seq![99u8, 111u8, 100u8, 101u8]
}

/// The key `message`.
pub open spec fn key_message() -> Seq<u8> {
    seq![109u8, 101u8, 115u8, 115u8, 97u8, 103u8, 101u8]
}

/// The status value `ready`.
pub open spec fn lit_ready() -> Seq<u8> {
    seq![114u8, 101u8, 97u8, 100u8, 121u8]
}

/// The status value `success`.
pub open spec fn lit_success() -> Seq<u8> {
    seq![115u8, 117u8, 99u8, 99u8, 101u8, 115u8, 115u8]
}

/// What one line of the primary output stream means.
pub enum LineClass {
    Ready { version: Seq<u8>, pid: u32 },
    Response { id: u64, status: Seq<u8>, data: Option<Seq<u8>>, error: Option<(Seq<u8>, Seq<u8>)> },
    Diagnostic,
}

/// A line whose status member is the string `ready` announces the worker:
/// it needs a string `version` and an unsigned `pid` in range, else it is
/// no protocol message.
pub open spec fn spec_classify_ready(ms: Seq<JMember>) -> LineClass {
    match (str_field_of(ms, key_version()), num_field_of(ms, key_pid())) {
        (StrFieldSpec::Text(v), NumFieldSpec::UInt(p)) => if p <= u32::MAX {
            LineClass::Ready { version: v, pid: p as u32 }
        } else {
            LineClass::Diagnostic
        },
        _ => LineClass::Diagnostic,
    }
}

/// Any other object is a response when it carries an unsigned `id` in range
/// and a string `status`; `data` may be absent or `null` (no payload) or
/// any value (passed on as its raw text); `error`, when present and not
/// `null`, must be an object with string `code` and `message`.
pub open spec fn spec_classify_response(s: Seq<u8>, ms: Seq<JMember>) -> LineClass {
    match (num_field_of(ms, key_id()), str_field_of(ms, key_status())) {
        (NumFieldSpec::UInt(id), StrFieldSpec::Text(st)) => {
            let data = match data_field_of(s, ms) {
                DataFieldSpec::Missing => None,
                DataFieldSpec::NullVal => None,
                DataFieldSpec::Raw(b) => Some(b),
            };
            match err_field_of(ms) {
                ErrFieldSpec::Missing => LineClass::Response { id, status: st, data, error: None },
                ErrFieldSpec::NullVal => LineClass::Response { id, status: st, data, error: None },
                ErrFieldSpec::Fields(cf, mf) => match (cf, mf) {
                    (StrFieldSpec::Text(c), StrFieldSpec::Text(m)) => LineClass::Response {
                        id,
                        status: st,
                        data,
                        error: Some((c, m)),
                    },
                    _ => LineClass::Diagnostic,
                },
                ErrFieldSpec::Other => LineClass::Diagnostic,
            }
        },
        _ => LineClass::Diagnostic,
    }
}

/// What a line of the worker's primary output stream is: a handshake, a
/// correlated response, or unclassified diagnostic text. Anything that is
/// not exactly one JSON object with the required members — malformed or
/// partial JSON included — is diagnostic text, never an error.
pub open spec fn spec_classify(s: Seq<u8>) -> LineClass {
    match spec_parse_top(s) {
        Some(Jv::Obj(ms)) => if str_field_of(ms, key_status()) == StrFieldSpec::Text(lit_ready()) {
            spec_classify_ready(ms)
        } else {
            spec_classify_response(s, ms)
        },
        _ => LineClass::Diagnostic,
    }
}

// ---------------------------------------------------------------------------
// The classifier: reading the members a protocol message is made of
// ---------------------------------------------------------------------------

/// Executable summary of a member read as a string field.
enum StrField {
    Missing,
    Text(Vec<u8>),
    Other,
}

spec fn str_field_view(f: StrField) -> StrFieldSpec {
    match f {
        StrField::Missing => StrFieldSpec::Missing,
        StrField::Text(v) => StrFieldSpec::Text(v@),
        StrField::Other => StrFieldSpec::Other,
    }
}

/// Executable summary of a member read as an unsigned-integer field.
enum NumField {
    Missing,
    UIntVal(u64),
    Other,
}

spec fn num_field_view(f: NumField) -> NumFieldSpec {
    match f {
        NumField::Missing => NumFieldSpec::Missing,
        NumField::UIntVal(v) => NumFieldSpec::UInt(v),
        NumField::Other => NumFieldSpec::Other,
    }
}

/// Executable summary of the `data` member.
enum DataField {
    Missing,
    NullData,
    Raw(Vec<u8>),
}

spec fn data_field_view(f: DataField) -> DataFieldSpec {
    match f {
        DataField::Missing => DataFieldSpec::Missing,
        DataField::NullData => DataFieldSpec::NullVal,
        DataField::Raw(v) => DataFieldSpec::Raw(v@),
    }
}

/// Executable summary of the `error` member.
enum ErrField {
    Missing,
    NullErr,
    Fields(StrField, StrField),
    Other,
}

spec fn err_field_view(f: ErrField) -> ErrFieldSpec {
    match f {
        ErrField::Missing => ErrFieldSpec::Missing,
        ErrField::NullErr => ErrFieldSpec::NullVal,
        ErrField::Fields(c, m) => ErrFieldSpec::Fields(str_field_view(c), str_field_view(m)),
        ErrField::Other => ErrFieldSpec::Other,
    }
}

/// Appending a member reads as: the new member when its key matches,
/// otherwise whatever the list read as before.
proof fn lemma_obj_lookup_push(ms: Seq<JMember>, m: JMember, k: Seq<u8>)
    ensures
        obj_lookup(ms.push(m), k) == (if m.key == k {
            Some(m)
        } else {
            obj_lookup(ms, k)
        }),
{
    assert(ms.push(m).last() == m);
    assert(ms.push(m).drop_last() =~= ms);
}

fn is_key_status(k: &[u8]) -> (b: bool)
    ensures
        b == (k@ == key_status()),
{
    let r = k.len() == 6 && k[0] == 115 && k[1] == 116 && k[2] == 97 && k[3] == 116 && k[4] == 117
        && k[5] == 115;
    proof {
        if r {
            assert(k@ =~= key_status());
        }
    }
    r
}

fn is_key_version(k: &[u8]) -> (b: bool)
    ensures
        b == (k@ == key_version()),
{
    let r = k.len() == 7 && k[0] == 118 && k[1] == 101 && k[2] == 114 && k[3] == 115 && k[4] == 105
        && k[5] == 111 && k[6] == 110;
    proof {
        if r {
            assert(k@ =~= key_version());
        }
    }
    r
}

fn is_key_pid(k: &[u8]) -> (b: bool)
    ensures
        b == (k@ == key_pid()),
{
    let r = k.len() == 3 && k[0] == 112 && k[1] == 105 && k[2] == 100;
    proof {
        if r {
            assert(k@ =~= key_pid());
        }
    }
    r
}

fn is_key_id(k: &[u8]) -> (b: bool)
    ensures
        b == (k@ == key_id()),
{
    let r = k.len() == 2 && k[0] == 105 && k[1] == 100;
    proof {
        if r {
            assert(k@ =~= key_id());
        }
    }
    r
}

fn is_key_data(k: &[u8]) -> (b: bool)
    ensures
        b == (k@ == key_data()),
{
    let r = k.len() == 4 && k[0] == 100 && k[1] == 97 && k[2] == 116 && k[3] == 97;
    proof {
        if r {
            assert(k@ =~= key_data());
        }
    }
    r
}

fn is_key_error(k: &[u8]) -> (b: bool)
    ensures
        b == (k@ == key_error()),
{
    let r = k.len() == 5 && k[0] == 101 && k[1] == 114 && k[2] == 114 && k[3] == 111 && k[4]
        == 114;
    proof {
        if r {
            assert(k@ =~= key_error());
        }
    }
    r
}

fn is_key_code(k: &[u8]) -> (b: bool)
    ensures
        b == (k@ == key_code()),
{
    let r = k.len() == 4 && k[0] == 99 && k[1] == 111 && k[2] == 100 && k[3] == 101;
    proof {
        if r {
            assert(k@ =~= key_code());
        }
    }
    r
}

fn is_key_message(k: &[u8]) -> (b: bool)
    ensures
        b == (k@ == key_message()),
{
    let r = k.len() == 7 && k[0] == 109 && k[1] == 101 && k[2] == 115 && k[3] == 115 && k[4] == 97
        && k[5] == 103 && k[6] == 101;
    proof {
        if r {
            assert(k@ =~= key_message());
        }
    }
    r
}

/// Whether these bytes read `ready`.
pub fn is_lit_ready(k: &[u8]) -> (b: bool)
    ensures
        b == (k@ == lit_ready()),
{
    let r = k.len() == 5 && k[0] == 114 && k[1] == 101 && k[2] == 97 && k[3] == 100 && k[4] == 121;
    proof {
        if r {
            assert(k@ =~= lit_ready());
        }
    }
    r
}

/// Whether these bytes read `success`.
pub fn is_lit_success(k: &[u8]) -> (b: bool)
    ensures
        b == (k@ == lit_success()),
{
    let r = k.len() == 7 && k[0] == 115 && k[1] == 117 && k[2] == 99 && k[3] == 99 && k[4] == 101
        && k[5] == 115 && k[6] == 115;
    proof {
        if r {
            assert(k@ =~= lit_success());
        }
    }
    r
}

/// Read the value at `v0` as a string field: its unescaped content when it
/// is a string, `Other` for any other valid value.
fn read_str_value(s: &[u8], v0: usize, d: u32) -> (r: Option<(StrField, usize)>)
    requires
        v0 <= s@.len(),
    ensures
        match parse_value(s@, v0 as nat, d as nat) {
            Some(p) => {
                &&& r matches Some(q)
                &&& q.1 == p.1
                &&& v0 < p.1 <= s@.len()
                &&& str_field_view(q.0) == (match p.0 {
                    Jv::Str(t) => StrFieldSpec::Text(t),
                    _ => StrFieldSpec::Other,
                })
            },
            None => r is None,
        },
{
    let n = s.len();
    if v0 < n && s[v0] == 34 {
        match parse_string_ex(s, v0 + 1) {
            Some(pr) => Some((StrField::Text(pr.0), pr.1)),
            None => None,
        }
    } else {
        match skip_value_ex(s, v0, d) {
            Some(e) => Some((StrField::Other, e)),
            None => None,
        }
    }
}

/// Read the value at `v0` as an unsigned-integer field: its value when it
/// is an unadorned decimal integer that fits, `Other` for any other valid
/// value.
fn read_uint_value(s: &[u8], v0: usize, d: u32) -> (r: Option<(NumField, usize)>)
    requires
        v0 <= s@.len(),
    ensures
        match parse_value(s@, v0 as nat, d as nat) {
            Some(p) => {
                &&& r matches Some(q)
                &&& q.1 == p.1
                &&& v0 < p.1 <= s@.len()
                &&& num_field_view(q.0) == (match p.0 {
                    Jv::Num(lex) => match uint_of_lexeme(lex) {
                        Some(v) => NumFieldSpec::UInt(v),
                        None => NumFieldSpec::Other,
                    },
                    _ => NumFieldSpec::Other,
                })
            },
            None => r is None,
        },
{
    let n = s.len();
    if v0 < n && (s[v0] == 45 || (48 <= s[v0] && s[v0] <= 57)) {
        match skip_number_ex(s, v0) {
            Some(e) => {
                match parse_uint_ex(s, v0, e) {
                    Some(v) => Some((NumField::UIntVal(v), e)),
                    None => Some((NumField::Other, e)),
                }
            },
            None => None,
        }
    } else {
        match skip_value_ex(s, v0, d) {
            Some(e) => Some((NumField::Other, e)),
            None => None,
        }
    }
}

/// Read the value at `v0` as the `data` member: `null` stays empty, any
/// other valid value is kept as its raw text.
fn read_data_value(s: &[u8], v0: usize, d: u32) -> (r: Option<(DataField, usize)>)
    requires
        v0 <= s@.len(),
    ensures
        match parse_value(s@, v0 as nat, d as nat) {
            Some(p) => {
                &&& r matches Some(q)
                &&& q.1 == p.1
                &&& v0 < p.1 <= s@.len()
                &&& data_field_view(q.0) == (match p.0 {
                    Jv::Null => DataFieldSpec::NullVal,
                    _ => DataFieldSpec::Raw(s@.subrange(v0 as int, p.1 as int)),
                })
            },
            None => r is None,
        },
{
    match skip_value_ex(s, v0, d) {
        Some(e) => {
            if s[v0] == 110 {  // only `null` begins with 'n'
                Some((DataField::NullData, e))
            } else {
                let raw = vstd::slice::slice_to_vec(vstd::slice::slice_subrange(s, v0, e));
                Some((DataField::Raw(raw), e))
            }
        },
        None => None,
    }
}

/// As `lemma_members_glue`, tracking the members read so far: one more
/// member moves from the unread suffix to the accumulated prefix.
proof fn lemma_members_glue_seq(
    s: Seq<u8>,
    j0: nat,
    cur: nat,
    m: JMember,
    nx: nat,
    d: nat,
    processed: Seq<JMember>,
)
    requires
        cur < s.len(),
        parse_member_one(s, cur, d) matches Some(t) && t.0 == m && t.1 == nx && t.2 == true,
        advp(s, cur, nx) == nx,
        match parse_members(s, cur, d) {
            Some(p) => {
                &&& parse_members(s, j0, d) matches Some(q)
                &&& q.1 == p.1
                &&& q.0 == processed + p.0
            },
            None => parse_members(s, j0, d) is None,
        },
    ensures
        match parse_members(s, nx, d) {
            Some(p) => {
                &&& parse_members(s, j0, d) matches Some(q)
                &&& q.1 == p.1
                &&& q.0 == processed.push(m) + p.0
            },
            None => parse_members(s, j0, d) is None,
        },
{
    assert(parse_members(s, cur, d) is Some <==> parse_members(s, nx, d) is Some);
    if parse_members(s, nx, d) is Some {
        let p = parse_members(s, nx, d)->Some_0;
        assert(parse_members(s, cur, d)->Some_0.0 == seq![m] + p.0);
        assert(processed + (seq![m] + p.0) =~= processed.push(m) + p.0);
    }
}

/// Read the value at `v0` as the `error` member: `null` stays empty, an
/// object is read through its `code` and `message` members (a repeated key
/// reads as its last occurrence), anything else is `Other`.
#[verifier::rlimit(100)]
fn read_error_value(s: &[u8], v0: usize, d: u32) -> (r: Option<(ErrField, usize)>)
    requires
        v0 <= s@.len(),
    ensures
        match parse_value(s@, v0 as nat, d as nat) {
            Some(p) => {
                &&& r matches Some(q)
                &&& q.1 == p.1
                &&& v0 < p.1 <= s@.len()
                &&& err_field_view(q.0) == (match p.0 {
                    Jv::Null => ErrFieldSpec::NullVal,
                    Jv::Obj(ems) => ErrFieldSpec::Fields(
                        str_field_of(ems, key_code()),
                        str_field_of(ems, key_message()),
                    ),
                    _ => ErrFieldSpec::Other,
                })
            },
            None => r is None,
        },
{
    let n = s.len();
    if !(v0 < n && s[v0] == 123) {
        // not an object: null, a scalar, an array
        match skip_value_ex(s, v0, d) {
            Some(e) => {
                if s[v0] == 110 {  // only `null` begins with 'n'
                    Some((ErrField::NullErr, e))
                } else {
                    Some((ErrField::Other, e))
                }
            },
            None => None,
        }
    } else {
        if d <= 1 {
            return None;
        }
        let j = ws_to(s, v0 + 1);
        proof {
            assert(advp(s@, v0 as nat, ws_end(s@, (v0 + 1) as nat)) == j as nat);
        }
        if j < n && s[j] == 125 {
            return Some((ErrField::Fields(StrField::Missing, StrField::Missing), j + 1));
        }
        let d2 = d - 1;
        let mut cur: usize = j;
        let mut code_f = StrField::Missing;
        let mut msg_f = StrField::Missing;
        let ghost mut processed: Seq<JMember> = Seq::<JMember>::empty();
        loop
            invariant
                j <= cur <= n,
                n == s@.len(),
                v0 < n,
                s@[v0 as int] == 123,
                d > 1,
                d2 == d - 1,
                j as nat == advp(s@, v0 as nat, ws_end(s@, (v0 + 1) as nat)),
                !(j < n && s@[j as int] == 125),
                str_field_view(code_f) == str_field_of(processed, key_code()),
                str_field_view(msg_f) == str_field_of(processed, key_message()),
                match parse_members(s@, cur as nat, d2 as nat) {
                    Some(p) => {
                        &&& parse_members(s@, j as nat, d2 as nat) matches Some(q)
                        &&& q.1 == p.1
                        &&& q.0 == processed + p.0
                    },
                    None => parse_members(s@, j as nat, d2 as nat) is None,
                },
            decreases n - cur,
        {
            if cur >= n {
                return None;
            }
            if s[cur] != 34 {
                return None;
            }
            match parse_string_ex(s, cur + 1) {
                None => {
                    return None;
                },
                Some(kp) => {
                    let key = kp.0;
                    let j2 = kp.1;
                    let c = ws_to(s, j2);
                    proof {
                        assert(advp(s@, cur as nat, ws_end(s@, j2 as nat)) == c as nat);
                    }
                    if c >= n || s[c] != 58 {
                        return None;
                    }
                    let v0m = ws_to(s, c + 1);
                    proof {
                        assert(advp(s@, cur as nat, ws_end(s@, (c + 1) as nat)) == v0m as nat);
                    }
                    let is_c = is_key_code(&key);
                    let is_m = is_key_message(&key);
                    let e: usize;
                    if is_c {
                        match read_str_value(s, v0m, d2) {
                            None => {
                                return None;
                            },
                            Some(fv) => {
                                code_f = fv.0;
                                e = fv.1;
                            },
                        }
                    } else if is_m {
                        match read_str_value(s, v0m, d2) {
                            None => {
                                return None;
                            },
                            Some(fv) => {
                                msg_f = fv.0;
                                e = fv.1;
                            },
                        }
                    } else {
                        match skip_value_ex(s, v0m, d2) {
                            None => {
                                return None;
                            },
                            Some(ev) => {
                                e = ev;
                            },
                        }
                    }
                    let ghost m = JMember {
                        key: key@,
                        val: parse_value(s@, v0m as nat, d2 as nat)->Some_0.0,
                        vstart: v0m as int,
                        vend: e as int,
                    };
                    let ghost processed2 = processed.push(m);
                    proof {
                        lemma_obj_lookup_push(processed, m, key_code());
                        lemma_obj_lookup_push(processed, m, key_message());
                        assert(key_code() != key_message());
                        assert(str_field_view(code_f) == str_field_of(processed2, key_code()));
                        assert(str_field_view(msg_f) == str_field_of(processed2, key_message()));
                    }
                    let p2 = ws_to(s, e);
                    proof {
                        assert(advp(s@, cur as nat, ws_end(s@, e as nat)) == p2 as nat);
                    }
                    if p2 >= n {
                        return None;
                    }
                    if s[p2] == 44 {  // ','
                        let nx = ws_to(s, p2 + 1);
                        proof {
                            assert(advp(s@, cur as nat, ws_end(s@, (p2 + 1) as nat)) == nx as nat);
                            assert(parse_member_one(s@, cur as nat, d2 as nat) matches Some(t)
                                && t.0 == m && t.1 == nx as nat && t.2 == true);
                            lemma_members_glue_seq(
                                s@,
                                j as nat,
                                cur as nat,
                                m,
                                nx as nat,
                                d2 as nat,
                                processed,
                            );
                        }
                        proof {
                            processed = processed2;
                        }
                        cur = nx;
                    } else if s[p2] == 125 {  // '}'
                        proof {
                            assert(parse_member_one(s@, cur as nat, d2 as nat) matches Some(t)
                                && t.0 == m && t.1 == (p2 + 1) as nat && t.2 == false);
                            assert(parse_members(s@, cur as nat, d2 as nat) matches Some(p)
                                && p.0 == seq![m] && p.1 == (p2 + 1) as nat);
                            assert(processed + seq![m] =~= processed2);
                            assert(parse_members(s@, j as nat, d2 as nat) matches Some(q) && q.0
                                == processed2 && q.1 == (p2 + 1) as nat);
                        }
                        return Some((ErrField::Fields(code_f, msg_f), p2 + 1));
                    } else {
                        return None;
                    }
                },
            }
        }
    }
}

/// What a decoded handshake means to the grammar.
pub open spec fn ready_view(sig: ReadySignal) -> LineClass {
    LineClass::Ready { version: sig.version@, pid: sig.pid }
}

/// What a decoded response envelope means to the grammar.
pub open spec fn response_view(r: EngineResponse) -> LineClass {
    LineClass::Response {
        id: r.id,
        status: r.status@,
        data: match r.data {
            Some(d) => Some(d@),
            None => None,
        },
        error: match r.error {
            Some(e) => Some((e.code@, e.message@)),
            None => None,
        },
    }
}

/// Decide what a fully read top-level object is.
fn finish_classify(
    status_f: StrField,
    version_f: StrField,
    id_f: NumField,
    pid_f: NumField,
    data_f: DataField,
    err_f: ErrField,
    Ghost(s): Ghost<Seq<u8>>,
    Ghost(full): Ghost<Seq<JMember>>,
) -> (r: Option<StdoutMessage>)
    requires
        spec_parse_top(s) == Some(Jv::Obj(full)),
        str_field_view(status_f) == str_field_of(full, key_status()),
        str_field_view(version_f) == str_field_of(full, key_version()),
        num_field_view(id_f) == num_field_of(full, key_id()),
        num_field_view(pid_f) == num_field_of(full, key_pid()),
        data_field_view(data_f) == data_field_of(s, full),
        err_field_view(err_f) == err_field_of(full),
    ensures
        match r {
            Some(StdoutMessage::Ready(sig)) => spec_classify(s) == ready_view(sig) && sig.status@
                == lit_ready(),
            Some(StdoutMessage::Response(resp)) => spec_classify(s) == response_view(resp),
            None => spec_classify(s) == LineClass::Diagnostic,
        },
{
    match status_f {
        StrField::Text(st) => {
            if is_lit_ready(&st) {
                match (version_f, pid_f) {
                    (StrField::Text(v), NumField::UIntVal(p)) => {
                        if p <= 0xFFFF_FFFFu64 {
                            Some(
                                StdoutMessage::Ready(
                                    ReadySignal { status: st, version: v, pid: p as u32 },
                                ),
                            )
                        } else {
                            None
                        }
                    },
                    _ => None,
                }
            } else {
                match id_f {
                    NumField::UIntVal(idv) => {
                        let data = match data_f {
                            DataField::Missing => None,
                            DataField::NullData => None,
                            DataField::Raw(b) => Some(b),
                        };
                        match err_f {
                            ErrField::Missing => Some(
                                StdoutMessage::Response(
                                    EngineResponse { id: idv, status: st, data, error: None },
                                ),
                            ),
                            ErrField::NullErr => Some(
                                StdoutMessage::Response(
                                    EngineResponse { id: idv, status: st, data, error: None },
                                ),
                            ),
                            ErrField::Fields(cf, mf) => match (cf, mf) {
                                (StrField::Text(c), StrField::Text(m)) => Some(
                                    StdoutMessage::Response(
                                        EngineResponse {
                                            id: idv,
                                            status: st,
                                            data,
                                            error: Some(EngineError { code: c, message: m }),
                                        },
                                    ),
                                ),
                                _ => None,
                            },
                            ErrField::Other => None,
                        }
                    },
                    _ => None,
                }
            }
        },
        _ => None,
    }
}

/// Classify one line of the worker's primary output stream.
///
/// The result is exactly what the grammar says of the line: a handshake
/// signal, a correlated response, or — for anything else, malformed JSON
/// included — nothing, meaning the line is diagnostic text.
#[verifier::rlimit(100)]
pub fn classify_line(line: &[u8]) -> (r: Option<StdoutMessage>)
    ensures
        match r {
            Some(StdoutMessage::Ready(sig)) => spec_classify(line@) == ready_view(sig)
                && sig.status@ == lit_ready(),
            Some(StdoutMessage::Response(resp)) => spec_classify(line@) == response_view(resp),
            None => spec_classify(line@) == LineClass::Diagnostic,
        },
{
    let n = line.len();
    let i0 = ws_to(line, 0);
    if i0 >= n || line[i0] != 123 {
        proof {
            assert(match parse_value(line@, ws_end(line@, 0), DEPTH_LIMIT as nat) {
                Some(p) => !(p.0 is Obj),
                None => true,
            });
        }
        return None;
    }
    let j = ws_to(line, i0 + 1);
    proof {
        assert(advp(line@, i0 as nat, ws_end(line@, (i0 + 1) as nat)) == j as nat);
    }
    if j < n && line[j] == 125 {
        // an empty object: no status, no id — diagnostic whether or not the
        // line ends here
        let t = ws_to(line, j + 1);
        if t < n {
            return None;
        }
        let ghost full = Seq::<JMember>::empty();
        return finish_classify(
            StrField::Missing,
            StrField::Missing,
            NumField::Missing,
            NumField::Missing,
            DataField::Missing,
            ErrField::Missing,
            Ghost(line@),
            Ghost(full),
        );
    }
    let d2: u32 = DEPTH_LIMIT - 1;
    let mut cur: usize = j;
    let mut status_f = StrField::Missing;
    let mut version_f = StrField::Missing;
    let mut id_f = NumField::Missing;
    let mut pid_f = NumField::Missing;
    let mut data_f = DataField::Missing;
    let mut err_f = ErrField::Missing;
    let ghost mut processed: Seq<JMember> = Seq::<JMember>::empty();
    loop
        invariant
            j <= cur <= n,
            n == line@.len(),
            i0 < n,
            line@[i0 as int] == 123,
            i0 as nat == ws_end(line@, 0),
            j as nat == advp(line@, i0 as nat, ws_end(line@, (i0 + 1) as nat)),
            !(j < n && line@[j as int] == 125),
            d2 == DEPTH_LIMIT - 1,
            str_field_view(status_f) == str_field_of(processed, key_status()),
            str_field_view(version_f) == str_field_of(processed, key_version()),
            num_field_view(id_f) == num_field_of(processed, key_id()),
            num_field_view(pid_f) == num_field_of(processed, key_pid()),
            data_field_view(data_f) == data_field_of(line@, processed),
            err_field_view(err_f) == err_field_of(processed),
            match parse_members(line@, cur as nat, d2 as nat) {
                Some(p) => {
                    &&& parse_members(line@, j as nat, d2 as nat) matches Some(q)
                    &&& q.1 == p.1
                    &&& q.0 == processed + p.0
                },
                None => parse_members(line@, j as nat, d2 as nat) is None,
            },
        decreases n - cur,
    {
        if cur >= n {
            return None;
        }
        if line[cur] != 34 {
            return None;
        }
        match parse_string_ex(line, cur + 1) {
            None => {
                return None;
            },
            Some(kp) => {
                let key = kp.0;
                let j2 = kp.1;
                let c = ws_to(line, j2);
                proof {
                    assert(advp(line@, cur as nat, ws_end(line@, j2 as nat)) == c as nat);
                }
                if c >= n || line[c] != 58 {
                    return None;
                }
                let v0m = ws_to(line, c + 1);
                proof {
                    assert(advp(line@, cur as nat, ws_end(line@, (c + 1) as nat)) == v0m as nat);
                }
                let e: usize;
                if is_key_status(&key) {
                    match read_str_value(line, v0m, d2) {
                        None => {
                            return None;
                        },
                        Some(fv) => {
                            status_f = fv.0;
                            e = fv.1;
                        },
                    }
                } else if is_key_version(&key) {
                    match read_str_value(line, v0m, d2) {
                        None => {
                            return None;
                        },
                        Some(fv) => {
                            version_f = fv.0;
                            e = fv.1;
                        },
                    }
                } else if is_key_id(&key) {
                    match read_uint_value(line, v0m, d2) {
                        None => {
                            return None;
                        },
                        Some(fv) => {
                            id_f = fv.0;
                            e = fv.1;
                        },
                    }
                } else if is_key_pid(&key) {
                    match read_uint_value(line, v0m, d2) {
                        None => {
                            return None;
                        },
                        Some(fv) => {
                            pid_f = fv.0;
                            e = fv.1;
                        },
                    }
                } else if is_key_data(&key) {
                    match read_data_value(line, v0m, d2) {
                        None => {
                            return None;
                        },
                        Some(fv) => {
                            data_f = fv.0;
                            e = fv.1;
                        },
                    }
                } else if is_key_error(&key) {
                    match read_error_value(line, v0m, d2) {
                        None => {
                            return None;
                        },
                        Some(fv) => {
                            err_f = fv.0;
                            e = fv.1;
                        },
                    }
                } else {
                    match skip_value_ex(line, v0m, d2) {
                        None => {
                            return None;
                        },
                        Some(ev) => {
                            e = ev;
                        },
                    }
                }
                let ghost m = JMember {
                    key: key@,
                    val: parse_value(line@, v0m as nat, d2 as nat)->Some_0.0,
                    vstart: v0m as int,
                    vend: e as int,
                };
                let ghost processed2 = processed.push(m);
                proof {
                    lemma_obj_lookup_push(processed, m, key_status());
                    lemma_obj_lookup_push(processed, m, key_version());
                    lemma_obj_lookup_push(processed, m, key_id());
                    lemma_obj_lookup_push(processed, m, key_pid());
                    lemma_obj_lookup_push(processed, m, key_data());
                    lemma_obj_lookup_push(processed, m, key_error());
                    assert(str_field_view(status_f) == str_field_of(processed2, key_status()));
                    assert(str_field_view(version_f) == str_field_of(processed2, key_version()));
                    assert(num_field_view(id_f) == num_field_of(processed2, key_id()));
                    assert(num_field_view(pid_f) == num_field_of(processed2, key_pid()));
                    assert(data_field_view(data_f) == data_field_of(line@, processed2));
                    assert(err_field_view(err_f) == err_field_of(processed2));
                }
                let p2 = ws_to(line, e);
                proof {
                    assert(advp(line@, cur as nat, ws_end(line@, e as nat)) == p2 as nat);
                }
                if p2 >= n {
                    return None;
                }
                if line[p2] == 44 {  // ','
                    let nx = ws_to(line, p2 + 1);
                    proof {
                        assert(advp(line@, cur as nat, ws_end(line@, (p2 + 1) as nat))
                            == nx as nat);
                        assert(parse_member_one(line@, cur as nat, d2 as nat) matches Some(t) && t.0
                            == m && t.1 == nx as nat && t.2 == true);
                        lemma_members_glue_seq(
                            line@,
                            j as nat,
                            cur as nat,
                            m,
                            nx as nat,
                            d2 as nat,
                            processed,
                        );
                    }
                    proof {
                        processed = processed2;
                    }
                    cur = nx;
                } else if line[p2] == 125 {  // '}'
                    proof {
                        assert(parse_member_one(line@, cur as nat, d2 as nat) matches Some(t) && t.0
                            == m && t.1 == (p2 + 1) as nat && t.2 == false);
                        assert(parse_members(line@, cur as nat, d2 as nat) matches Some(p) && p.0
                            == seq![m] && p.1 == (p2 + 1) as nat);
                        assert(processed + seq![m] =~= processed2);
                        assert(parse_members(line@, j as nat, d2 as nat) matches Some(q) && q.0
                            == processed2 && q.1 == (p2 + 1) as nat);
                    }
                    let t = ws_to(line, p2 + 1);
                    if t < n {
                        return None;
                    }
                    return finish_classify(
                        status_f,
                        version_f,
                        id_f,
                        pid_f,
                        data_f,
                        err_f,
                        Ghost(line@),
                        Ghost(processed2),
                    );
                } else {
                    return None;
                }
            },
        }
    }
}

// ---------------------------------------------------------------------------
// Outgoing frames
// ---------------------------------------------------------------------------

/// Decimal digits of `n`, most significant first.
pub open spec fn spec_u64_dec(n: u64) -> Seq<u8>
    decreases n,
{
    if n < 10 {
        seq![(48 + n) as u8]
    } else {
        spec_u64_dec(n / 10).push((48 + n % 10) as u8)
    }
}

/// Lower-case hex digit for a value below 16.
pub open spec fn spec_hex_digit(n: u8) -> u8 {
    if n < 10 {
        (48 + n) as u8
    } else {
        (87 + n) as u8
    }
}

/// How one byte of a string value appears inside a JSON string literal:
/// quote and backslash get a backslash escape, control bytes get their short
/// escape or the `\u00XX` form, everything else stands as itself.
pub open spec fn spec_escape_byte(b: u8) -> Seq<u8> {
    if b == 34 {
        seq![92u8, 34u8]
    } else if b == 92 {
        seq![92u8, 92u8]
    } else if b == 8 {
        seq![92u8, 98u8]
    } else if b == 9 {
        seq![92u8, 116u8]
    } else if b == 10 {
        seq![92u8, 110u8]
    } else if b == 12 {
        seq![92u8, 102u8]
    } else if b == 13 {
        seq![92u8, 114u8]
    } else if b < 32 {
        seq![92u8, 117u8, 48u8, 48u8, spec_hex_digit(b / 16), spec_hex_digit(b % 16)]
    } else {
        seq![b]
    }
}

/// A byte string escaped for use inside a JSON string literal.
pub open spec fn spec_escape(s: Seq<u8>) -> Seq<u8>
    decreases s.len(),
{
    if s.len() == 0 {
        Seq::<u8>::empty()
    } else {
        spec_escape(s.drop_last()) + spec_escape_byte(s.last())
    }
}

/// The text `{"id":` — the opening of an outgoing command frame.
pub open spec fn spec_frame_head() -> Seq<u8> {
    seq![123u8, 34u8, 105u8, 100u8, 34u8, 58u8]
}

/// The text `,"command":"`.
pub open spec fn spec_frame_command() -> Seq<u8> {
    seq![44u8, 34u8, 99u8, 111u8, 109u8, 109u8, 97u8, 110u8, 100u8, 34u8, 58u8, 34u8]
}

/// The text `","payload":`.
pub open spec fn spec_frame_payload() -> Seq<u8> {
    seq![34u8, 44u8, 34u8, 112u8, 97u8, 121u8, 108u8, 111u8, 97u8, 100u8, 34u8, 58u8]
}

/// One outgoing command frame:
/// `{"id":<id>,"command":"<command>","payload":<payload>}` plus the
/// terminating newline that makes it a single line on the wire.
pub open spec fn spec_envelope(id: u64, command: Seq<u8>, payload: Seq<u8>) -> Seq<u8> {
    spec_frame_head() + spec_u64_dec(id) + spec_frame_command() + spec_escape(command)
        + spec_frame_payload() + payload + seq![125u8, 10u8]
}

/// Append the decimal digits of `n`.
fn push_u64_dec(out: &mut Vec<u8>, n: u64)
    ensures
        final(out)@ == old(out)@ + spec_u64_dec(n),
    decreases n,
{
    if n < 10 {
        out.push(48 + n as u8);
    } else {
        push_u64_dec(out, n / 10);
        out.push(48 + (n % 10) as u8);
    }
    proof {
        assert(final(out)@ =~= old(out)@ + spec_u64_dec(n));
    }
}

/// Append `b` escaped for a JSON string literal.
fn push_escaped_byte(out: &mut Vec<u8>, b: u8)
    ensures
        final(out)@ == old(out)@ + spec_escape_byte(b),
{
    if b == 34 || b == 92 {
        out.push(92);
        out.push(b);
    } else if b == 8 {
        out.push(92);
        out.push(98);
    } else if b == 9 {
        out.push(92);
        out.push(116);
    } else if b == 10 {
        out.push(92);
        out.push(110);
    } else if b == 12 {
        out.push(92);
        out.push(102);
    } else if b == 13 {
        out.push(92);
        out.push(114);
    } else if b < 32 {
        out.push(92);
        out.push(117);
        out.push(48);
        out.push(48);
        let hi = b / 16;
        let lo = b % 16;
        out.push(if hi < 10 { 48 + hi } else { 87 + hi });
        out.push(if lo < 10 { 48 + lo } else { 87 + lo });
    } else {
        out.push(b);
    }
    proof {
        assert(final(out)@ =~= old(out)@ + spec_escape_byte(b));
    }
}

/// Append the whole of `s`, escaped for a JSON string literal.
fn push_escaped(out: &mut Vec<u8>, s: &[u8])
    ensures
        final(out)@ == old(out)@ + spec_escape(s@),
{
    let ghost base = out@;
    let n = s.len();
    let mut i: usize = 0;
    while i < n
        invariant
            i <= n,
            n == s@.len(),
            out@ == base + spec_escape(s@.take(i as int)),
        decreases n - i,
    {
        push_escaped_byte(out, s[i]);
        proof {
            assert(s@.take(i + 1).drop_last() =~= s@.take(i as int));
            assert(s@.take(i + 1).last() == s@[i as int]);
        }
        i = i + 1;
    }
    proof {
        assert(s@.take(n as int) =~= s@);
    }
}

/// Append every byte of `bytes` as it stands.
fn push_all(out: &mut Vec<u8>, bytes: &[u8])
    ensures
        final(out)@ == old(out)@ + bytes@,
{
    let ghost base = out@;
    let n = bytes.len();
    let mut i: usize = 0;
    while i < n
        invariant
            i <= n,
            n == bytes@.len(),
            out@ == base + bytes@.take(i as int),
        decreases n - i,
    {
        out.push(bytes[i]);
        proof {
            assert(base + bytes@.take(i + 1) =~= (base + bytes@.take(i as int)).push(
                bytes@[i as int],
            ));
        }
        i = i + 1;
    }
    proof {
        assert(bytes@.take(n as int) =~= bytes@);
    }
}

/// The value of a digit prefix depends only on the digits in it.
proof fn lemma_digits_prefix_congruent(a: Seq<u8>, b: Seq<u8>, k: nat)
    requires
        k <= a.len(),
        k <= b.len(),
        forall|j: int| 0 <= j < k ==> a[j] == b[j],
    ensures
        digits_prefix_val(a, k) == digits_prefix_val(b, k),
    decreases k,
{
    if k > 0 {
        lemma_digits_prefix_congruent(a, b, (k - 1) as nat);
    }
}

/// The digits the encoder writes for `n` are a digit lexeme whose value is
/// `n`.
proof fn lemma_dec_value(n: u64)
    ensures
        is_uint_lexeme(spec_u64_dec(n)),
        lex_val(spec_u64_dec(n)) == n,
    decreases n,
{
    if n < 10 {
        let lex = spec_u64_dec(n);
        assert(lex.len() == 1);
        assert(digits_prefix_val(lex, 1) == digits_prefix_val(lex, 0) * 10 + (lex[0] - 48) as nat);
    } else {
        lemma_dec_value(n / 10);
        let p = spec_u64_dec(n / 10);
        let lex = p.push((48 + n % 10) as u8);
        assert(lex =~= spec_u64_dec(n));
        assert(forall|j: int| 0 <= j < p.len() ==> lex[j] == p[j]);
        lemma_digits_prefix_congruent(lex, p, p.len());
        assert(digits_prefix_val(lex, lex.len()) == digits_prefix_val(lex, p.len()) * 10 + (
        lex[lex.len() - 1] - 48) as nat);
    }
}

/// The identifier written into a frame reads back as itself: the decimal
/// digits the encoder emits for `n` are exactly the lexeme the incoming
/// grammar reads as the unsigned value `n`.
pub proof fn lemma_id_digits_round_trip(n: u64)
    ensures
        uint_of_lexeme(spec_u64_dec(n)) == Some(n),
{
    lemma_dec_value(n);
}

/// Escaping distributes over concatenation.
proof fn lemma_escape_concat(a: Seq<u8>, b: Seq<u8>)
    ensures
        spec_escape(a + b) == spec_escape(a) + spec_escape(b),
    decreases b.len(),
{
    if b.len() == 0 {
        assert(a + b =~= a);
        assert(spec_escape(a) + spec_escape(b) =~= spec_escape(a));
    } else {
        lemma_escape_concat(a, b.drop_last());
        assert((a + b).drop_last() =~= a + b.drop_last());
        assert((a + b).last() == b.last());
        assert((spec_escape(a) + spec_escape(b.drop_last())) + spec_escape_byte(b.last())
            =~= spec_escape(a) + (spec_escape(b.drop_last()) + spec_escape_byte(b.last())));
    }
}

proof fn lemma_escape_single(b: u8)
    ensures
        spec_escape(seq![b]) == spec_escape_byte(b),
{
    let one = seq![b];
    assert(one.len() == 1);
    assert(one.last() == b);
    assert(one.drop_last() =~= Seq::<u8>::empty());
    assert(spec_escape(Seq::<u8>::empty()) =~= Seq::<u8>::empty());
    assert(spec_escape(one) == spec_escape(one.drop_last()) + spec_escape_byte(b));
    assert(Seq::<u8>::empty() + spec_escape_byte(b) =~= spec_escape_byte(b));
}

proof fn lemma_hex_digit_inverts(v: u8)
    requires
        v < 16,
    ensures
        is_hex_digit(spec_hex_digit(v)),
        hex_digit_val(spec_hex_digit(v)) == v,
{
}

/// Escaping round-trips: with the closing quote appended, the text the
/// encoder writes for a string value reads back, through the incoming
/// grammar's string rule, as exactly the original bytes — whatever bytes
/// follow the quote.
pub proof fn lemma_escape_round_trip(s: Seq<u8>, tail: Seq<u8>)
    ensures
        parse_string(spec_escape(s) + seq![34u8] + tail, 0) == Some(
            (s, (spec_escape(s).len() + 1) as nat),
        ),
{
    lemma_unescape_at(Seq::<u8>::empty(), s, tail);
    assert(Seq::<u8>::empty() + spec_escape(s) + seq![34u8] + tail =~= spec_escape(s) + seq![34u8]
        + tail);
}

proof fn lemma_unescape_at(pre: Seq<u8>, s: Seq<u8>, tail: Seq<u8>)
    ensures
        parse_string(pre + spec_escape(s) + seq![34u8] + tail, pre.len()) == Some(
            (s, (pre.len() + spec_escape(s).len() + 1) as nat),
        ),
    decreases s.len(),
{
    let buf = pre + spec_escape(s) + seq![34u8] + tail;
    if s.len() == 0 {
        assert(spec_escape(s) =~= Seq::<u8>::empty());
        assert(buf[pre.len() as int] == 34);
    } else {
        let s0 = s[0];
        let s1 = s.drop_first();
        lemma_escape_single(s0);
        lemma_escape_concat(seq![s0], s1);
        assert(seq![s0] + s1 =~= s);
        let eb = spec_escape_byte(s0);
        let k = eb.len();
        assert(spec_escape(s) == eb + spec_escape(s1));
        let buf2 = (pre + eb) + spec_escape(s1) + seq![34u8] + tail;
        assert(buf2 =~= buf);
        lemma_unescape_at(pre + eb, s1, tail);
        let i = pre.len();
        assert forall|t: int| 0 <= t < k implies buf[i as int + t] == eb[t] by {
            assert((eb + spec_escape(s1))[t] == eb[t]);
        }
        let rest = parse_string(buf, i + k);
        assert(rest == Some((s1, (i + spec_escape(s).len() + 1) as nat)));
        if s0 == 34 || s0 == 92 {
            assert(buf[i as int] == 92 && buf[i as int + 1] == s0);
            assert(seq![s0] + s1 == s);
        } else if s0 == 8 || s0 == 9 || s0 == 10 || s0 == 12 || s0 == 13 {
            assert(buf[i as int] == 92);
        } else if s0 < 32 {
            assert(buf[i as int] == 92 && buf[i as int + 1] == 117 && buf[i as int + 2] == 48 && buf[i as int + 3] == 48);
            lemma_hex_digit_inverts(s0 / 16);
            lemma_hex_digit_inverts(s0 % 16);
            assert(buf[i as int + 4] == spec_hex_digit(s0 / 16) && buf[i as int + 5] == spec_hex_digit(s0 % 16));
            assert(is_hex4(buf, (i + 2) as nat));
            assert(hex4_val(buf, (i + 2) as nat) == (s0 / 16) * 16 + s0 % 16);
            assert(hex4_val(buf, (i + 2) as nat) == s0);
            assert(utf8_enc(s0 as nat) =~= seq![s0]);
        } else {
            assert(buf[i as int] == s0);
            assert(s0 >= 32 && s0 != 34 && s0 != 92);
        }
    }
}

/// No line-feed byte anywhere in `s`.
pub open spec fn has_no_newline(s: Seq<u8>) -> bool {
    forall|k: int| 0 <= k < s.len() ==> s[k] != 10
}

proof fn lemma_no_newline_concat(a: Seq<u8>, b: Seq<u8>)
    requires
        has_no_newline(a),
        has_no_newline(b),
    ensures
        has_no_newline(a + b),
{
    assert forall|k: int| 0 <= k < (a + b).len() implies (a + b)[k] != 10 by {
        if k < a.len() {
            assert((a + b)[k] == a[k]);
        } else {
            assert((a + b)[k] == b[k - a.len()]);
        }
    }
}

proof fn lemma_dec_no_newline(n: u64)
    ensures
        has_no_newline(spec_u64_dec(n)),
    decreases n,
{
    if n >= 10 {
        lemma_dec_no_newline(n / 10);
    }
}

proof fn lemma_escape_no_newline(s: Seq<u8>)
    ensures
        has_no_newline(spec_escape(s)),
    decreases s.len(),
{
    if s.len() > 0 {
        lemma_escape_no_newline(s.drop_last());
        lemma_no_newline_concat(spec_escape(s.drop_last()), spec_escape_byte(s.last()));
    }
}

/// An outgoing envelope is a single line: its last byte is the newline
/// terminator and no newline stands anywhere before it — provided the
/// embedded payload text carries none, as serialized payload text does
/// (inside a JSON string a control byte must be escaped). Frames written
/// whole therefore never interleave partial lines, and the worker's
/// line-based reader sees each frame as exactly one line.
pub proof fn lemma_envelope_is_one_line(id: u64, command: Seq<u8>, payload: Seq<u8>)
    requires
        has_no_newline(payload),
    ensures
        spec_envelope(id, command, payload).len() > 0,
        spec_envelope(id, command, payload).last() == 10,
        has_no_newline(spec_envelope(id, command, payload).drop_last()),
{
    let head = spec_frame_head();
    let dec = spec_u64_dec(id);
    let cmd = spec_frame_command();
    let esc = spec_escape(command);
    let pay = spec_frame_payload();
    lemma_dec_no_newline(id);
    lemma_escape_no_newline(command);
    lemma_no_newline_concat(head, dec);
    lemma_no_newline_concat(head + dec, cmd);
    lemma_no_newline_concat(head + dec + cmd, esc);
    lemma_no_newline_concat(head + dec + cmd + esc, pay);
    lemma_no_newline_concat(head + dec + cmd + esc + pay, payload);
    let body = head + dec + cmd + esc + pay + payload;
    assert(spec_envelope(id, command, payload) =~= body + seq![125u8, 10u8]);
    lemma_no_newline_concat(body, seq![125u8]);
    assert(spec_envelope(id, command, payload).drop_last() =~= body + seq![125u8]);
}

/// Whether `payload` is the text of exactly one JSON value, as a payload
/// handed to the dispatcher must be.
pub fn payload_is_valid(payload: &[u8]) -> (b: bool)
    ensures
        b == spec_is_json_text(payload@),
{
    let n = payload.len();
    let i0 = ws_to(payload, 0);
    match skip_value_ex(payload, i0, DEPTH_LIMIT) {
        None => false,
        Some(e) => {
            let t = ws_to(payload, e);
            t >= n
        },
    }
}

/// Serialize one outgoing command to its single-line JSON frame.
///
/// The caller supplies the command name as raw UTF-8 bytes (escaped here)
/// and the payload as the JSON text of one structured value (embedded as it
/// stands).
pub fn encode_envelope(id: u64, command: &[u8], payload: &[u8]) -> (out: Vec<u8>)
    ensures
        out@ == spec_envelope(id, command@, payload@),
{
    let mut out: Vec<u8> = Vec::new();
    out.push(123);
    out.push(34);
    out.push(105);
    out.push(100);
    out.push(34);
    out.push(58);
    proof {
        assert(out@ =~= spec_frame_head());
    }
    push_u64_dec(&mut out, id);
    out.push(44);
    out.push(34);
    out.push(99);
    out.push(111);
    out.push(109);
    out.push(109);
    out.push(97);
    out.push(110);
    out.push(100);
    out.push(34);
    out.push(58);
    out.push(34);
    proof {
        assert(out@ =~= spec_frame_head() + spec_u64_dec(id) + spec_frame_command());
    }
    push_escaped(&mut out, command);
    out.push(34);
    out.push(44);
    out.push(34);
    out.push(112);
    out.push(97);
    out.push(121);
    out.push(108);
    out.push(111);
    out.push(97);
    out.push(100);
    out.push(34);
    out.push(58);
    proof {
        assert(out@ =~= spec_frame_head() + spec_u64_dec(id) + spec_frame_command() + spec_escape(
            command@,
        ) + spec_frame_payload());
    }
    push_all(&mut out, payload);
    out.push(125);
    out.push(10);
    proof {
        assert(out@ =~= spec_envelope(id, command@, payload@));
    }
    out
}

} // verus!
