//! Scripted button presses for headless runs: `frame:KEY+KEY[:hold],...`.

use crate::{
    KEY_A, KEY_B, KEY_DOWN, KEY_L, KEY_LEFT, KEY_R, KEY_RIGHT, KEY_SELECT, KEY_START, KEY_UP,
};
use vstd::prelude::*;

verus! {

/// Buttons held from `frame` on, for `hold` frames.
#[derive(Clone, Copy, PartialEq, Eq, Structural, Debug)]
pub struct KeyPress {
    pub frame: u32,
    pub keys: u16,
    pub hold: u32,
}

/// Why a script was refused: an entry whose frame is not a number (the
/// whole entry), or a button name nobody knows (the name, upper-cased).
#[derive(Debug)]
pub enum ScriptError {
    BadFrame(Vec<u8>),
    UnknownKey(Vec<u8>),
}

/// What a refusal says, as plain bytes.
pub enum Fault {
    BadFrame(Seq<u8>),
    UnknownKey(Seq<u8>),
}

impl ScriptError {
    pub open spec fn fault(&self) -> Fault {
        match self {
            ScriptError::BadFrame(entry) => Fault::BadFrame(entry@),
            ScriptError::UnknownKey(name) => Fault::UnknownKey(name@),
        }
    }
}

/// The frames a hold defaults to.
pub const DEFAULT_HOLD: u32 = 10;

// ------------------------------------------------------------ the grammar

/// Whitespace as `str::trim` sees it: the ASCII blanks plus the Unicode
/// spaces, each by the length of its UTF-8 encoding at `i`.
pub open spec fn space_at(s: Seq<u8>, i: int, end: int) -> int {
    if i >= end || i < 0 {
        0
    } else if s[i] == 0x20 || (0x09 <= s[i] <= 0x0d) {
        1
    } else if i + 1 < end && s[i] == 0xc2 && (s[i + 1] == 0x85 || s[i + 1] == 0xa0) {
        2
    } else if i + 2 < end && ((s[i] == 0xe1 && s[i + 1] == 0x9a && s[i + 2] == 0x80) || (s[i]
        == 0xe2 && s[i + 1] == 0x80 && ((0x80 <= s[i + 2] <= 0x8a) || s[i + 2] == 0xa8 || s[i
        + 2] == 0xa9 || s[i + 2] == 0xaf)) || (s[i] == 0xe2 && s[i + 1] == 0x81 && s[i + 2]
        == 0x9f) || (s[i] == 0xe3 && s[i + 1] == 0x80 && s[i + 2] == 0x80)) {
        3
    } else {
        0
    }
}

/// The whitespace, if any, that ends just before `j`.
pub open spec fn space_before(s: Seq<u8>, start: int, j: int) -> int {
    if j - 1 >= start && space_at(s, j - 1, j) == 1 {
        1
    } else if j - 2 >= start && space_at(s, j - 2, j) == 2 {
        2
    } else if j - 3 >= start && space_at(s, j - 3, j) == 3 {
        3
    } else {
        0
    }
}

/// Where `[a, b)` starts once leading whitespace is dropped.
pub open spec fn trim_start(s: Seq<u8>, a: int, b: int) -> int
    decreases b - a,
{
    if a < b && space_at(s, a, b) > 0 {
        trim_start(s, a + space_at(s, a, b), b)
    } else {
        a
    }
}

/// Where `[a, b)` ends once trailing whitespace is dropped.
pub open spec fn trim_end(s: Seq<u8>, a: int, b: int) -> int
    decreases b - a,
{
    if a < b && space_before(s, a, b) > 0 {
        trim_end(s, a, b - space_before(s, a, b))
    } else {
        b
    }
}

/// The first `separator` in `[a, b)`, or `b`.
pub open spec fn next_separator(s: Seq<u8>, a: int, b: int, separator: u8) -> int
    decreases b - a,
{
    if a >= b {
        b
    } else if s[a] == separator {
        a
    } else {
        next_separator(s, a + 1, b, separator)
    }
}

/// The decimal value of the digits in `[a, b)`.
pub open spec fn digits_value(s: Seq<u8>, a: int, b: int) -> int
    decreases b - a,
{
    if b <= a {
        0
    } else {
        digits_value(s, a, b - 1) * 10 + (s[b - 1] - 0x30)
    }
}

pub open spec fn all_digits(s: Seq<u8>, a: int, b: int) -> bool {
    forall|i: int| a <= i < b ==> 0x30 <= #[trigger] s[i] <= 0x39
}

/// A `u32` as `str::parse` reads one: an optional `+`, then one or more
/// digits, and no more than `u32::MAX`.
pub open spec fn number(s: Seq<u8>, a: int, b: int) -> Option<u32> {
    let digits = if a < b && s[a] == 0x2b {
        a + 1
    } else {
        a
    };
    if digits < b && all_digits(s, digits, b) && digits_value(s, digits, b) <= 0xffff_ffff {
        Some(digits_value(s, digits, b) as u32)
    } else {
        None
    }
}

/// `s[a..b]` upper-cased.
pub open spec fn upper(s: Seq<u8>, a: int, b: int) -> Seq<u8> {
    Seq::new(
        (b - a) as nat,
        |i: int|
            if 0x61 <= s[a + i] <= 0x7a {
                (s[a + i] - 0x20) as u8
            } else {
                s[a + i]
            },
    )
}

/// The button an upper-cased name stands for; the empty name stands for none.
pub open spec fn button(name: Seq<u8>) -> Option<u16> {
    if name == seq![0x41u8] {
        Some(KEY_A)
    } else if name == seq![0x42u8] {
        Some(KEY_B)
    } else if name == seq![0x53u8, 0x45, 0x4c, 0x45, 0x43, 0x54] {
        Some(KEY_SELECT)
    } else if name == seq![0x53u8, 0x54, 0x41, 0x52, 0x54] {
        Some(KEY_START)
    } else if name == seq![0x52u8, 0x49, 0x47, 0x48, 0x54] {
        Some(KEY_RIGHT)
    } else if name == seq![0x4cu8, 0x45, 0x46, 0x54] {
        Some(KEY_LEFT)
    } else if name == seq![0x55u8, 0x50] {
        Some(KEY_UP)
    } else if name == seq![0x44u8, 0x4f, 0x57, 0x4e] {
        Some(KEY_DOWN)
    } else if name == seq![0x52u8] {
        Some(KEY_R)
    } else if name == seq![0x4cu8] {
        Some(KEY_L)
    } else if name.len() == 0 {
        Some(0)
    } else {
        None
    }
}

/// The buttons named in `[a, b)`, `+` between names: their union, or the
/// first name that is not a button.
pub open spec fn buttons(s: Seq<u8>, a: int, b: int) -> Result<u16, Seq<u8>>
    decreases b - a,
{
    let k = next_separator(s, a, b, 0x2b);
    let name = upper(s, trim_start(s, a, k), trim_end(s, trim_start(s, a, k), k));
    match button(name) {
        None => Err(name),
        Some(bit) => if k >= b || k < a {
            Ok(bit)
        } else {
            match buttons(s, k + 1, b) {
                Ok(rest) => Ok(bit | rest),
                Err(bad) => Err(bad),
            }
        },
    }
}

/// One entry `frame:KEYS:hold`, already trimmed to `[a, b)`; `raw` is the
/// untrimmed entry, which a bad frame number is reported with.
pub open spec fn entry(s: Seq<u8>, a: int, b: int, raw: Seq<u8>) -> Result<KeyPress, Fault> {
    let first = next_separator(s, a, b, 0x3a);
    match number(s, a, first) {
        None => Err(Fault::BadFrame(raw)),
        Some(frame) => {
            let (keys, hold) = if first >= b {
                (Ok(0u16), DEFAULT_HOLD)
            } else {
                let second = next_separator(s, first + 1, b, 0x3a);
                let hold = if second >= b {
                    DEFAULT_HOLD
                } else {
                    let third = next_separator(s, second + 1, b, 0x3a);
                    match number(s, second + 1, third) {
                        Some(h) => h,
                        None => DEFAULT_HOLD,
                    }
                };
                (buttons(s, first + 1, second), hold)
            };
            match keys {
                Ok(k) => Ok(KeyPress { frame, keys: k, hold }),
                Err(name) => Err(Fault::UnknownKey(name)),
            }
        },
    }
}

/// The presses of the entries in `[a, len)`, comma separated, blank entries
/// skipped; the first faulty entry refuses the whole script.
pub open spec fn presses(s: Seq<u8>, a: int) -> Result<Seq<KeyPress>, Fault>
    decreases s.len() - a,
{
    if a > s.len() || a < 0 {
        Ok(Seq::empty())
    } else {
        let k = next_separator(s, a, s.len() as int, 0x2c);
        proof {
            lemma_separator_bounds(s, a, s.len() as int, 0x2c);
        }
        let start = trim_start(s, a, k);
        let end = trim_end(s, start, k);
        let this: Result<Option<KeyPress>, Fault> = if start >= end {
            Ok(None)
        } else {
            match entry(s, start, end, s.subrange(a, k)) {
                Ok(press) => Ok(Some(press)),
                Err(fault) => Err(fault),
            }
        };
        match this {
            Err(fault) => Err(fault),
            Ok(found) => {
                let rest = if k >= s.len() {
                    Ok(Seq::empty())
                } else {
                    presses(s, k + 1)
                };
                match rest {
                    Err(fault) => Err(fault),
                    Ok(later) => Ok(
                        match found {
                            Some(press) => seq![press] + later,
                            None => later,
                        },
                    ),
                }
            },
        }
    }
}

/// The separator found lies within the range searched.
pub proof fn lemma_separator_bounds(s: Seq<u8>, a: int, b: int, separator: u8)
    requires
        a <= b,
    ensures
        a <= next_separator(s, a, b, separator) <= b,
    decreases b - a,
{
    if a < b && s[a] != separator {
        lemma_separator_bounds(s, a + 1, b, separator);
    }
}

// ------------------------------------------------------------ the parser

fn space_len(s: &[u8], i: usize, end: usize) -> (n: usize)
    requires
        end <= s@.len(),
    ensures
        n == space_at(s@, i as int, end as int),
{
    if i >= end {
        0
    } else if s[i] == 0x20 || (0x09 <= s[i] && s[i] <= 0x0d) {
        1
    } else if end - i > 1 && s[i] == 0xc2 && (s[i + 1] == 0x85 || s[i + 1] == 0xa0) {
        2
    } else if end - i > 2 && ((s[i] == 0xe1 && s[i + 1] == 0x9a && s[i + 2] == 0x80) || (s[i]
        == 0xe2 && s[i + 1] == 0x80 && ((0x80 <= s[i + 2] && s[i + 2] <= 0x8a) || s[i + 2] == 0xa8
        || s[i + 2] == 0xa9 || s[i + 2] == 0xaf)) || (s[i] == 0xe2 && s[i + 1] == 0x81 && s[i
        + 2] == 0x9f) || (s[i] == 0xe3 && s[i + 1] == 0x80 && s[i + 2] == 0x80)) {
        3
    } else {
        0
    }
}

fn space_len_before(s: &[u8], start: usize, j: usize) -> (n: usize)
    requires
        start <= j <= s@.len(),
    ensures
        n == space_before(s@, start as int, j as int),
        n <= j - start,
{
    if j - start >= 1 && space_len(s, j - 1, j) == 1 {
        1
    } else if j - start >= 2 && space_len(s, j - 2, j) == 2 {
        2
    } else if j - start >= 3 && space_len(s, j - 3, j) == 3 {
        3
    } else {
        0
    }
}

fn trimmed(s: &[u8], a: usize, b: usize) -> (range: (usize, usize))
    requires
        a <= b <= s@.len(),
    ensures
        range.0 == trim_start(s@, a as int, b as int),
        range.1 == trim_end(s@, range.0 as int, b as int),
        a <= range.0 <= range.1 <= b,
{
    let mut start = a;
    while start < b && space_len(s, start, b) > 0
        invariant
            a <= start <= b <= s@.len(),
            trim_start(s@, start as int, b as int) == trim_start(s@, a as int, b as int),
        decreases b - start,
    {
        let n = space_len(s, start, b);
        start = start + n;
    }
    let mut end = b;
    while start < end && space_len_before(s, start, end) > 0
        invariant
            start <= end <= b <= s@.len(),
            trim_end(s@, start as int, end as int) == trim_end(s@, start as int, b as int),
        decreases end - start,
    {
        let n = space_len_before(s, start, end);
        end = end - n;
    }
    (start, end)
}

fn find(s: &[u8], a: usize, b: usize, separator: u8) -> (k: usize)
    requires
        a <= b <= s@.len(),
    ensures
        k == next_separator(s@, a as int, b as int, separator),
        a <= k <= b,
{
    let mut k = a;
    while k < b && s[k] != separator
        invariant
            a <= k <= b <= s@.len(),
            next_separator(s@, k as int, b as int, separator) == next_separator(
                s@,
                a as int,
                b as int,
                separator,
            ),
        decreases b - k,
    {
        k = k + 1;
    }
    k
}

fn parse_number(s: &[u8], a: usize, b: usize) -> (value: Option<u32>)
    requires
        a <= b <= s@.len(),
    ensures
        value == number(s@, a as int, b as int),
{
    let digits = if a < b && s[a] == 0x2b {
        a + 1
    } else {
        a
    };
    if digits >= b {
        return None;
    }
    let mut value: u64 = 0;
    let mut index = digits;
    while index < b
        invariant
            digits <= index <= b <= s@.len(),
            digits < b,
            digits == (if a < b && s@[a as int] == 0x2b {
                a + 1
            } else {
                a as int
            }),
            all_digits(s@, digits as int, index as int),
            value == digits_value(s@, digits as int, index as int),
            value <= 0xffff_ffff,
        decreases b - index,
    {
        let c = s[index];
        if c < 0x30 || c > 0x39 {
            assert(!all_digits(s@, digits as int, b as int));
            return None;
        }
        let next = value * 10 + (c - 0x30) as u64;
        assert(all_digits(s@, digits as int, index + 1));
        assert(digits_value(s@, digits as int, index + 1) == next);
        if next > 0xffff_ffff {
            proof {
                lemma_digits_grow(s@, digits as int, index + 1, b as int);
            }
            return None;
        }
        value = next;
        index = index + 1;
    }
    Some(value as u32)
}

/// Once the digits so far are worth more than `u32::MAX`, more digits only
/// make the number bigger.
proof fn lemma_digits_grow(s: Seq<u8>, a: int, i: int, b: int)
    requires
        a <= i <= b,
        all_digits(s, a, i),
        digits_value(s, a, i) > 0xffff_ffff,
    ensures
        !(all_digits(s, a, b) && digits_value(s, a, b) <= 0xffff_ffff),
    decreases b - i,
{
    if i < b && all_digits(s, a, b) {
        assert(all_digits(s, a, i + 1));
        lemma_digits_grow(s, a, i + 1, b);
    }
}

fn button_of(s: &[u8], a: usize, b: usize) -> (result: (Option<u16>, Vec<u8>))
    requires
        a <= b <= s@.len(),
    ensures
        result.1@ == upper(s@, a as int, b as int),
        result.0 == button(upper(s@, a as int, b as int)),
{
    let mut name: Vec<u8> = Vec::new();
    let mut index = a;
    while index < b
        invariant
            a <= index <= b <= s@.len(),
            name@ == upper(s@, a as int, index as int),
        decreases b - index,
    {
        let c = s[index];
        let u = if 0x61 <= c && c <= 0x7a {
            c - 0x20
        } else {
            c
        };
        name.push(u);
        index = index + 1;
        assert(name@ =~= upper(s@, a as int, index as int));
    }
    let n = name.len();
    let bit = if n == 1 && name[0] == 0x41 {
        Some(KEY_A)
    } else if n == 1 && name[0] == 0x42 {
        Some(KEY_B)
    } else if n == 6 && name[0] == 0x53 && name[1] == 0x45 && name[2] == 0x4c && name[3] == 0x45
        && name[4] == 0x43 && name[5] == 0x54 {
        Some(KEY_SELECT)
    } else if n == 5 && name[0] == 0x53 && name[1] == 0x54 && name[2] == 0x41 && name[3] == 0x52
        && name[4] == 0x54 {
        Some(KEY_START)
    } else if n == 5 && name[0] == 0x52 && name[1] == 0x49 && name[2] == 0x47 && name[3] == 0x48
        && name[4] == 0x54 {
        Some(KEY_RIGHT)
    } else if n == 4 && name[0] == 0x4c && name[1] == 0x45 && name[2] == 0x46 && name[3] == 0x54 {
        Some(KEY_LEFT)
    } else if n == 2 && name[0] == 0x55 && name[1] == 0x50 {
        Some(KEY_UP)
    } else if n == 4 && name[0] == 0x44 && name[1] == 0x4f && name[2] == 0x57 && name[3] == 0x4e {
        Some(KEY_DOWN)
    } else if n == 1 && name[0] == 0x52 {
        Some(KEY_R)
    } else if n == 1 && name[0] == 0x4c {
        Some(KEY_L)
    } else if n == 0 {
        Some(0)
    } else {
        None
    };
    proof {
        let v = name@;
        if n == 1 {
            assert(v =~= seq![v[0]]);
        } else if n == 2 {
            assert(v =~= seq![v[0], v[1]]);
        } else if n == 4 {
            assert(v =~= seq![v[0], v[1], v[2], v[3]]);
        } else if n == 5 {
            assert(v =~= seq![v[0], v[1], v[2], v[3], v[4]]);
        } else if n == 6 {
            assert(v =~= seq![v[0], v[1], v[2], v[3], v[4], v[5]]);
        }
    }
    (bit, name)
}

fn parse_buttons(s: &[u8], a: usize, b: usize) -> (result: Result<u16, Vec<u8>>)
    requires
        a <= b <= s@.len(),
    ensures
        match (result, buttons(s@, a as int, b as int)) {
            (Ok(x), Ok(y)) => x == y,
            (Err(x), Err(y)) => x@ == y,
            _ => false,
        },
    decreases b - a,
{
    let k = find(s, a, b, 0x2b);
    let (start, end) = trimmed(s, a, k);
    let (bit, name) = button_of(s, start, end);
    match bit {
        None => Err(name),
        Some(bit) => {
            if k >= b {
                Ok(bit)
            } else {
                match parse_buttons(s, k + 1, b) {
                    Ok(rest) => Ok(bit | rest),
                    Err(bad) => Err(bad),
                }
            }
        },
    }
}

fn parse_entry(s: &[u8], a: usize, b: usize, raw: Vec<u8>) -> (result: Result<KeyPress, ScriptError>)
    requires
        a <= b <= s@.len(),
    ensures
        match (result, entry(s@, a as int, b as int, raw@)) {
            (Ok(x), Ok(y)) => x == y,
            (Err(x), Err(y)) => x.fault() == y,
            _ => false,
        },
{
    let first = find(s, a, b, 0x3a);
    let frame = match parse_number(s, a, first) {
        None => {
            return Err(ScriptError::BadFrame(raw));
        },
        Some(frame) => frame,
    };
    let (keys, hold) = if first >= b {
        (Ok(0u16), DEFAULT_HOLD)
    } else {
        let second = find(s, first + 1, b, 0x3a);
        let hold = if second >= b {
            DEFAULT_HOLD
        } else {
            let third = find(s, second + 1, b, 0x3a);
            match parse_number(s, second + 1, third) {
                Some(h) => h,
                None => DEFAULT_HOLD,
            }
        };
        (parse_buttons(s, first + 1, second), hold)
    };
    match keys {
        Ok(k) => Ok(KeyPress { frame, keys: k, hold }),
        Err(name) => Err(ScriptError::UnknownKey(name)),
    }
}

/// Parses "frame:KEY+KEY[:hold],..." into scheduled button presses: a
/// missing hold lasts ten frames, key names are case blind, blank entries
/// are skipped.
pub fn parse_input_script(script: &[u8]) -> (result: Result<Vec<KeyPress>, ScriptError>)
    ensures
        match (result, presses(script@, 0)) {
            (Ok(x), Ok(y)) => x@ == y,
            (Err(x), Err(y)) => x.fault() == y,
            _ => false,
        },
{
    let mut found: Vec<KeyPress> = Vec::new();
    let mut a: usize = 0;
    let ghost mut remaining = presses(script@, 0);
    loop
        invariant
            a <= script@.len(),
            match presses(script@, 0) {
                Ok(all) => presses(script@, a as int) is Ok && all == found@ + presses(
                    script@,
                    a as int,
                )->Ok_0,
                Err(fault) => presses(script@, a as int) == Err::<Seq<KeyPress>, Fault>(fault),
            },
        decreases script@.len() - a,
    {
        let k = find(script, a, script.len(), 0x2c);
        let (start, end) = trimmed(script, a, k);
        if start < end {
            let mut raw: Vec<u8> = Vec::new();
            let mut index = a;
            while index < k
                invariant
                    a <= index <= k <= script@.len(),
                    raw@ == script@.subrange(a as int, index as int),
                decreases k - index,
            {
                raw.push(script[index]);
                index = index + 1;
                assert(raw@ =~= script@.subrange(a as int, index as int));
            }
            match parse_entry(script, start, end, raw) {
                Ok(press) => {
                    found.push(press);
                },
                Err(error) => {
                    return Err(error);
                },
            }
        }
        if k >= script.len() {
            assert(found@ =~= found@ + Seq::<KeyPress>::empty());
            return Ok(found);
        }
        a = k + 1;
    }
}

/// The buttons a script holds down during `frame`.
pub open spec fn held_at(presses: Seq<KeyPress>, frame: u32, count: int) -> u16
    decreases count,
{
    if count <= 0 {
        0
    } else {
        let press = presses[count - 1];
        held_at(presses, frame, count - 1) | if press.frame <= frame < press.frame + press.hold {
            press.keys
        } else {
            0u16
        }
    }
}

/// The buttons held during `frame`: every press whose window covers it.
pub fn keys_at(presses: &[KeyPress], frame: u32) -> (keys: u16)
    ensures
        keys == held_at(presses@, frame, presses@.len() as int),
{
    let mut keys: u16 = 0;
    let mut index: usize = 0;
    while index < presses.len()
        invariant
            index <= presses@.len(),
            keys == held_at(presses@, frame, index as int),
        decreases presses@.len() - index,
    {
        let press = presses[index];
        let covers = frame >= press.frame && (frame as u64) < press.frame as u64 + press.hold as u64;
        if covers {
            keys = keys | press.keys;
        } else {
            keys = keys | 0;
        }
        index = index + 1;
    }
    keys
}

} // verus!
