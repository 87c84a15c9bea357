//! The wire codec: the JSON frames the hub exchanges with its clients,
//! written as verified functions over characters. Encoding is a function
//! of the payload alone; decoding accepts exactly the canonical frames the
//! encoder produces, so the two compose to the identity.
//!
//! Identifiers travel as decimal JSON numbers, timestamps as signed
//! decimal numbers, and text as JSON strings whose escapes cover quotes,
//! backslashes and control characters.

use vstd::prelude::*;
use vstd::std_specs::iter::IteratorSpec;

use crate::holo_api::{
    ChannelModelResponse, ChannelModelResponseV, ErrorOutput, Input, InputV, JoinEvent, JoinEventV,
    MessageEvent, MessageEventV, MessageModelResponse, MessageModelResponseV, Output, OutputV,
    UserDiscconnectOutput, UserJoinedOutput, UserJoinedOutputV, UserMessageOutput,
    UserMessageOutputV, UserModelResponse, UserModelResponseV,
};

verus! {

// ---------------------------------------------------------------------
// Characters of a string slice.
// ---------------------------------------------------------------------
/// The characters of `s`, in order, as a vector.
pub fn chars_of(s: &str) -> (r: Vec<char>)
    ensures
        r@ == s@,
{
    broadcast use vstd::string::axiom_spec_iter;
    broadcast use vstd::string::next_postcondition;

    let mut it = s.chars();
    let mut r: Vec<char> = Vec::new();
    proof {
        assert(it.remaining() == s@);
        assert(r@ + it.remaining() =~= s@);
    }
    loop
        invariant
            it.obeys_prophetic_iter_laws(),
            r@ + it.remaining() == s@,
            r@.len() <= s@.len(),
        decreases s@.len() - r@.len(),
    {
        let ghost rem = it.remaining();
        match it.next() {
            Some(c) => {
                r.push(c);
                proof {
                    assert(r@ + it.remaining() =~= s@);
                }
            },
            None => {
                proof {
                    assert(r@ =~= s@);
                }
                return r;
            },
        }
    }
}

// ---------------------------------------------------------------------
// Escaping.
// ---------------------------------------------------------------------
/// The character for one decimal digit.
pub open spec fn dec_digit(d: int) -> char {
    ((48 + d) as u8) as char
}

/// The character for one lowercase hexadecimal digit.
pub open spec fn hex_digit(d: int) -> char {
    if d < 10 {
        ((48 + d) as u8) as char
    } else {
        ((87 + d) as u8) as char
    }
}

/// How one character appears inside a JSON string: quotes and backslashes
/// escaped, control characters as `\u00..`, everything else as itself.
pub open spec fn esc_char(c: char) -> Seq<char> {
    if c == '"' {
        seq!['\\', '"']
    } else if c == '\\' {
        seq!['\\', '\\']
    } else if (c as u32) < 0x20 {
        seq!['\\', 'u', '0', '0', hex_digit((c as u32 as int) / 16), hex_digit((c as u32 as int) % 16)]
    } else {
        seq![c]
    }
}

/// The escaped form of the characters of `s` from index `i` on.
pub open spec fn esc_from(s: Seq<char>, i: int) -> Seq<char>
    decreases s.len() - i,
{
    if i < 0 || i >= s.len() {
        Seq::empty()
    } else {
        esc_char(s[i]) + esc_from(s, i + 1)
    }
}

/// The escaped form of a whole string.
pub open spec fn esc(s: Seq<char>) -> Seq<char> {
    esc_from(s, 0)
}

/// Append one escaped character.
fn push_esc_char(out: &mut String, c: char)
    ensures
        final(out)@ == old(out)@ + esc_char(c),
{
    if c == '"' {
        out.push('\\');
        out.push('"');
        proof {
            assert(out@ =~= old(out)@ + esc_char(c));
        }
    } else if c == '\\' {
        out.push('\\');
        out.push('\\');
        proof {
            assert(out@ =~= old(out)@ + esc_char(c));
        }
    } else if (c as u32) < 0x20 {
        let n = c as u32;
        out.push('\\');
        out.push('u');
        out.push('0');
        out.push('0');
        out.push(hex_digit_char(n / 16));
        out.push(hex_digit_char(n % 16));
        proof {
            assert(out@ =~= old(out)@ + esc_char(c));
        }
    } else {
        out.push(c);
        proof {
            assert(out@ =~= old(out)@ + esc_char(c));
        }
    }
}

/// The executable lowercase hexadecimal digit.
fn hex_digit_char(d: u32) -> (r: char)
    requires
        d < 16,
    ensures
        r == hex_digit(d as int),
{
    if d < 10 {
        ((48 + d) as u8) as char
    } else {
        ((87 + d) as u8) as char
    }
}

/// Append the escaped characters of `v` from index `i` on.
fn push_escaped_from(out: &mut String, v: &Vec<char>, i: usize)
    requires
        i <= v.len(),
    ensures
        final(out)@ == old(out)@ + esc_from(v@, i as int),
    decreases v.len() - i,
{
    if i < v.len() {
        push_esc_char(out, v[i]);
        push_escaped_from(out, v, i + 1);
        proof {
            assert(out@ =~= old(out)@ + esc_from(v@, i as int));
        }
    } else {
        proof {
            assert(out@ =~= old(out)@ + esc_from(v@, i as int));
        }
    }
}

/// Append the escaped form of a string.
fn push_escaped(out: &mut String, s: &str)
    ensures
        final(out)@ == old(out)@ + esc(s@),
{
    let v = chars_of(s);
    push_escaped_from(out, &v, 0);
}

// ---------------------------------------------------------------------
// Decimal numbers.
// ---------------------------------------------------------------------
/// The decimal digits of a natural number, most significant first.
pub open spec fn dec_u128(n: nat) -> Seq<char>
    decreases n,
{
    if n < 10 {
        seq![dec_digit(n as int)]
    } else {
        dec_u128(n / 10) + seq![dec_digit((n % 10) as int)]
    }
}

/// The decimal form of a signed number: a minus sign and the magnitude.
pub open spec fn dec_i64(t: i64) -> Seq<char> {
    if t >= 0 {
        dec_u128(t as nat)
    } else {
        seq!['-'] + dec_u128((-(t as int)) as nat)
    }
}

/// Append the decimal digits of `n`.
fn push_dec_u128(out: &mut String, n: u128)
    ensures
        final(out)@ == old(out)@ + dec_u128(n as nat),
    decreases n,
{
    if n < 10 {
        out.push(((48 + n as u8)) as char);
        proof {
            assert(out@ =~= old(out)@ + dec_u128(n as nat));
        }
    } else {
        push_dec_u128(out, n / 10);
        out.push(((48 + (n % 10) as u8)) as char);
        proof {
            assert(out@ =~= old(out)@ + dec_u128(n as nat));
        }
    }
}

/// Append the decimal form of a signed number.
fn push_dec_i64(out: &mut String, t: i64)
    ensures
        final(out)@ == old(out)@ + dec_i64(t),
{
    if t >= 0 {
        push_dec_u128(out, t as u128);
    } else {
        out.push('-');
        let mag: u128 = (-(t as i128)) as u128;
        proof {
            assert(mag as nat == (-(t as int)) as nat);
        }
        push_dec_u128(out, mag);
        proof {
            assert(out@ =~= old(out)@ + dec_i64(t));
        }
    }
}

// ---------------------------------------------------------------------
// Parsing primitives (specification side).
// ---------------------------------------------------------------------
/// A literal matches at `pos`.
pub open spec fn parse_lit(s: Seq<char>, pos: int, lit: Seq<char>) -> Option<int> {
    if 0 <= pos && pos + lit.len() <= s.len() && s.subrange(pos, pos + lit.len()) == lit {
        Some(pos + lit.len())
    } else {
        None
    }
}

pub open spec fn is_dec_digit(c: char) -> bool {
    48 <= c as u32 <= 57
}

pub open spec fn dec_val(c: char) -> int {
    c as u32 - 48
}

/// A character accepted as a lowercase hexadecimal digit, and its value.
pub open spec fn is_hex_char(c: char) -> bool {
    is_dec_digit(c) || (97 <= c as u32 <= 102)
}

pub open spec fn hex_val(c: char) -> int {
    if is_dec_digit(c) {
        c as u32 - 48
    } else {
        c as u32 - 87
    }
}

/// The maximal run of decimal digits starting at `pos`.
pub open spec fn digits_run(s: Seq<char>, pos: int) -> Seq<char>
    decreases s.len() - pos,
{
    if 0 <= pos < s.len() && is_dec_digit(s[pos]) {
        seq![s[pos]] + digits_run(s, pos + 1)
    } else {
        Seq::empty()
    }
}

/// The value of a digit string, most significant digit first.
pub open spec fn digits_val(ds: Seq<char>) -> int
    decreases ds.len(),
{
    if ds.len() == 0 {
        0
    } else {
        digits_val(ds.drop_last()) * 10 + dec_val(ds.last())
    }
}

/// Parse an unsigned decimal number: at least one digit, value in range.
pub open spec fn parse_u128(s: Seq<char>, pos: int) -> Option<(u128, int)> {
    let ds = digits_run(s, pos);
    if ds.len() == 0 || !(0 <= digits_val(ds) <= u128::MAX as int) {
        None
    } else {
        Some((digits_val(ds) as u128, pos + ds.len()))
    }
}

/// Parse a signed decimal number into the range of `i64`.
pub open spec fn parse_i64(s: Seq<char>, pos: int) -> Option<(i64, int)> {
    if 0 <= pos < s.len() && s[pos] == '-' {
        match parse_u128(s, pos + 1) {
            Some((mag, p)) => if 1 <= mag <= 0x8000_0000_0000_0000u128 {
                Some(((-(mag as int)) as i64, p))
            } else {
                None
            },
            None => None,
        }
    } else {
        match parse_u128(s, pos) {
            Some((mag, p)) => if mag <= i64::MAX as u128 {
                Some((mag as i64, p))
            } else {
                None
            },
            None => None,
        }
    }
}

/// Parse the remainder of a JSON string up to its closing quote,
/// returning the unescaped content. Only the canonical escapes the
/// encoder emits are accepted.
pub open spec fn parse_jstring(s: Seq<char>, pos: int) -> Option<(Seq<char>, int)>
    decreases s.len() - pos,
{
    if pos < 0 || pos >= s.len() {
        None
    } else if s[pos] == '"' {
        Some((Seq::empty(), pos + 1))
    } else if s[pos] == '\\' {
        if pos + 1 < s.len() && (s[pos + 1] == '"' || s[pos + 1] == '\\') {
            match parse_jstring(s, pos + 2) {
                Some((t, p)) => Some((seq![s[pos + 1]] + t, p)),
                None => None,
            }
        } else if pos + 5 < s.len() && s[pos + 1] == 'u' && s[pos + 2] == '0' && s[pos + 3] == '0'
            && is_hex_char(s[pos + 4]) && is_hex_char(s[pos + 5]) && hex_val(s[pos + 4]) * 16
            + hex_val(s[pos + 5]) < 0x20 {
            let c = (hex_val(s[pos + 4]) * 16 + hex_val(s[pos + 5])) as u8 as char;
            match parse_jstring(s, pos + 6) {
                Some((t, p)) => Some((seq![c] + t, p)),
                None => None,
            }
        } else {
            None
        }
    } else if (s[pos] as u32) < 0x20 {
        None
    } else {
        match parse_jstring(s, pos + 1) {
            Some((t, p)) => Some((seq![s[pos]] + t, p)),
            None => None,
        }
    }
}

// ---------------------------------------------------------------------
// Parsing primitives (executable side).
// ---------------------------------------------------------------------
/// A string built from the given characters.
fn string_of_chars(v: &Vec<char>) -> (r: String)
    ensures
        r@ == v@,
{
    let mut r = String::new();
    let mut i: usize = 0;
    while i < v.len()
        invariant
            i <= v.len(),
            r@ == v@.take(i as int),
        decreases v.len() - i,
    {
        r.push(v[i]);
        proof {
            assert(r@ =~= v@.take(i + 1 as int));
        }
        i += 1;
    }
    proof {
        assert(r@ =~= v@);
    }
    r
}

/// Match a literal at `pos`, returning the position after it.
fn match_lit(v: &Vec<char>, pos: usize, lit: &str) -> (r: Option<usize>)
    ensures
        (match r {
            Some(p) => parse_lit(v@, pos as int, lit@) == Some(p as int),
            None => parse_lit(v@, pos as int, lit@) is None,
        }),
{
    let lv = chars_of(lit);
    if pos > v.len() || lv.len() > v.len() - pos {
        return None;
    }
    let mut k: usize = 0;
    while k < lv.len()
        invariant
            k <= lv.len(),
            pos + lv.len() <= v.len(),
            lv@ == lit@,
            forall|j: int| 0 <= j < k ==> v@[pos + j] == lit@[j],
        decreases lv.len() - k,
    {
        if v[pos + k] != lv[k] {
            proof {
                assert(v@.subrange(pos as int, pos + lit@.len())[k as int] != lit@[k as int]);
            }
            return None;
        }
        k += 1;
    }
    proof {
        assert(v@.subrange(pos as int, pos + lit@.len()) =~= lit@);
    }
    Some(pos + lv.len())
}

/// Parse the remainder of a JSON string at `pos`, returning the unescaped
/// content and the position after the closing quote.
fn scan_jstring(v: &Vec<char>, pos: usize) -> (r: Option<(Vec<char>, usize)>)
    ensures
        (match r {
            Some(t) => parse_jstring(v@, pos as int) == Some((t.0@, t.1 as int)),
            None => parse_jstring(v@, pos as int) is None,
        }),
    decreases v.len() - pos,
{
    if pos >= v.len() {
        return None;
    }
    let c = v[pos];
    if c == '"' {
        let t: Vec<char> = Vec::new();
        proof {
            assert(t@ =~= Seq::<char>::empty());
        }
        return Some((t, pos + 1));
    }
    if c == '\\' {
        if pos + 1 < v.len() && (v[pos + 1] == '"' || v[pos + 1] == '\\') {
            match scan_jstring(v, pos + 2) {
                Some((mut t, p)) => {
                    let ghost t0 = t@;
                    t.insert(0, v[pos + 1]);
                    proof {
                        assert(t@ =~= seq![v@[pos + 1 as int]] + t0);
                    }
                    return Some((t, p));
                },
                None => {
                    return None;
                },
            }
        }
        if v.len() - pos > 5 && v[pos + 1] == 'u' && v[pos + 2] == '0' && v[pos + 3] == '0' {
            let hi = v[pos + 4];
            let lo = v[pos + 5];
            if !is_hex_char_exec(hi) || !is_hex_char_exec(lo) {
                return None;
            }
            let hv = hex_val_exec(hi);
            let lv = hex_val_exec(lo);
            let val = hv * 16 + lv;
            if val >= 0x20 {
                return None;
            }
            let decoded = (val as u8) as char;
            proof {
                assert(decoded == ((hex_val(v@[pos + 4 as int]) * 16 + hex_val(
                    v@[pos + 5 as int],
                )) as u8 as char));
            }
            match scan_jstring(v, pos + 6) {
                Some((mut t, p)) => {
                    let ghost t0 = t@;
                    t.insert(0, decoded);
                    proof {
                        assert(t@ =~= seq![decoded] + t0);
                    }
                    return Some((t, p));
                },
                None => {
                    return None;
                },
            }
        }
        return None;
    }
    if (c as u32) < 0x20 {
        return None;
    }
    match scan_jstring(v, pos + 1) {
        Some((mut t, p)) => {
            let ghost t0 = t@;
            t.insert(0, c);
            proof {
                assert(t@ =~= seq![c] + t0);
            }
            Some((t, p))
        },
        None => None,
    }
}

fn is_hex_char_exec(c: char) -> (r: bool)
    ensures
        r == is_hex_char(c),
{
    let n = c as u32;
    (48 <= n && n <= 57) || (97 <= n && n <= 102)
}

fn hex_val_exec(c: char) -> (r: u32)
    requires
        is_hex_char(c),
    ensures
        r == hex_val(c),
        r < 16,
{
    let n = c as u32;
    if 48 <= n && n <= 57 {
        n - 48
    } else {
        n - 87
    }
}

/// What the maximal digit run at `pos` looks like: it is a subrange of
/// `s`, every character in it is a digit, and it ends at a non-digit or
/// at the end of the input.
pub proof fn lemma_digits_run_facts(s: Seq<char>, pos: int)
    requires
        0 <= pos <= s.len(),
    ensures
        ({
            let ds = digits_run(s, pos);
            &&& pos + ds.len() <= s.len()
            &&& ds == s.subrange(pos, pos + ds.len())
            &&& forall|j: int| 0 <= j < ds.len() ==> is_dec_digit(#[trigger] ds[j])
            &&& (pos + ds.len() == s.len() || !is_dec_digit(s[pos + ds.len()]))
        }),
    decreases s.len() - pos,
{
    let ds = digits_run(s, pos);
    if pos < s.len() && is_dec_digit(s[pos]) {
        lemma_digits_run_facts(s, pos + 1);
        let rest = digits_run(s, pos + 1);
        assert(ds == seq![s[pos]] + rest);
        assert(ds =~= s.subrange(pos, pos + ds.len()));
    } else {
        assert(ds =~= s.subrange(pos, pos));
    }
}

/// The value of a digit run is non-negative, and each extra digit scales
/// the prefix value by ten.
pub proof fn lemma_digits_val_nonneg(ds: Seq<char>)
    requires
        forall|j: int| 0 <= j < ds.len() ==> is_dec_digit(#[trigger] ds[j]),
    ensures
        digits_val(ds) >= 0,
    decreases ds.len(),
{
    if ds.len() > 0 {
        assert(forall|j: int|
            0 <= j < ds.drop_last().len() ==> is_dec_digit(#[trigger] ds.drop_last()[j]));
        lemma_digits_val_nonneg(ds.drop_last());
        assert(is_dec_digit(ds[ds.len() - 1]));
        assert(dec_val(ds.last()) >= 0);
        assert(digits_val(ds.drop_last()) * 10 >= 0);
    }
}

pub proof fn lemma_digits_val_take_succ(ds: Seq<char>, k: int)
    requires
        0 <= k < ds.len(),
    ensures
        digits_val(ds.take(k + 1)) == digits_val(ds.take(k)) * 10 + dec_val(ds[k]),
{
    assert(ds.take(k + 1).drop_last() =~= ds.take(k));
    assert(ds.take(k + 1).last() == ds[k]);
}

/// A prefix of a digit run never exceeds the value of the whole run.
pub proof fn lemma_digits_val_prefix(ds: Seq<char>, k: int)
    requires
        forall|j: int| 0 <= j < ds.len() ==> is_dec_digit(#[trigger] ds[j]),
        0 <= k <= ds.len(),
    ensures
        digits_val(ds.take(k)) <= digits_val(ds),
    decreases ds.len() - k,
{
    if k == ds.len() {
        assert(ds.take(k) =~= ds);
    } else {
        lemma_digits_val_prefix(ds, k + 1);
        lemma_digits_val_take_succ(ds, k);
        let a = digits_val(ds.take(k));
        assert(a >= 0) by {
            assert(forall|j: int|
                0 <= j < ds.take(k).len() ==> is_dec_digit(#[trigger] ds.take(k)[j]));
            lemma_digits_val_nonneg(ds.take(k));
        }
        assert(a * 10 >= a);
        assert(is_dec_digit(ds[k]));
        assert(0 <= dec_val(ds[k]));
    }
}

/// Parse an unsigned decimal number at `pos`.
fn scan_u128(v: &Vec<char>, pos: usize) -> (r: Option<(u128, usize)>)
    requires
        pos <= v.len(),
    ensures
        (match r {
            Some(t) => parse_u128(v@, pos as int) == Some((t.0, t.1 as int)),
            None => parse_u128(v@, pos as int) is None,
        }),
{
    proof {
        lemma_digits_run_facts(v@, pos as int);
    }
    let ghost ds = digits_run(v@, pos as int);
    if pos >= v.len() || !is_dec_digit_exec(v[pos]) {
        proof {
            assert(ds.len() == 0);
        }
        return None;
    }
    let mut acc: u128 = 0;
    let mut k: usize = 0;
    proof {
        assert(ds.take(0) =~= Seq::<char>::empty());
        lemma_digits_val_nonneg(ds);
    }
    while pos + k < v.len() && is_dec_digit_exec(v[pos + k])
        invariant
            pos + k <= v.len(),
            k <= ds.len(),
            ds == digits_run(v@, pos as int),
            pos + ds.len() <= v@.len(),
            ds == v@.subrange(pos as int, pos + ds.len()),
            forall|j: int| 0 <= j < ds.len() ==> is_dec_digit(#[trigger] ds[j]),
            pos + ds.len() == v@.len() || !is_dec_digit(v@[pos + ds.len()]),
            acc == digits_val(ds.take(k as int)),
        decreases v.len() - pos - k,
    {
        proof {
            if k >= ds.len() {
                assert(!is_dec_digit(v@[pos + ds.len()]));
            }
            assert(ds[k as int] == v@[pos + k]);
        }
        let d = (v[pos + k] as u32 - 48) as u128;
        proof {
            lemma_digits_val_take_succ(ds, k as int);
        }
        if acc > (u128::MAX - d) / 10 {
            proof {
                assert(acc * 10 + d > u128::MAX) by (nonlinear_arith)
                    requires
                        acc > (u128::MAX - d) / 10,
                        d < 10,
                ;
                lemma_digits_val_prefix(ds, k + 1 as int);
                assert(digits_val(ds) > u128::MAX as int);
            }
            return None;
        }
        proof {
            assert(acc * 10 + d <= u128::MAX) by (nonlinear_arith)
                requires
                    acc <= (u128::MAX - d) / 10,
                    d < 10,
            ;
        }
        acc = acc * 10 + d;
        k += 1;
    }
    proof {
        if k < ds.len() {
            assert(ds[k as int] == v@[pos + k]);
            assert(is_dec_digit(v@[pos + k]));
        }
        assert(k == ds.len());
        assert(ds.take(k as int) =~= ds);
        assert(0 <= digits_val(ds) <= u128::MAX as int);
    }
    Some((acc, pos + k))
}

fn is_dec_digit_exec(c: char) -> (r: bool)
    ensures
        r == is_dec_digit(c),
{
    let n = c as u32;
    48 <= n && n <= 57
}

/// Parse a signed decimal number at `pos` into the range of `i64`.
fn scan_i64(v: &Vec<char>, pos: usize) -> (r: Option<(i64, usize)>)
    requires
        pos <= v.len(),
    ensures
        (match r {
            Some(t) => parse_i64(v@, pos as int) == Some((t.0, t.1 as int)),
            None => parse_i64(v@, pos as int) is None,
        }),
{
    if pos < v.len() && v[pos] == '-' {
        match scan_u128(v, pos + 1) {
            Some((mag, p)) => {
                if 1 <= mag && mag <= 9223372036854775808u128 {
                    let t = (-(mag as i128)) as i64;
                    proof {
                        assert(t as int == -(mag as int));
                    }
                    Some((t, p))
                } else {
                    None
                }
            },
            None => None,
        }
    } else {
        match scan_u128(v, pos) {
            Some((mag, p)) => {
                if mag <= i64::MAX as u128 {
                    Some((mag as i64, p))
                } else {
                    None
                }
            },
            None => None,
        }
    }
}

// ---------------------------------------------------------------------
// Frame encodings (specification side).
// ---------------------------------------------------------------------
/// The code word of each error variant.
pub open spec fn spec_enc_error(e: ErrorOutput) -> Seq<char> {
    match e {
        ErrorOutput::InvalidSession => "invalid-session"@,
        ErrorOutput::InvalidMessageRequest => "invalid-message-request"@,
        ErrorOutput::ChannelFull => "channel-full"@,
        ErrorOutput::NameTaken => "name-taken"@,
    }
}

/// A channel summary as one JSON object.
pub open spec fn spec_enc_channel(c: ChannelModelResponseV) -> Seq<char> {
    "{\"id\":"@ + dec_u128(c.id as nat) + ",\"name\":\""@ + esc(c.name) + "\"}"@
}

/// A user summary as one JSON object.
pub open spec fn spec_enc_user(u: UserModelResponseV) -> Seq<char> {
    "{\"id\":"@ + dec_u128(u.id as nat) + ",\"name\":\""@ + esc(u.name) + "\"}"@
}

/// A message as one JSON object.
pub open spec fn spec_enc_msg(m: MessageModelResponseV) -> Seq<char> {
    "{\"id\":"@ + dec_u128(m.id as nat) + ",\"body\":\""@ + esc(m.body) + "\",\"createdBy\":"@
        + dec_u128(m.created_by as nat) + ",\"createdAt\":"@ + dec_i64(m.created_at) + "}"@
}

/// The channel summaries from index `i` on, separated by commas.
pub open spec fn spec_enc_channel_items(cs: Seq<ChannelModelResponseV>, i: int) -> Seq<char>
    decreases cs.len() - i,
{
    if i < 0 || i >= cs.len() {
        Seq::empty()
    } else if i == cs.len() - 1 {
        spec_enc_channel(cs[i])
    } else {
        spec_enc_channel(cs[i]) + ","@ + spec_enc_channel_items(cs, i + 1)
    }
}

/// The wire frame of an outbound payload.
pub open spec fn spec_enc_output(o: OutputV) -> Seq<char> {
    match o {
        OutputV::UserJoined(u) => "{\"type\":\"user-joined\",\"payload\":{\"channels\":["@
            + spec_enc_channel_items(u.channels, 0) + "],\"user\":"@ + spec_enc_user(u.user)
            + "}}"@,
        OutputV::UserDisconnect(d) => "{\"type\":\"user-disconnect\",\"payload\":{\"userId\":"@
            + dec_u128(d.user_id as nat) + "}}"@,
        OutputV::UserMessage(m) => "{\"type\":\"user-message\",\"payload\":{\"message\":"@
            + spec_enc_msg(m.message) + ",\"channel\":"@ + spec_enc_channel(m.channel) + "}}"@,
        OutputV::Message(m) => "{\"type\":\"message\",\"payload\":{\"message\":"@ + spec_enc_msg(
            m.message,
        ) + ",\"channel\":"@ + spec_enc_channel(m.channel) + "}}"@,
        OutputV::Error(e) => "{\"type\":\"error\",\"payload\":{\"code\":\""@ + spec_enc_error(e)
            + "\"}}"@,
        OutputV::KeepAliveTick => "{\"type\":\"keep-alive-tick\"}"@,
    }
}

/// The wire frame of an inbound event.
pub open spec fn spec_enc_input(i: InputV) -> Seq<char> {
    match i {
        InputV::Join(j) => "{\"type\":\"join\",\"payload\":{\"userName\":\""@ + esc(j.user_name)
            + "\"}}"@,
        InputV::Message(m) => "{\"type\":\"message\",\"payload\":{\"body\":\""@ + esc(m.body)
            + "\"}}"@,
    }
}

// ---------------------------------------------------------------------
// Frame parsing (specification side).
// ---------------------------------------------------------------------
pub open spec fn spec_parse_channel(s: Seq<char>, pos: int) -> Option<(ChannelModelResponseV, int)> {
    match parse_lit(s, pos, "{\"id\":"@) {
        Some(p1) => match parse_u128(s, p1) {
            Some((id, p2)) => match parse_lit(s, p2, ",\"name\":\""@) {
                Some(p3) => match parse_jstring(s, p3) {
                    Some((name, p4)) => match parse_lit(s, p4, "}"@) {
                        Some(p5) => Some((ChannelModelResponseV { id, name }, p5)),
                        None => None,
                    },
                    None => None,
                },
                None => None,
            },
            None => None,
        },
        None => None,
    }
}

pub open spec fn spec_parse_user(s: Seq<char>, pos: int) -> Option<(UserModelResponseV, int)> {
    match parse_lit(s, pos, "{\"id\":"@) {
        Some(p1) => match parse_u128(s, p1) {
            Some((id, p2)) => match parse_lit(s, p2, ",\"name\":\""@) {
                Some(p3) => match parse_jstring(s, p3) {
                    Some((name, p4)) => match parse_lit(s, p4, "}"@) {
                        Some(p5) => Some((UserModelResponseV { id, name }, p5)),
                        None => None,
                    },
                    None => None,
                },
                None => None,
            },
            None => None,
        },
        None => None,
    }
}

pub open spec fn spec_parse_msg(s: Seq<char>, pos: int) -> Option<(MessageModelResponseV, int)> {
    match parse_lit(s, pos, "{\"id\":"@) {
        Some(p1) => match parse_u128(s, p1) {
            Some((id, p2)) => match parse_lit(s, p2, ",\"body\":\""@) {
                Some(p3) => match parse_jstring(s, p3) {
                    Some((body, p4)) => match parse_lit(s, p4, ",\"createdBy\":"@) {
                        Some(p5) => match parse_u128(s, p5) {
                            Some((created_by, p6)) => match parse_lit(s, p6, ",\"createdAt\":"@) {
                                Some(p7) => match parse_i64(s, p7) {
                                    Some((created_at, p8)) => match parse_lit(s, p8, "}"@) {
                                        Some(p9) => Some(
                                            (
                                                MessageModelResponseV {
                                                    id,
                                                    body,
                                                    created_by,
                                                    created_at,
                                                },
                                                p9,
                                            ),
                                        ),
                                        None => None,
                                    },
                                    None => None,
                                },
                                None => None,
                            },
                            None => None,
                        },
                        None => None,
                    },
                    None => None,
                },
                None => None,
            },
            None => None,
        },
        None => None,
    }
}

/// The comma-separated channel summaries before a closing bracket. `fuel`
/// bounds the recursion; any value at least the item count behaves alike.
pub open spec fn spec_parse_channel_items(s: Seq<char>, pos: int, fuel: nat) -> Option<
    (Seq<ChannelModelResponseV>, int),
>
    decreases fuel,
{
    if fuel == 0 {
        None
    } else if 0 <= pos < s.len() && s[pos] == ']' {
        Some((Seq::empty(), pos))
    } else {
        match spec_parse_channel(s, pos) {
            Some((c, p)) => if 0 <= p < s.len() && s[p] == ',' {
                match spec_parse_channel_items(s, p + 1, (fuel - 1) as nat) {
                    Some((rest, p2)) => Some((seq![c] + rest, p2)),
                    None => None,
                }
            } else {
                Some((seq![c], p))
            },
            None => None,
        }
    }
}

pub open spec fn spec_parse_output(s: Seq<char>) -> Option<OutputV> {
    match parse_lit(s, 0, "{\"type\":\"user-joined\",\"payload\":{\"channels\":["@) {
        Some(p1) => match spec_parse_channel_items(s, p1, s.len() as nat) {
            Some((cs, p2)) => match parse_lit(s, p2, "],\"user\":"@) {
                Some(p3) => match spec_parse_user(s, p3) {
                    Some((u, p4)) => match parse_lit(s, p4, "}}"@) {
                        Some(p5) => if p5 == s.len() {
                            Some(OutputV::UserJoined(UserJoinedOutputV { channels: cs, user: u }))
                        } else {
                            None
                        },
                        None => None,
                    },
                    None => None,
                },
                None => None,
            },
            None => None,
        },
        None => match parse_lit(s, 0, "{\"type\":\"user-disconnect\",\"payload\":{\"userId\":"@) {
            Some(p1) => match parse_u128(s, p1) {
                Some((id, p2)) => match parse_lit(s, p2, "}}"@) {
                    Some(p3) => if p3 == s.len() {
                        Some(OutputV::UserDisconnect(UserDiscconnectOutput { user_id: id }))
                    } else {
                        None
                    },
                    None => None,
                },
                None => None,
            },
            None => match parse_lit(s, 0, "{\"type\":\"user-message\",\"payload\":{\"message\":"@) {
                Some(p1) => match spec_parse_message_tail(s, p1) {
                    Some((m, p2)) => if p2 == s.len() {
                        Some(OutputV::UserMessage(m))
                    } else {
                        None
                    },
                    None => None,
                },
                None => match parse_lit(s, 0, "{\"type\":\"message\",\"payload\":{\"message\":"@) {
                    Some(p1) => match spec_parse_message_tail(s, p1) {
                        Some((m, p2)) => if p2 == s.len() {
                            Some(OutputV::Message(m))
                        } else {
                            None
                        },
                        None => None,
                    },
                    None => match spec_parse_error_frame(s) {
                        Some(e) => Some(OutputV::Error(e)),
                        None => match parse_lit(s, 0, "{\"type\":\"keep-alive-tick\"}"@) {
                            Some(p1) => if p1 == s.len() {
                                Some(OutputV::KeepAliveTick)
                            } else {
                                None
                            },
                            None => None,
                        },
                    },
                },
            },
        },
    }
}

/// The message and channel objects shared by the echo and broadcast frames.
pub open spec fn spec_parse_message_tail(s: Seq<char>, pos: int) -> Option<
    (UserMessageOutputV, int),
> {
    match spec_parse_msg(s, pos) {
        Some((m, p1)) => match parse_lit(s, p1, ",\"channel\":"@) {
            Some(p2) => match spec_parse_channel(s, p2) {
                Some((c, p3)) => match parse_lit(s, p3, "}}"@) {
                    Some(p4) => Some((UserMessageOutputV { message: m, channel: c }, p4)),
                    None => None,
                },
                None => None,
            },
            None => None,
        },
        None => None,
    }
}

pub open spec fn spec_parse_error_frame(s: Seq<char>) -> Option<ErrorOutput> {
    match parse_lit(s, 0, "{\"type\":\"error\",\"payload\":{\"code\":\""@) {
        Some(p1) => match parse_lit(s, p1, "invalid-session\"}}"@) {
            Some(p2) => if p2 == s.len() {
                Some(ErrorOutput::InvalidSession)
            } else {
                None
            },
            None => match parse_lit(s, p1, "invalid-message-request\"}}"@) {
                Some(p2) => if p2 == s.len() {
                    Some(ErrorOutput::InvalidMessageRequest)
                } else {
                    None
                },
                None => match parse_lit(s, p1, "channel-full\"}}"@) {
                    Some(p2) => if p2 == s.len() {
                        Some(ErrorOutput::ChannelFull)
                    } else {
                        None
                    },
                    None => match parse_lit(s, p1, "name-taken\"}}"@) {
                        Some(p2) => if p2 == s.len() {
                            Some(ErrorOutput::NameTaken)
                        } else {
                            None
                        },
                        None => None,
                    },
                },
            },
        },
        None => None,
    }
}

pub open spec fn spec_parse_input(s: Seq<char>) -> Option<InputV> {
    match parse_lit(s, 0, "{\"type\":\"join\",\"payload\":{\"userName\":\""@) {
        Some(p1) => match parse_jstring(s, p1) {
            Some((name, p2)) => match parse_lit(s, p2, "}}"@) {
                Some(p3) => if p3 == s.len() {
                    Some(InputV::Join(JoinEventV { user_name: name }))
                } else {
                    None
                },
                None => None,
            },
            None => None,
        },
        None => match parse_lit(s, 0, "{\"type\":\"message\",\"payload\":{\"body\":\""@) {
            Some(p1) => match parse_jstring(s, p1) {
                Some((body, p2)) => match parse_lit(s, p2, "}}"@) {
                    Some(p3) => if p3 == s.len() {
                        Some(InputV::Message(MessageEventV { body }))
                    } else {
                        None
                    },
                    None => None,
                },
                None => None,
            },
            None => None,
        },
    }
}

// ---------------------------------------------------------------------
// Frame encoding (executable side).
// ---------------------------------------------------------------------
fn push_channel(out: &mut String, c: &ChannelModelResponse)
    ensures
        final(out)@ == old(out)@ + spec_enc_channel(c@),
{
    out.append("{\"id\":");
    push_dec_u128(out, c.id);
    out.append(",\"name\":\"");
    push_escaped(out, c.name.as_str());
    out.append("\"}");
    proof {
        assert(out@ =~= old(out)@ + spec_enc_channel(c@));
    }
}

fn push_user(out: &mut String, u: &UserModelResponse)
    ensures
        final(out)@ == old(out)@ + spec_enc_user(u@),
{
    out.append("{\"id\":");
    push_dec_u128(out, u.id);
    out.append(",\"name\":\"");
    push_escaped(out, u.name.as_str());
    out.append("\"}");
    proof {
        assert(out@ =~= old(out)@ + spec_enc_user(u@));
    }
}

fn push_msg(out: &mut String, m: &MessageModelResponse)
    ensures
        final(out)@ == old(out)@ + spec_enc_msg(m@),
{
    out.append("{\"id\":");
    push_dec_u128(out, m.id);
    out.append(",\"body\":\"");
    push_escaped(out, m.body.as_str());
    out.append("\",\"createdBy\":");
    push_dec_u128(out, m.created_by);
    out.append(",\"createdAt\":");
    push_dec_i64(out, m.created_at);
    out.append("}");
    proof {
        assert(out@ =~= old(out)@ + spec_enc_msg(m@));
    }
}

fn push_channel_items(out: &mut String, cs: &Vec<ChannelModelResponse>, i: usize)
    requires
        i <= cs.len(),
    ensures
        final(out)@ == old(out)@ + spec_enc_channel_items(cs.deep_view(), i as int),
    decreases cs.len() - i,
{
    if i < cs.len() {
        push_channel(out, &cs[i]);
        if i + 1 < cs.len() {
            out.append(",");
            push_channel_items(out, cs, i + 1);
        }
    }
    proof {
        assert(cs.deep_view().len() == cs@.len());
        if i < cs.len() {
            assert(cs.deep_view()[i as int] == cs@[i as int]@);
        }
        assert(out@ =~= old(out)@ + spec_enc_channel_items(cs.deep_view(), i as int));
    }
}

fn push_error(out: &mut String, e: &ErrorOutput)
    ensures
        final(out)@ == old(out)@ + spec_enc_error(*e),
{
    match e {
        ErrorOutput::InvalidSession => out.append("invalid-session"),
        ErrorOutput::InvalidMessageRequest => out.append("invalid-message-request"),
        ErrorOutput::ChannelFull => out.append("channel-full"),
        ErrorOutput::NameTaken => out.append("name-taken"),
    }
}

/// Encode an outbound payload as its wire frame.
pub fn encode_output(output: &Output) -> (r: String)
    ensures
        r@ == spec_enc_output(output@),
{
    let mut out = String::new();
    match output {
        Output::UserJoined(u) => {
            out.append("{\"type\":\"user-joined\",\"payload\":{\"channels\":[");
            push_channel_items(&mut out, &u.channels, 0);
            out.append("],\"user\":");
            push_user(&mut out, &u.user);
            out.append("}}");
        },
        Output::UserDisconnect(d) => {
            out.append("{\"type\":\"user-disconnect\",\"payload\":{\"userId\":");
            push_dec_u128(&mut out, d.user_id);
            out.append("}}");
        },
        Output::UserMessage(m) => {
            out.append("{\"type\":\"user-message\",\"payload\":{\"message\":");
            push_msg(&mut out, &m.message);
            out.append(",\"channel\":");
            push_channel(&mut out, &m.channel);
            out.append("}}");
        },
        Output::Message(m) => {
            out.append("{\"type\":\"message\",\"payload\":{\"message\":");
            push_msg(&mut out, &m.message);
            out.append(",\"channel\":");
            push_channel(&mut out, &m.channel);
            out.append("}}");
        },
        Output::Error(e) => {
            out.append("{\"type\":\"error\",\"payload\":{\"code\":\"");
            push_error(&mut out, e);
            out.append("\"}}");
        },
        Output::KeepAliveTick => {
            out.append("{\"type\":\"keep-alive-tick\"}");
        },
    }
    proof {
        assert(out@ =~= spec_enc_output(output@));
    }
    out
}

/// Encode an inbound event as its wire frame.
pub fn encode_input(input: &Input) -> (r: String)
    ensures
        r@ == spec_enc_input(input@),
{
    let mut out = String::new();
    match input {
        Input::Join(j) => {
            out.append("{\"type\":\"join\",\"payload\":{\"userName\":\"");
            push_escaped(&mut out, j.user_name.as_str());
            out.append("\"}}");
        },
        Input::Message(m) => {
            out.append("{\"type\":\"message\",\"payload\":{\"body\":\"");
            push_escaped(&mut out, m.body.as_str());
            out.append("\"}}");
        },
    }
    proof {
        assert(out@ =~= spec_enc_input(input@));
    }
    out
}

// ---------------------------------------------------------------------
// Frame parsing (executable side).
// ---------------------------------------------------------------------
fn scan_channel(v: &Vec<char>, pos: usize) -> (r: Option<(ChannelModelResponse, usize)>)
    ensures
        (match r {
            Some(t) => spec_parse_channel(v@, pos as int) == Some((t.0@, t.1 as int)),
            None => spec_parse_channel(v@, pos as int) is None,
        }),
{
    match match_lit(v, pos, "{\"id\":") {
        Some(p1) => match scan_u128(v, p1) {
            Some((id, p2)) => match match_lit(v, p2, ",\"name\":\"") {
                Some(p3) => match scan_jstring(v, p3) {
                    Some((name, p4)) => match match_lit(v, p4, "}") {
                        Some(p5) => Some(
                            (ChannelModelResponse { id, name: string_of_chars(&name) }, p5),
                        ),
                        None => None,
                    },
                    None => None,
                },
                None => None,
            },
            None => None,
        },
        None => None,
    }
}

fn scan_user(v: &Vec<char>, pos: usize) -> (r: Option<(UserModelResponse, usize)>)
    ensures
        (match r {
            Some(t) => spec_parse_user(v@, pos as int) == Some((t.0@, t.1 as int)),
            None => spec_parse_user(v@, pos as int) is None,
        }),
{
    match match_lit(v, pos, "{\"id\":") {
        Some(p1) => match scan_u128(v, p1) {
            Some((id, p2)) => match match_lit(v, p2, ",\"name\":\"") {
                Some(p3) => match scan_jstring(v, p3) {
                    Some((name, p4)) => match match_lit(v, p4, "}") {
                        Some(p5) => Some(
                            (UserModelResponse { id, name: string_of_chars(&name) }, p5),
                        ),
                        None => None,
                    },
                    None => None,
                },
                None => None,
            },
            None => None,
        },
        None => None,
    }
}

fn scan_msg(v: &Vec<char>, pos: usize) -> (r: Option<(MessageModelResponse, usize)>)
    ensures
        (match r {
            Some(t) => spec_parse_msg(v@, pos as int) == Some((t.0@, t.1 as int)),
            None => spec_parse_msg(v@, pos as int) is None,
        }),
{
    match match_lit(v, pos, "{\"id\":") {
        Some(p1) => match scan_u128(v, p1) {
            Some((id, p2)) => match match_lit(v, p2, ",\"body\":\"") {
                Some(p3) => match scan_jstring(v, p3) {
                    Some((body, p4)) => match match_lit(v, p4, ",\"createdBy\":") {
                        Some(p5) => match scan_u128(v, p5) {
                            Some((created_by, p6)) => match match_lit(v, p6, ",\"createdAt\":") {
                                Some(p7) => match scan_i64(v, p7) {
                                    Some((created_at, p8)) => match match_lit(v, p8, "}") {
                                        Some(p9) => Some(
                                            (
                                                MessageModelResponse {
                                                    id,
                                                    body: string_of_chars(&body),
                                                    created_by,
                                                    created_at,
                                                },
                                                p9,
                                            ),
                                        ),
                                        None => None,
                                    },
                                    None => None,
                                },
                                None => None,
                            },
                            None => None,
                        },
                        None => None,
                    },
                    None => None,
                },
                None => None,
            },
            None => None,
        },
        None => None,
    }
}

fn scan_channel_items(v: &Vec<char>, pos: usize, fuel: usize) -> (r: Option<
    (Vec<ChannelModelResponse>, usize),
>)
    ensures
        (match r {
            Some(t) => spec_parse_channel_items(v@, pos as int, fuel as nat) == Some(
                (t.0.deep_view(), t.1 as int),
            ),
            None => spec_parse_channel_items(v@, pos as int, fuel as nat) is None,
        }),
    decreases fuel,
{
    if fuel == 0 {
        return None;
    }
    if pos < v.len() && v[pos] == ']' {
        let items: Vec<ChannelModelResponse> = Vec::new();
        proof {
            assert(items.deep_view() =~= Seq::<ChannelModelResponseV>::empty());
        }
        return Some((items, pos));
    }
    match scan_channel(v, pos) {
        Some((c, p)) => {
            if p < v.len() && v[p] == ',' {
                match scan_channel_items(v, p + 1, fuel - 1) {
                    Some((mut rest, p2)) => {
                        let ghost rest0 = rest.deep_view();
                        let ghost restv = rest@;
                        let ghost cv = c@;
                        rest.insert(0, c);
                        proof {
                            assert forall|j: int| 0 <= j < rest@.len() implies rest.deep_view()[j]
                                == (seq![cv] + rest0)[j] by {
                                if j == 0 {
                                    assert(rest@[0] == restv.insert(0, c)[0]);
                                } else {
                                    assert(rest@[j] == restv[j - 1]);
                                    assert(rest0[j - 1] == restv[j - 1]@);
                                }
                            }
                            assert(rest.deep_view() =~= seq![cv] + rest0);
                        }
                        Some((rest, p2))
                    },
                    None => None,
                }
            } else {
                let mut items: Vec<ChannelModelResponse> = Vec::new();
                let ghost cv = c@;
                items.push(c);
                proof {
                    assert(items.deep_view() =~= seq![cv]);
                }
                Some((items, p))
            }
        },
        None => None,
    }
}

fn scan_message_tail(v: &Vec<char>, pos: usize) -> (r: Option<(UserMessageOutput, usize)>)
    ensures
        (match r {
            Some(t) => spec_parse_message_tail(v@, pos as int) == Some((t.0@, t.1 as int)),
            None => spec_parse_message_tail(v@, pos as int) is None,
        }),
{
    match scan_msg(v, pos) {
        Some((m, p1)) => match match_lit(v, p1, ",\"channel\":") {
            Some(p2) => match scan_channel(v, p2) {
                Some((c, p3)) => match match_lit(v, p3, "}}") {
                    Some(p4) => Some((UserMessageOutput { message: m, channel: c }, p4)),
                    None => None,
                },
                None => None,
            },
            None => None,
        },
        None => None,
    }
}

/// Decode a wire frame into an outbound payload; only the canonical frame
/// of each payload is accepted.
pub fn decode_output(s: &str) -> (r: Option<Output>)
    ensures
        (match r {
            Some(o) => spec_parse_output(s@) == Some(o@),
            None => spec_parse_output(s@) is None,
        }),
{
    let v = chars_of(s);
    match match_lit(&v, 0, "{\"type\":\"user-joined\",\"payload\":{\"channels\":[") {
        Some(p1) => {
            match scan_channel_items(&v, p1, v.len()) {
                Some((cs, p2)) => match match_lit(&v, p2, "],\"user\":") {
                    Some(p3) => match scan_user(&v, p3) {
                        Some((u, p4)) => match match_lit(&v, p4, "}}") {
                            Some(p5) => {
                                if p5 == v.len() {
                                    Some(
                                        Output::UserJoined(
                                            UserJoinedOutput { channels: cs, user: u },
                                        ),
                                    )
                                } else {
                                    None
                                }
                            },
                            None => None,
                        },
                        None => None,
                    },
                    None => None,
                },
                None => None,
            }
        },
        None => match match_lit(&v, 0, "{\"type\":\"user-disconnect\",\"payload\":{\"userId\":") {
            Some(p1) => match scan_u128(&v, p1) {
                Some((id, p2)) => match match_lit(&v, p2, "}}") {
                    Some(p3) => {
                        if p3 == v.len() {
                            Some(Output::UserDisconnect(UserDiscconnectOutput { user_id: id }))
                        } else {
                            None
                        }
                    },
                    None => None,
                },
                None => None,
            },
            None => match match_lit(&v, 0, "{\"type\":\"user-message\",\"payload\":{\"message\":") {
                Some(p1) => match scan_message_tail(&v, p1) {
                    Some((m, p2)) => {
                        if p2 == v.len() {
                            Some(Output::UserMessage(m))
                        } else {
                            None
                        }
                    },
                    None => None,
                },
                None => match match_lit(&v, 0, "{\"type\":\"message\",\"payload\":{\"message\":") {
                    Some(p1) => match scan_message_tail(&v, p1) {
                        Some((m, p2)) => {
                            if p2 == v.len() {
                                Some(Output::Message(m))
                            } else {
                                None
                            }
                        },
                        None => None,
                    },
                    None => match scan_error_frame(&v) {
                        Some(e) => Some(Output::Error(e)),
                        None => match match_lit(&v, 0, "{\"type\":\"keep-alive-tick\"}") {
                            Some(p1) => {
                                if p1 == v.len() {
                                    Some(Output::KeepAliveTick)
                                } else {
                                    None
                                }
                            },
                            None => None,
                        },
                    },
                },
            },
        },
    }
}

fn scan_error_frame(v: &Vec<char>) -> (r: Option<ErrorOutput>)
    ensures
        (match r {
            Some(e) => spec_parse_error_frame(v@) == Some(e),
            None => spec_parse_error_frame(v@) is None,
        }),
{
    match match_lit(v, 0, "{\"type\":\"error\",\"payload\":{\"code\":\"") {
        Some(p1) => match match_lit(v, p1, "invalid-session\"}}") {
            Some(p2) => {
                if p2 == v.len() {
                    Some(ErrorOutput::InvalidSession)
                } else {
                    None
                }
            },
            None => match match_lit(v, p1, "invalid-message-request\"}}") {
                Some(p2) => {
                    if p2 == v.len() {
                        Some(ErrorOutput::InvalidMessageRequest)
                    } else {
                        None
                    }
                },
                None => match match_lit(v, p1, "channel-full\"}}") {
                    Some(p2) => {
                        if p2 == v.len() {
                            Some(ErrorOutput::ChannelFull)
                        } else {
                            None
                        }
                    },
                    None => match match_lit(v, p1, "name-taken\"}}") {
                        Some(p2) => {
                            if p2 == v.len() {
                                Some(ErrorOutput::NameTaken)
                            } else {
                                None
                            }
                        },
                        None => None,
                    },
                },
            },
        },
        None => None,
    }
}

/// Decode a wire frame into an inbound event; only the canonical frame of
/// each event is accepted.
pub fn decode_input(s: &str) -> (r: Option<Input>)
    ensures
        (match r {
            Some(i) => spec_parse_input(s@) == Some(i@),
            None => spec_parse_input(s@) is None,
        }),
{
    let v = chars_of(s);
    match match_lit(&v, 0, "{\"type\":\"join\",\"payload\":{\"userName\":\"") {
        Some(p1) => match scan_jstring(&v, p1) {
            Some((name, p2)) => match match_lit(&v, p2, "}}") {
                Some(p3) => {
                    if p3 == v.len() {
                        Some(Input::Join(JoinEvent { user_name: string_of_chars(&name) }))
                    } else {
                        None
                    }
                },
                None => None,
            },
            None => None,
        },
        None => match match_lit(&v, 0, "{\"type\":\"message\",\"payload\":{\"body\":\"") {
            Some(p1) => match scan_jstring(&v, p1) {
                Some((body, p2)) => match match_lit(&v, p2, "}}") {
                    Some(p3) => {
                        if p3 == v.len() {
                            Some(Input::Message(MessageEvent { body: string_of_chars(&body) }))
                        } else {
                            None
                        }
                    },
                    None => None,
                },
                None => None,
            },
            None => None,
        },
    }
}

// ---------------------------------------------------------------------
// Round-trip lemmas.
// ---------------------------------------------------------------------
/// Characters with the same code point are the same character.
proof fn lemma_char_inj(c1: char, c2: char)
    requires
        c1 as u32 == c2 as u32,
    ensures
        c1 == c2,
{
}

/// Splitting a known subrange made of two parts.
proof fn lemma_split2(s: Seq<char>, pos: int, x: Seq<char>, y: Seq<char>)
    requires
        0 <= pos,
        pos + x.len() + y.len() <= s.len(),
        s.subrange(pos, pos + x.len() + y.len()) == x + y,
    ensures
        s.subrange(pos, pos + x.len()) == x,
        s.subrange(pos + x.len(), pos + x.len() + y.len()) == y,
{
    let whole = s.subrange(pos, pos + x.len() + y.len());
    assert forall|k: int| 0 <= k < x.len() implies s.subrange(pos, pos + x.len())[k] == x[k] by {
        assert(whole[k] == (x + y)[k]);
    }
    assert(s.subrange(pos, pos + x.len()) =~= x);
    assert forall|k: int|
        0 <= k < y.len() implies s.subrange(pos + x.len(), pos + x.len() + y.len())[k] == y[k] by {
        assert(whole[x.len() + k] == (x + y)[x.len() + k]);
    }
    assert(s.subrange(pos + x.len(), pos + x.len() + y.len()) =~= y);
}

/// Joining two adjacent known subranges.
proof fn lemma_join2(s: Seq<char>, pos: int, mid: int, end: int, x: Seq<char>, y: Seq<char>)
    requires
        0 <= pos <= mid <= end <= s.len(),
        s.subrange(pos, mid) == x,
        s.subrange(mid, end) == y,
    ensures
        s.subrange(pos, end) == x + y,
{
    assert forall|k: int| 0 <= k < end - pos implies s.subrange(pos, end)[k] == (x + y)[k] by {
        if k < mid - pos {
            assert(s.subrange(pos, mid)[k] == x[k]);
        } else {
            assert(s.subrange(mid, end)[k - (mid - pos)] == y[k - (mid - pos)]);
        }
    }
    assert(s.subrange(pos, end) =~= x + y);
}

/// A literal that stands at `pos` parses there.
proof fn lemma_lit_here(s: Seq<char>, pos: int, lit: Seq<char>)
    requires
        0 <= pos,
        pos + lit.len() <= s.len(),
        s.subrange(pos, pos + lit.len()) == lit,
    ensures
        parse_lit(s, pos, lit) == Some(pos + lit.len()),
{
}

/// A literal that disagrees with the input at one index does not parse.
proof fn lemma_lit_mismatch(s: Seq<char>, pos: int, lit: Seq<char>, k: int)
    requires
        0 <= pos,
        0 <= k < lit.len(),
        pos + k < s.len(),
        s[pos + k] != lit[k],
    ensures
        parse_lit(s, pos, lit) is None,
{
    if pos + lit.len() <= s.len() {
        assert(s.subrange(pos, pos + lit.len())[k] == s[pos + k]);
    }
}

/// The code point of a decimal digit character.
proof fn lemma_dec_digit_code(d: int)
    requires
        0 <= d < 10,
    ensures
        dec_digit(d) as u32 == 48 + d,
        is_dec_digit(dec_digit(d)),
        dec_val(dec_digit(d)) == d,
{
    assert(((48 + d) as u8) as char as u32 == 48 + d);
}

/// The code point of a hexadecimal digit character.
proof fn lemma_hex_digit_code(d: int)
    requires
        0 <= d < 16,
    ensures
        is_hex_char(hex_digit(d)),
        hex_val(hex_digit(d)) == d,
        d < 10 ==> hex_digit(d) as u32 == 48 + d,
        d >= 10 ==> hex_digit(d) as u32 == 87 + d,
{
    if d < 10 {
        assert(((48 + d) as u8) as char as u32 == 48 + d);
    } else {
        assert(((87 + d) as u8) as char as u32 == 87 + d);
    }
}

/// A hexadecimal digit character is determined by its value.
proof fn lemma_hex_char_canonical(c: char)
    requires
        is_hex_char(c),
    ensures
        0 <= hex_val(c) < 16,
        c == hex_digit(hex_val(c)),
{
    let d = hex_val(c);
    if is_dec_digit(c) {
        assert(d < 10);
        lemma_hex_digit_code(d);
        assert(hex_digit(d) as u32 == c as u32);
    } else {
        assert(d >= 10);
        lemma_hex_digit_code(d);
        assert(hex_digit(d) as u32 == c as u32);
    }
}

/// The decimal digits of a number are digits, and there is at least one.
proof fn lemma_dec_digits(n: nat)
    ensures
        dec_u128(n).len() >= 1,
        forall|j: int| 0 <= j < dec_u128(n).len() ==> is_dec_digit(#[trigger] dec_u128(n)[j]),
    decreases n,
{
    if n < 10 {
        lemma_dec_digit_code(n as int);
        assert(dec_u128(n) == seq![dec_digit(n as int)]);
    } else {
        lemma_dec_digits(n / 10);
        lemma_dec_digit_code((n % 10) as int);
        let ds = dec_u128(n);
        assert(ds == dec_u128(n / 10) + seq![dec_digit((n % 10) as int)]);
        assert forall|j: int| 0 <= j < ds.len() implies is_dec_digit(#[trigger] ds[j]) by {
            if j < dec_u128(n / 10).len() {
                assert(ds[j] == dec_u128(n / 10)[j]);
            } else {
                assert(ds[j] == dec_digit((n % 10) as int));
            }
        }
    }
}

/// Reading the decimal digits of `n` back gives `n`.
proof fn lemma_digits_val_of_dec(n: nat)
    ensures
        digits_val(dec_u128(n)) == n,
    decreases n,
{
    if n < 10 {
        let ds = dec_u128(n);
        lemma_dec_digit_code(n as int);
        assert(ds.drop_last() =~= Seq::<char>::empty());
        assert(ds.last() == dec_digit(n as int));
        assert(digits_val(ds.drop_last()) == 0);
        assert(digits_val(ds) == digits_val(ds.drop_last()) * 10 + dec_val(ds.last()));
    } else {
        lemma_digits_val_of_dec(n / 10);
        lemma_dec_digit_code((n % 10) as int);
        let ds = dec_u128(n);
        assert(ds.drop_last() =~= dec_u128(n / 10));
        assert(ds.last() == dec_digit((n % 10) as int));
        assert(digits_val(ds) == digits_val(ds.drop_last()) * 10 + dec_val(ds.last()));
        assert(digits_val(ds) == (n / 10) * 10 + (n % 10));
    }
}

/// A block of digits with a non-digit boundary is exactly the digit run.
proof fn lemma_digits_run_is(s: Seq<char>, pos: int, blocklen: int)
    requires
        0 <= pos,
        0 <= blocklen,
        pos + blocklen <= s.len(),
        forall|j: int| 0 <= j < blocklen ==> is_dec_digit(#[trigger] s[pos + j]),
        pos + blocklen == s.len() || !is_dec_digit(s[pos + blocklen]),
    ensures
        digits_run(s, pos) == s.subrange(pos, pos + blocklen),
    decreases blocklen,
{
    if blocklen == 0 {
        if pos < s.len() {
            assert(!is_dec_digit(s[pos]));
        }
        assert(digits_run(s, pos) =~= s.subrange(pos, pos));
    } else {
        assert(is_dec_digit(s[pos + 0]));
        assert forall|j: int| 0 <= j < blocklen - 1 implies is_dec_digit(
            #[trigger] s[pos + 1 + j],
        ) by {
            assert(is_dec_digit(s[pos + (j + 1)]));
        }
        lemma_digits_run_is(s, pos + 1, blocklen - 1);
        assert(digits_run(s, pos) == seq![s[pos]] + digits_run(s, pos + 1));
        assert(digits_run(s, pos) =~= s.subrange(pos, pos + blocklen));
    }
}

/// A decimal number written at `pos` with a non-digit after it parses to
/// its value.
proof fn lemma_parse_dec_here(s: Seq<char>, pos: int, n: u128)
    requires
        0 <= pos,
        pos + dec_u128(n as nat).len() <= s.len(),
        s.subrange(pos, pos + dec_u128(n as nat).len()) == dec_u128(n as nat),
        pos + dec_u128(n as nat).len() == s.len() || !is_dec_digit(
            s[pos + dec_u128(n as nat).len()],
        ),
    ensures
        parse_u128(s, pos) == Some((n, pos + dec_u128(n as nat).len())),
{
    let ds = dec_u128(n as nat);
    lemma_dec_digits(n as nat);
    assert forall|j: int| 0 <= j < ds.len() implies is_dec_digit(#[trigger] s[pos + j]) by {
        assert(s[pos + j] == s.subrange(pos, pos + ds.len())[j]);
        assert(is_dec_digit(ds[j]));
    }
    lemma_digits_run_is(s, pos, ds.len() as int);
    assert(digits_run(s, pos) == ds);
    lemma_digits_val_of_dec(n as nat);
}

/// A signed decimal number written at `pos` parses to its value.
proof fn lemma_parse_i64_here(s: Seq<char>, pos: int, t: i64)
    requires
        0 <= pos,
        pos + dec_i64(t).len() <= s.len(),
        s.subrange(pos, pos + dec_i64(t).len()) == dec_i64(t),
        pos + dec_i64(t).len() == s.len() || !is_dec_digit(s[pos + dec_i64(t).len()]),
    ensures
        parse_i64(s, pos) == Some((t, pos + dec_i64(t).len())),
{
    if t >= 0 {
        let n = t as u128;
        assert(dec_i64(t) == dec_u128(t as nat));
        lemma_dec_digits(t as nat);
        assert(s[pos + 0] == s.subrange(pos, pos + dec_i64(t).len())[0]);
        assert(is_dec_digit(s[pos + 0]));
        assert(s[pos] != '-') by {
            assert('-' as u32 == 45);
        }
        lemma_parse_dec_here(s, pos, n);
    } else {
        let mag: u128 = (-(t as int)) as u128;
        let ds = dec_u128(mag as nat);
        assert(dec_i64(t) == seq!['-'] + ds);
        lemma_split2(s, pos, seq!['-'], ds);
        assert(s[pos + 0] == s.subrange(pos, pos + 1)[0]);
        assert(s[pos] == '-');
        lemma_parse_dec_here(s, pos + 1, mag);
        assert(1 <= mag <= 0x8000_0000_0000_0000u128);
        assert((-(mag as int)) as i64 == t);
    }
}

/// Escaped tails are determined by the remaining characters.
proof fn lemma_esc_from_eq(a: Seq<char>, i: int, b: Seq<char>, j: int)
    requires
        0 <= i <= a.len(),
        0 <= j <= b.len(),
        a.skip(i) == b.skip(j),
    ensures
        esc_from(a, i) == esc_from(b, j),
    decreases a.len() - i,
{
    assert(a.skip(i).len() == a.len() - i);
    assert(b.skip(j).len() == b.len() - j);
    if i < a.len() {
        assert(j < b.len());
        assert(a.skip(i)[0] == a[i + 0]);
        assert(b.skip(j)[0] == b[j + 0]);
        assert(a[i] == b[j]);
        assert(a.skip(i + 1) =~= b.skip(j + 1)) by {
            assert forall|k: int| 0 <= k < a.len() - i - 1 implies #[trigger] a.skip(i + 1)[k]
                == b.skip(j + 1)[k] by {
                assert(a.skip(i)[k + 1] == a[i + (k + 1)]);
                assert(b.skip(j)[k + 1] == b[j + (k + 1)]);
                assert(a.skip(i + 1)[k] == a[i + 1 + k]);
                assert(b.skip(j + 1)[k] == b[j + 1 + k]);
            }
        }
        lemma_esc_from_eq(a, i + 1, b, j + 1);
    }
}

/// Prepending one character to a string prepends its escape.
proof fn lemma_esc_prepend(c: char, t: Seq<char>)
    ensures
        esc(seq![c] + t) == esc_char(c) + esc(t),
{
    let u = seq![c] + t;
    assert(u[0] == c);
    assert(esc_from(u, 0) == esc_char(c) + esc_from(u, 1));
    assert(u.skip(1) =~= t);
    assert(t.skip(0) =~= t);
    lemma_esc_from_eq(u, 1, t, 0);
}

/// The escaped form of a string followed by a closing quote parses back
/// to the string.
#[verifier::rlimit(60)]
#[verifier::spinoff_prover]
proof fn lemma_jstring_round_from(s: Seq<char>, pos: int, t: Seq<char>, i: int)
    requires
        0 <= i <= t.len(),
        0 <= pos,
        pos + esc_from(t, i).len() + 1 <= s.len(),
        s.subrange(pos, pos + esc_from(t, i).len() + 1) == esc_from(t, i) + seq!['"'],
    ensures
        parse_jstring(s, pos) == Some((t.skip(i), pos + esc_from(t, i).len() + 1)),
    decreases t.len() - i,
{
    let e = esc_from(t, i);
    if i == t.len() {
        assert(e =~= Seq::<char>::empty());
        assert(s[pos + 0] == s.subrange(pos, pos + 1)[0]);
        assert(s[pos] == '"');
        assert(t.skip(i) =~= Seq::<char>::empty());
    } else {
        let c = t[i];
        let e1 = esc_char(c);
        let rest = esc_from(t, i + 1);
        assert(e == e1 + rest);
        assert(e + seq!['"'] =~= e1 + (rest + seq!['"']));
        lemma_split2(s, pos, e1, rest + seq!['"']);
        let p2 = pos + e1.len();
        assert forall|k: int| 0 <= k < e1.len() implies s[pos + k] == e1[k] by {
            assert(s.subrange(pos, pos + e1.len())[k] == e1[k]);
        }
        lemma_jstring_round_from(s, p2, t, i + 1);
        assert(seq![c] + t.skip(i + 1) =~= t.skip(i));
        if c == '"' {
            assert(s[pos + 0] == '\\' && s[pos + 1] == '"');
        } else if c == '\\' {
            assert(s[pos + 0] == '\\' && s[pos + 1] == '\\');
        } else if (c as u32) < 0x20 {
            let cv = c as u32 as int;
            assert(0 <= cv < 0x20);
            assert(s[pos + 0] == '\\' && s[pos + 1] == 'u' && s[pos + 2] == '0' && s[pos + 3]
                == '0');
            assert(s[pos + 4] == hex_digit(cv / 16));
            assert(s[pos + 5] == hex_digit(cv % 16));
            lemma_hex_digit_code(cv / 16);
            lemma_hex_digit_code(cv % 16);
            assert(hex_val(s[pos + 4]) * 16 + hex_val(s[pos + 5]) == cv);
            assert((cv as u8) as char as u32 == cv);
            assert(0 <= cv < 128);
            assert(((cv as u8) as char) as u32 == cv);
            lemma_char_inj((cv as u8) as char, c);
            assert((cv as u8) as char == c);
            assert(s[pos + 1] != '"' && s[pos + 1] != '\\') by {
                assert('u' as u32 == 117 && '"' as u32 == 34 && '\\' as u32 == 92);
            }
        } else {
            assert(e1 == seq![c]);
            assert(s.subrange(pos, pos + 1)[0] == e1[0]);
            assert(s[pos + 0] == s.subrange(pos, pos + 1)[0]);
            assert(s[pos] == c);
        }
    }
}

/// The escaped form of a whole string, with its closing quote, parses
/// back to the string.
proof fn lemma_jstring_round(s: Seq<char>, pos: int, t: Seq<char>)
    requires
        0 <= pos,
        pos + esc(t).len() + 1 <= s.len(),
        s.subrange(pos, pos + esc(t).len() + 1) == esc(t) + seq!['"'],
    ensures
        parse_jstring(s, pos) == Some((t, pos + esc(t).len() + 1)),
{
    lemma_jstring_round_from(s, pos, t, 0);
    assert(t.skip(0) =~= t);
}

/// Whatever the string parser accepts is the canonical escape of what it
/// returns.
#[verifier::rlimit(60)]
#[verifier::spinoff_prover]
proof fn lemma_jstring_sound(s: Seq<char>, pos: int)
    requires
        parse_jstring(s, pos) is Some,
    ensures
        ({
            let (t, p) = parse_jstring(s, pos)->Some_0;
            &&& 0 <= pos < p <= s.len()
            &&& p == pos + esc(t).len() + 1
            &&& s.subrange(pos, p) == esc(t) + seq!['"']
        }),
    decreases s.len() - pos,
{
    let (t, p) = parse_jstring(s, pos)->Some_0;
    if s[pos] == '"' {
        assert(t =~= Seq::<char>::empty());
        assert(esc(t) =~= Seq::<char>::empty());
        assert(s.subrange(pos, pos + 1) =~= esc(t) + seq!['"']);
    } else if s[pos] == '\\' {
        if pos + 1 < s.len() && (s[pos + 1] == '"' || s[pos + 1] == '\\') {
            let c = s[pos + 1];
            let (t2, p2) = parse_jstring(s, pos + 2)->Some_0;
            lemma_jstring_sound(s, pos + 2);
            assert(t == seq![c] + t2);
            lemma_esc_prepend(c, t2);
            assert(esc_char(c) =~= seq!['\\', c]) by {
                assert('"' as u32 == 34 && '\\' as u32 == 92);
            }
            assert(s.subrange(pos, pos + 2) =~= esc_char(c)) by {
                assert(s.subrange(pos, pos + 2)[0] == s[pos + 0]);
                assert(s.subrange(pos, pos + 2)[1] == s[pos + 1]);
            }
            lemma_join2(s, pos, pos + 2, p, esc_char(c), esc(t2) + seq!['"']);
            assert(esc_char(c) + (esc(t2) + seq!['"']) =~= esc(t) + seq!['"']);
        } else {
            let hi = s[pos + 4];
            let lo = s[pos + 5];
            let cv = hex_val(hi) * 16 + hex_val(lo);
            let c = cv as u8 as char;
            lemma_hex_char_canonical(hi);
            lemma_hex_char_canonical(lo);
            assert(0 <= cv < 0x20);
            assert(c as u32 == cv);
            let (t2, p2) = parse_jstring(s, pos + 6)->Some_0;
            lemma_jstring_sound(s, pos + 6);
            assert(t == seq![c] + t2);
            lemma_esc_prepend(c, t2);
            assert(hex_val(hi) == cv / 16 && hex_val(lo) == cv % 16) by {
                assert(0 <= hex_val(lo) < 16);
            }
            assert(c != '"' && c != '\\') by {
                assert('"' as u32 == 34 && '\\' as u32 == 92);
            }
            assert(esc_char(c) =~= seq!['\\', 'u', '0', '0', hi, lo]) by {
                assert(hex_digit(cv / 16) == hi && hex_digit(cv % 16) == lo);
            }
            assert(s.subrange(pos, pos + 6) =~= esc_char(c)) by {
                assert(s.subrange(pos, pos + 6)[0] == s[pos + 0]);
                assert(s.subrange(pos, pos + 6)[1] == s[pos + 1]);
                assert(s.subrange(pos, pos + 6)[2] == s[pos + 2]);
                assert(s.subrange(pos, pos + 6)[3] == s[pos + 3]);
                assert(s.subrange(pos, pos + 6)[4] == s[pos + 4]);
                assert(s.subrange(pos, pos + 6)[5] == s[pos + 5]);
            }
            lemma_join2(s, pos, pos + 6, p, esc_char(c), esc(t2) + seq!['"']);
            assert(esc_char(c) + (esc(t2) + seq!['"']) =~= esc(t) + seq!['"']);
        }
    } else {
        let c = s[pos];
        let (t2, p2) = parse_jstring(s, pos + 1)->Some_0;
        lemma_jstring_sound(s, pos + 1);
        assert(t == seq![c] + t2);
        lemma_esc_prepend(c, t2);
        assert(esc_char(c) =~= seq![c]);
        assert(s.subrange(pos, pos + 1) =~= esc_char(c)) by {
            assert(s.subrange(pos, pos + 1)[0] == s[pos + 0]);
        }
        lemma_join2(s, pos, pos + 1, p, esc_char(c), esc(t2) + seq!['"']);
        assert(esc_char(c) + (esc(t2) + seq!['"']) =~= esc(t) + seq!['"']);
    }
}

// ---------------------------------------------------------------------
// Component round trips.
// ---------------------------------------------------------------------
#[verifier::rlimit(60)]
#[verifier::spinoff_prover]
proof fn lemma_channel_round(s: Seq<char>, pos: int, c: ChannelModelResponseV)
    requires
        0 <= pos,
        pos + spec_enc_channel(c).len() <= s.len(),
        s.subrange(pos, pos + spec_enc_channel(c).len()) == spec_enc_channel(c),
    ensures
        spec_parse_channel(s, pos) == Some((c, pos + spec_enc_channel(c).len())),
{
    reveal_strlit("{\"id\":");
    reveal_strlit(",\"name\":\"");
    reveal_strlit("\"}");
    reveal_strlit("}");
    let l1 = "{\"id\":"@;
    let d = dec_u128(c.id as nat);
    let l2 = ",\"name\":\""@;
    let e = esc(c.name);
    let l3 = "\"}"@;
    let whole = spec_enc_channel(c);
    assert(whole =~= l1 + (d + (l2 + (e + l3))));
    lemma_split2(s, pos, l1, d + (l2 + (e + l3)));
    lemma_lit_here(s, pos, l1);
    let p1 = pos + l1.len();
    lemma_split2(s, p1, d, l2 + (e + l3));
    let p2 = p1 + d.len();
    assert(s[p2 + 0] == (l2 + (e + l3))[0]) by {
        assert(s.subrange(p2, p2 + (l2 + (e + l3)).len())[0] == (l2 + (e + l3))[0]);
    }
    assert(s[p2] == ',');
    assert(!is_dec_digit(',')) by {
        assert(',' as u32 == 44);
    }
    lemma_parse_dec_here(s, p1, c.id);
    lemma_split2(s, p2, l2, e + l3);
    lemma_lit_here(s, p2, l2);
    let p3 = p2 + l2.len();
    assert(l3 =~= seq!['"'] + seq!['}']);
    assert(e + l3 =~= (e + seq!['"']) + seq!['}']);
    lemma_split2(s, p3, e + seq!['"'], seq!['}']);
    lemma_jstring_round(s, p3, c.name);
    let p4 = p3 + e.len() + 1;
    assert("}"@ =~= seq!['}']);
    lemma_lit_here(s, p4, "}"@);
    let p5 = p4 + 1;
    assert(p5 == pos + whole.len());
    assert(spec_parse_channel(s, pos) == Some((c, p5)));
}

#[verifier::rlimit(60)]
#[verifier::spinoff_prover]
proof fn lemma_user_round(s: Seq<char>, pos: int, u: UserModelResponseV)
    requires
        0 <= pos,
        pos + spec_enc_user(u).len() <= s.len(),
        s.subrange(pos, pos + spec_enc_user(u).len()) == spec_enc_user(u),
    ensures
        spec_parse_user(s, pos) == Some((u, pos + spec_enc_user(u).len())),
{
    reveal_strlit("{\"id\":");
    reveal_strlit(",\"name\":\"");
    reveal_strlit("\"}");
    reveal_strlit("}");
    let l1 = "{\"id\":"@;
    let d = dec_u128(u.id as nat);
    let l2 = ",\"name\":\""@;
    let e = esc(u.name);
    let l3 = "\"}"@;
    let whole = spec_enc_user(u);
    assert(whole =~= l1 + (d + (l2 + (e + l3))));
    lemma_split2(s, pos, l1, d + (l2 + (e + l3)));
    lemma_lit_here(s, pos, l1);
    let p1 = pos + l1.len();
    lemma_split2(s, p1, d, l2 + (e + l3));
    let p2 = p1 + d.len();
    assert(s[p2 + 0] == (l2 + (e + l3))[0]) by {
        assert(s.subrange(p2, p2 + (l2 + (e + l3)).len())[0] == (l2 + (e + l3))[0]);
    }
    assert(s[p2] == ',');
    assert(!is_dec_digit(',')) by {
        assert(',' as u32 == 44);
    }
    lemma_parse_dec_here(s, p1, u.id);
    lemma_split2(s, p2, l2, e + l3);
    lemma_lit_here(s, p2, l2);
    let p3 = p2 + l2.len();
    assert(l3 =~= seq!['"'] + seq!['}']);
    assert(e + l3 =~= (e + seq!['"']) + seq!['}']);
    lemma_split2(s, p3, e + seq!['"'], seq!['}']);
    lemma_jstring_round(s, p3, u.name);
    let p4 = p3 + e.len() + 1;
    assert("}"@ =~= seq!['}']);
    lemma_lit_here(s, p4, "}"@);
    let p5 = p4 + 1;
    assert(p5 == pos + whole.len());
    assert(spec_parse_user(s, pos) == Some((u, p5)));
}

#[verifier::rlimit(60)]
#[verifier::spinoff_prover]
proof fn lemma_msg_round(s: Seq<char>, pos: int, m: MessageModelResponseV)
    requires
        0 <= pos,
        pos + spec_enc_msg(m).len() <= s.len(),
        s.subrange(pos, pos + spec_enc_msg(m).len()) == spec_enc_msg(m),
    ensures
        spec_parse_msg(s, pos) == Some((m, pos + spec_enc_msg(m).len())),
{
    reveal_strlit("{\"id\":");
    reveal_strlit(",\"body\":\"");
    reveal_strlit("\",\"createdBy\":");
    reveal_strlit(",\"createdBy\":");
    reveal_strlit(",\"createdAt\":");
    reveal_strlit("}");
    let l1 = "{\"id\":"@;
    let d1 = dec_u128(m.id as nat);
    let l2 = ",\"body\":\""@;
    let e = esc(m.body);
    let l3 = "\",\"createdBy\":"@;
    let d2 = dec_u128(m.created_by as nat);
    let l4 = ",\"createdAt\":"@;
    let d3 = dec_i64(m.created_at);
    let l5 = "}"@;
    let whole = spec_enc_msg(m);
    assert(whole =~= l1 + (d1 + (l2 + (e + (l3 + (d2 + (l4 + (d3 + l5))))))));
    lemma_split2(s, pos, l1, d1 + (l2 + (e + (l3 + (d2 + (l4 + (d3 + l5)))))));
    lemma_lit_here(s, pos, l1);
    let p1 = pos + l1.len();
    lemma_split2(s, p1, d1, l2 + (e + (l3 + (d2 + (l4 + (d3 + l5))))));
    let p2 = p1 + d1.len();
    let rest2 = l2 + (e + (l3 + (d2 + (l4 + (d3 + l5)))));
    assert(s[p2 + 0] == rest2[0]) by {
        assert(s.subrange(p2, p2 + rest2.len())[0] == rest2[0]);
    }
    assert(s[p2] == ',');
    assert(!is_dec_digit(',')) by {
        assert(',' as u32 == 44);
    }
    lemma_parse_dec_here(s, p1, m.id);
    lemma_split2(s, p2, l2, e + (l3 + (d2 + (l4 + (d3 + l5)))));
    lemma_lit_here(s, p2, l2);
    let p3 = p2 + l2.len();
    let rest3 = e + (l3 + (d2 + (l4 + (d3 + l5))));
    assert(l3 =~= seq!['"'] + ",\"createdBy\":"@);
    assert(rest3 =~= (e + seq!['"']) + (",\"createdBy\":"@ + (d2 + (l4 + (d3 + l5)))));
    lemma_split2(s, p3, e + seq!['"'], ",\"createdBy\":"@ + (d2 + (l4 + (d3 + l5))));
    lemma_jstring_round(s, p3, m.body);
    let p4 = p3 + e.len() + 1;
    lemma_split2(s, p4, ",\"createdBy\":"@, d2 + (l4 + (d3 + l5)));
    lemma_lit_here(s, p4, ",\"createdBy\":"@);
    let p5 = p4 + ",\"createdBy\":"@.len();
    lemma_split2(s, p5, d2, l4 + (d3 + l5));
    let p6 = p5 + d2.len();
    let rest6 = l4 + (d3 + l5);
    assert(s[p6 + 0] == rest6[0]) by {
        assert(s.subrange(p6, p6 + rest6.len())[0] == rest6[0]);
    }
    assert(s[p6] == ',');
    assert(!is_dec_digit(',')) by {
        assert(',' as u32 == 44);
    }
    lemma_parse_dec_here(s, p5, m.created_by);
    lemma_split2(s, p6, l4, d3 + l5);
    lemma_lit_here(s, p6, l4);
    let p7 = p6 + l4.len();
    lemma_split2(s, p7, d3, l5);
    let p8 = p7 + d3.len();
    assert(s[p8 + 0] == l5[0]) by {
        assert(s.subrange(p8, p8 + l5.len())[0] == l5[0]);
    }
    assert(s[p8] == '}');
    assert(!is_dec_digit('}')) by {
        assert('}' as u32 == 125);
    }
    lemma_parse_i64_here(s, p7, m.created_at);
    lemma_lit_here(s, p8, l5);
    let p9 = p8 + 1;
    assert(p9 == pos + whole.len());
    assert(spec_parse_msg(s, pos) == Some((m, p9)));
}

/// Every channel summary encoding starts with a brace and is non-empty.
proof fn lemma_channel_enc_head(c: ChannelModelResponseV)
    ensures
        spec_enc_channel(c).len() >= 6,
        spec_enc_channel(c)[0] == '{',
{
    reveal_strlit("{\"id\":");
    let l1 = "{\"id\":"@;
    assert(spec_enc_channel(c)[0] == l1[0]) by {
        assert(spec_enc_channel(c) =~= l1 + (dec_u128(c.id as nat) + (",\"name\":\""@ + (esc(
            c.name,
        ) + "\"}"@))));
    }
}

proof fn lemma_items_len(cs: Seq<ChannelModelResponseV>, i: int)
    requires
        0 <= i,
    ensures
        spec_enc_channel_items(cs, i).len() >= cs.len() - i,
    decreases cs.len() - i,
{
    reveal_strlit(",");
    if 0 <= i < cs.len() {
        lemma_channel_enc_head(cs[i]);
        if i < cs.len() - 1 {
            lemma_items_len(cs, i + 1);
        }
    }
}

#[verifier::rlimit(60)]
#[verifier::spinoff_prover]
proof fn lemma_items_round(
    s: Seq<char>,
    pos: int,
    cs: Seq<ChannelModelResponseV>,
    i: int,
    fuel: nat,
)
    requires
        0 <= i <= cs.len(),
        0 <= pos,
        pos + spec_enc_channel_items(cs, i).len() < s.len(),
        s.subrange(pos, pos + spec_enc_channel_items(cs, i).len()) == spec_enc_channel_items(
            cs,
            i,
        ),
        s[pos + spec_enc_channel_items(cs, i).len()] == ']',
        fuel >= cs.len() - i + 1,
    ensures
        spec_parse_channel_items(s, pos, fuel) == Some(
            (cs.skip(i), pos + spec_enc_channel_items(cs, i).len()),
        ),
    decreases cs.len() - i,
{
    let e = spec_enc_channel_items(cs, i);
    if i == cs.len() {
        assert(e =~= Seq::<char>::empty());
        assert(s[pos] == ']');
        assert(cs.skip(i) =~= Seq::<ChannelModelResponseV>::empty());
    } else {
        lemma_channel_enc_head(cs[i]);
        let ec = spec_enc_channel(cs[i]);
        if i == cs.len() - 1 {
            assert(e == ec);
            lemma_channel_round(s, pos, cs[i]);
            let p = pos + ec.len();
            assert(s[p] == ']');
            assert(s[pos + 0] == ec[0]) by {
                assert(s.subrange(pos, pos + e.len())[0] == e[0]);
            }
            assert(s[pos] == '{');
            assert('{' as u32 == 123 && ']' as u32 == 93);
            assert(s[pos] != ']');
            assert(']' as u32 == 93 && ',' as u32 == 44);
            assert(s[p] != ',');
            assert(cs.skip(i) =~= seq![cs[i]]);
            assert(spec_parse_channel_items(s, pos, fuel) == Some((seq![cs[i]], p)));
        } else {
            assert(e == ec + ","@ + spec_enc_channel_items(cs, i + 1));
            reveal_strlit(",");
            let rest = spec_enc_channel_items(cs, i + 1);
            assert(e =~= ec + (","@ + rest));
            lemma_split2(s, pos, ec, ","@ + rest);
            lemma_channel_round(s, pos, cs[i]);
            let p = pos + ec.len();
            lemma_split2(s, p, ","@, rest);
            assert(s[p + 0] == ","@[0]) by {
                assert(s.subrange(p, p + 1)[0] == ","@[0]);
            }
            assert(s[p] == ',');
            assert(s[pos + 0] == ec[0]) by {
                assert(s.subrange(pos, pos + e.len())[0] == e[0]);
            }
            assert(s[pos] == '{');
            assert('{' as u32 == 123 && ']' as u32 == 93);
            assert(s[pos] != ']');
            lemma_items_round(s, p + 1, cs, i + 1, (fuel - 1) as nat);
            assert(seq![cs[i]] + cs.skip(i + 1) =~= cs.skip(i));
            assert(spec_parse_channel_items(s, pos, fuel) == Some(
                (cs.skip(i), p + 1 + rest.len()),
            ));
        }
    }
}

// ---------------------------------------------------------------------
// The codec laws.
// ---------------------------------------------------------------------
/// Encoding any outbound payload and decoding the frame yields the same
/// payload again.
#[verifier::rlimit(60)]
#[verifier::spinoff_prover]
proof fn lemma_orr_uj_prefix(u: UserJoinedOutputV)
    ensures
        ({
            let s = spec_enc_output(OutputV::UserJoined(u));
            let la = "{\"type\":\"user-joined\",\"payload\":{\"channels\":["@;
            let tail = spec_enc_channel_items(u.channels, 0) + ("],\"user\":"@ + (spec_enc_user(
                u.user,
            ) + "}}"@));
            &&& parse_lit(s, 0, la) == Some(la.len() as int)
            &&& la.len() + tail.len() == s.len()
            &&& la.len() == 45
            &&& s.subrange(la.len() as int, s.len() as int) == tail
        }),
{
    let s = spec_enc_output(OutputV::UserJoined(u));
    assert(s.subrange(0, s.len() as int) =~= s);
    reveal_strlit("{\"type\":\"user-joined\",\"payload\":{\"channels\":[");
    let la = "{\"type\":\"user-joined\",\"payload\":{\"channels\":["@;
    let tail = spec_enc_channel_items(u.channels, 0) + ("],\"user\":"@ + (spec_enc_user(u.user)
        + "}}"@));
    assert(s =~= la + tail);
    lemma_split2(s, 0, la, tail);
    lemma_lit_here(s, 0, la);
}

#[verifier::rlimit(60)]
#[verifier::spinoff_prover]
proof fn lemma_orr_user_joined(u: UserJoinedOutputV)
    ensures
        spec_parse_output(spec_enc_output(OutputV::UserJoined(u))) == Some(OutputV::UserJoined(u)),
{
    let s = spec_enc_output(OutputV::UserJoined(u));
    lemma_orr_uj_prefix(u);
    reveal_strlit("],\"user\":");
    reveal_strlit("}}");
    let la = "{\"type\":\"user-joined\",\"payload\":{\"channels\":["@;
    let items = spec_enc_channel_items(u.channels, 0);
    let l2 = "],\"user\":"@;
    let eu = spec_enc_user(u.user);
    let l3 = "}}"@;
    let p1 = la.len() as int;
    lemma_split2(s, p1, items, l2 + (eu + l3));
    let p2 = p1 + items.len();
    assert(s[p2 + 0] == (l2 + (eu + l3))[0]) by {
        assert(s.subrange(p2, p2 + (l2 + (eu + l3)).len())[0] == (l2 + (eu + l3))[0]);
    }
    assert(s[p2] == ']');
    lemma_items_len(u.channels, 0);
    assert(s.len() as nat >= u.channels.len() + 1);
    lemma_items_round(s, p1, u.channels, 0, s.len() as nat);
    assert(u.channels.skip(0) =~= u.channels);
    lemma_split2(s, p2, l2, eu + l3);
    lemma_lit_here(s, p2, l2);
    let p3 = p2 + l2.len();
    lemma_split2(s, p3, eu, l3);
    lemma_user_round(s, p3, u.user);
    let p4 = p3 + eu.len();
    lemma_lit_here(s, p4, l3);
    assert(p4 + l3.len() == s.len());
}

#[verifier::rlimit(60)]
#[verifier::spinoff_prover]
proof fn lemma_orr_user_disconnect(d: UserDiscconnectOutput)
    ensures
        spec_parse_output(spec_enc_output(OutputV::UserDisconnect(d))) == Some(
            OutputV::UserDisconnect(d),
        ),
{
    let s = spec_enc_output(OutputV::UserDisconnect(d));
    assert(s.subrange(0, s.len() as int) =~= s);
    reveal_strlit("{\"type\":\"user-joined\",\"payload\":{\"channels\":[");
    reveal_strlit("{\"type\":\"user-disconnect\",\"payload\":{\"userId\":");
    reveal_strlit("}}");
    let la = "{\"type\":\"user-joined\",\"payload\":{\"channels\":["@;
    let lb = "{\"type\":\"user-disconnect\",\"payload\":{\"userId\":"@;
    let dd = dec_u128(d.user_id as nat);
    let l3 = "}}"@;
    assert(s =~= lb + (dd + l3));
    lemma_split2(s, 0, lb, dd + l3);
    assert(s[0int + 14] == lb[14]) by {
        assert(s.subrange(0, lb.len() as int)[14] == lb[14]);
    }
    lemma_lit_mismatch(s, 0, la, 14);
    lemma_lit_here(s, 0, lb);
    let p1 = lb.len() as int;
    lemma_split2(s, p1, dd, l3);
    let p2 = p1 + dd.len();
    assert(s[p2 + 0] == l3[0]) by {
        assert(s.subrange(p2, p2 + l3.len())[0] == l3[0]);
    }
    assert(s[p2] == '}');
    assert(!is_dec_digit('}')) by {
        assert('}' as u32 == 125);
    }
    lemma_parse_dec_here(s, p1, d.user_id);
    lemma_lit_here(s, p2, l3);
    assert(p2 + l3.len() == s.len());
}

#[verifier::rlimit(60)]
#[verifier::spinoff_prover]
proof fn lemma_orr_message_tail(s: Seq<char>, p1: int, m: UserMessageOutputV)
    requires
        0 <= p1,
        p1 + (spec_enc_msg(m.message) + (",\"channel\":"@ + (spec_enc_channel(m.channel)
            + "}}"@))).len() <= s.len(),
        s.subrange(
            p1,
            p1 + (spec_enc_msg(m.message) + (",\"channel\":"@ + (spec_enc_channel(m.channel)
                + "}}"@))).len(),
        ) == spec_enc_msg(m.message) + (",\"channel\":"@ + (spec_enc_channel(m.channel) + "}}"@)),
    ensures
        spec_parse_message_tail(s, p1) == Some(
            (
                m,
                p1 + (spec_enc_msg(m.message) + (",\"channel\":"@ + (spec_enc_channel(m.channel)
                    + "}}"@))).len(),
            ),
        ),
{
    reveal_strlit(",\"channel\":");
    reveal_strlit("}}");
    let em = spec_enc_msg(m.message);
    let l2 = ",\"channel\":"@;
    let ec = spec_enc_channel(m.channel);
    let l3 = "}}"@;
    lemma_split2(s, p1, em, l2 + (ec + l3));
    lemma_msg_round(s, p1, m.message);
    let p2 = p1 + em.len();
    lemma_split2(s, p2, l2, ec + l3);
    lemma_lit_here(s, p2, l2);
    let p3 = p2 + l2.len();
    lemma_split2(s, p3, ec, l3);
    lemma_channel_round(s, p3, m.channel);
    let p4 = p3 + ec.len();
    lemma_lit_here(s, p4, l3);
}

#[verifier::rlimit(60)]
#[verifier::spinoff_prover]
proof fn lemma_orr_user_message(m: UserMessageOutputV)
    ensures
        spec_parse_output(spec_enc_output(OutputV::UserMessage(m))) == Some(
            OutputV::UserMessage(m),
        ),
{
    let s = spec_enc_output(OutputV::UserMessage(m));
    assert(s.subrange(0, s.len() as int) =~= s);
    reveal_strlit("{\"type\":\"user-joined\",\"payload\":{\"channels\":[");
    reveal_strlit("{\"type\":\"user-disconnect\",\"payload\":{\"userId\":");
    reveal_strlit("{\"type\":\"user-message\",\"payload\":{\"message\":");
    let la = "{\"type\":\"user-joined\",\"payload\":{\"channels\":["@;
    let lb = "{\"type\":\"user-disconnect\",\"payload\":{\"userId\":"@;
    let lc = "{\"type\":\"user-message\",\"payload\":{\"message\":"@;
    let tail = spec_enc_msg(m.message) + (",\"channel\":"@ + (spec_enc_channel(m.channel)
        + "}}"@));
    assert(s =~= lc + tail);
    lemma_split2(s, 0, lc, tail);
    assert(s[0int + 14] == lc[14]) by {
        assert(s.subrange(0, lc.len() as int)[14] == lc[14]);
    }
    lemma_lit_mismatch(s, 0, la, 14);
    lemma_lit_mismatch(s, 0, lb, 14);
    lemma_lit_here(s, 0, lc);
    let p1 = lc.len() as int;
    lemma_orr_message_tail(s, p1, m);
    assert(p1 + tail.len() == s.len());
}

#[verifier::rlimit(60)]
#[verifier::spinoff_prover]
proof fn lemma_orr_message(m: UserMessageOutputV)
    ensures
        spec_parse_output(spec_enc_output(OutputV::Message(m))) == Some(OutputV::Message(m)),
{
    let s = spec_enc_output(OutputV::Message(m));
    assert(s.subrange(0, s.len() as int) =~= s);
    reveal_strlit("{\"type\":\"user-joined\",\"payload\":{\"channels\":[");
    reveal_strlit("{\"type\":\"user-disconnect\",\"payload\":{\"userId\":");
    reveal_strlit("{\"type\":\"user-message\",\"payload\":{\"message\":");
    reveal_strlit("{\"type\":\"message\",\"payload\":{\"message\":");
    let la = "{\"type\":\"user-joined\",\"payload\":{\"channels\":["@;
    let lb = "{\"type\":\"user-disconnect\",\"payload\":{\"userId\":"@;
    let lc = "{\"type\":\"user-message\",\"payload\":{\"message\":"@;
    let ld = "{\"type\":\"message\",\"payload\":{\"message\":"@;
    let tail = spec_enc_msg(m.message) + (",\"channel\":"@ + (spec_enc_channel(m.channel)
        + "}}"@));
    assert(s =~= ld + tail);
    lemma_split2(s, 0, ld, tail);
    assert(s[0int + 9] == ld[9]) by {
        assert(s.subrange(0, ld.len() as int)[9] == ld[9]);
    }
    lemma_lit_mismatch(s, 0, la, 9);
    lemma_lit_mismatch(s, 0, lb, 9);
    lemma_lit_mismatch(s, 0, lc, 9);
    lemma_lit_here(s, 0, ld);
    let p1 = ld.len() as int;
    lemma_orr_message_tail(s, p1, m);
    assert(p1 + tail.len() == s.len());
}

#[verifier::rlimit(60)]
#[verifier::spinoff_prover]
proof fn lemma_orr_error_prefix(e: ErrorOutput)
    ensures
        ({
            let s = spec_enc_output(OutputV::Error(e));
            let le = "{\"type\":\"error\",\"payload\":{\"code\":\""@;
            &&& parse_lit(s, 0, "{\"type\":\"user-joined\",\"payload\":{\"channels\":["@) is None
            &&& parse_lit(s, 0, "{\"type\":\"user-disconnect\",\"payload\":{\"userId\":"@) is None
            &&& parse_lit(s, 0, "{\"type\":\"user-message\",\"payload\":{\"message\":"@) is None
            &&& parse_lit(s, 0, "{\"type\":\"message\",\"payload\":{\"message\":"@) is None
            &&& parse_lit(s, 0, le) == Some(le.len() as int)
            &&& le.len() + spec_enc_error(e).len() + 3 == s.len()
            &&& s.subrange(le.len() as int, s.len() as int) == spec_enc_error(e) + "\"}}"@
        }),
{
    let s = spec_enc_output(OutputV::Error(e));
    assert(s.subrange(0, s.len() as int) =~= s);
    reveal_strlit("{\"type\":\"user-joined\",\"payload\":{\"channels\":[");
    reveal_strlit("{\"type\":\"user-disconnect\",\"payload\":{\"userId\":");
    reveal_strlit("{\"type\":\"user-message\",\"payload\":{\"message\":");
    reveal_strlit("{\"type\":\"message\",\"payload\":{\"message\":");
    reveal_strlit("{\"type\":\"error\",\"payload\":{\"code\":\"");
    reveal_strlit("\"}}");
    let la = "{\"type\":\"user-joined\",\"payload\":{\"channels\":["@;
    let lb = "{\"type\":\"user-disconnect\",\"payload\":{\"userId\":"@;
    let lc = "{\"type\":\"user-message\",\"payload\":{\"message\":"@;
    let ld = "{\"type\":\"message\",\"payload\":{\"message\":"@;
    let le = "{\"type\":\"error\",\"payload\":{\"code\":\""@;
    let code = spec_enc_error(e);
    let l3 = "\"}}"@;
    assert(code.len() >= 10) by {
        reveal_strlit("invalid-session");
        reveal_strlit("invalid-message-request");
        reveal_strlit("channel-full");
        reveal_strlit("name-taken");
    }
    assert(s =~= le + (code + l3));
    lemma_split2(s, 0, le, code + l3);
    assert(s[0int + 9] == le[9]) by {
        assert(s.subrange(0, le.len() as int)[9] == le[9]);
    }
    lemma_lit_mismatch(s, 0, la, 9);
    lemma_lit_mismatch(s, 0, lb, 9);
    lemma_lit_mismatch(s, 0, lc, 9);
    lemma_lit_mismatch(s, 0, ld, 9);
    lemma_lit_here(s, 0, le);
}

#[verifier::rlimit(60)]
#[verifier::spinoff_prover]
proof fn lemma_orr_error(e: ErrorOutput)
    ensures
        spec_parse_output(spec_enc_output(OutputV::Error(e))) == Some(OutputV::Error(e)),
{
    let s = spec_enc_output(OutputV::Error(e));
    lemma_orr_error_prefix(e);
    reveal_strlit("{\"type\":\"error\",\"payload\":{\"code\":\"");
    reveal_strlit("invalid-session");
    reveal_strlit("invalid-message-request");
    reveal_strlit("channel-full");
    reveal_strlit("name-taken");
    reveal_strlit("invalid-session\"}}");
    reveal_strlit("invalid-message-request\"}}");
    reveal_strlit("channel-full\"}}");
    reveal_strlit("name-taken\"}}");
    reveal_strlit("\"}}");
    let le = "{\"type\":\"error\",\"payload\":{\"code\":\""@;
    let code = spec_enc_error(e);
    let l3 = "\"}}"@;
    let p1 = le.len() as int;
    let c1 = "invalid-session\"}}"@;
    let c2 = "invalid-message-request\"}}"@;
    let c3 = "channel-full\"}}"@;
    let c4 = "name-taken\"}}"@;
    lemma_split2(s, p1, code, l3);
    match e {
        ErrorOutput::InvalidSession => {
            assert(code + l3 =~= c1);
            assert(s.subrange(p1, p1 + c1.len()) == c1);
            lemma_lit_here(s, p1, c1);
            assert(p1 + c1.len() == s.len());
        },
        ErrorOutput::InvalidMessageRequest => {
            assert(code + l3 =~= c2);
            assert(s.subrange(p1, p1 + c2.len()) == c2);
            assert(s[p1 + 8] == code[8]) by {
                assert(s.subrange(p1, p1 + code.len())[8] == code[8]);
            }
            lemma_lit_mismatch(s, p1, c1, 8);
            lemma_lit_here(s, p1, c2);
            assert(p1 + c2.len() == s.len());
        },
        ErrorOutput::ChannelFull => {
            assert(code + l3 =~= c3);
            assert(s.subrange(p1, p1 + c3.len()) == c3);
            assert(s[p1 + 0] == code[0]) by {
                assert(s.subrange(p1, p1 + code.len())[0] == code[0]);
            }
            lemma_lit_mismatch(s, p1, c1, 0);
            lemma_lit_mismatch(s, p1, c2, 0);
            lemma_lit_here(s, p1, c3);
            assert(p1 + c3.len() == s.len());
        },
        ErrorOutput::NameTaken => {
            assert(code + l3 =~= c4);
            assert(s.subrange(p1, p1 + c4.len()) == c4);
            assert(s[p1 + 0] == code[0]) by {
                assert(s.subrange(p1, p1 + code.len())[0] == code[0]);
            }
            lemma_lit_mismatch(s, p1, c1, 0);
            lemma_lit_mismatch(s, p1, c2, 0);
            lemma_lit_mismatch(s, p1, c3, 0);
            lemma_lit_here(s, p1, c4);
            assert(p1 + c4.len() == s.len());
        },
    }
}

#[verifier::rlimit(60)]
#[verifier::spinoff_prover]
proof fn lemma_orr_keep_alive()
    ensures
        spec_parse_output(spec_enc_output(OutputV::KeepAliveTick)) == Some(OutputV::KeepAliveTick),
{
    let s = spec_enc_output(OutputV::KeepAliveTick);
    assert(s.subrange(0, s.len() as int) =~= s);
    reveal_strlit("{\"type\":\"user-joined\",\"payload\":{\"channels\":[");
    reveal_strlit("{\"type\":\"user-disconnect\",\"payload\":{\"userId\":");
    reveal_strlit("{\"type\":\"user-message\",\"payload\":{\"message\":");
    reveal_strlit("{\"type\":\"message\",\"payload\":{\"message\":");
    reveal_strlit("{\"type\":\"error\",\"payload\":{\"code\":\"");
    reveal_strlit("{\"type\":\"keep-alive-tick\"}");
    let la = "{\"type\":\"user-joined\",\"payload\":{\"channels\":["@;
    let lb = "{\"type\":\"user-disconnect\",\"payload\":{\"userId\":"@;
    let lc = "{\"type\":\"user-message\",\"payload\":{\"message\":"@;
    let ld = "{\"type\":\"message\",\"payload\":{\"message\":"@;
    let le = "{\"type\":\"error\",\"payload\":{\"code\":\""@;
    let lf = "{\"type\":\"keep-alive-tick\"}"@;
    assert(s =~= lf);
    assert(s[0int + 9] == lf[9]) by {
        assert(s.subrange(0, lf.len() as int)[9] == lf[9]);
    }
    lemma_lit_mismatch(s, 0, la, 9);
    lemma_lit_mismatch(s, 0, lb, 9);
    lemma_lit_mismatch(s, 0, lc, 9);
    lemma_lit_mismatch(s, 0, ld, 9);
    lemma_lit_mismatch(s, 0, le, 9);
    assert(s.subrange(0, lf.len() as int) =~= lf);
    lemma_lit_here(s, 0, lf);
    assert(lf.len() == s.len());
}

/// Encoding any outbound payload and decoding the frame yields the same
/// payload again.
pub proof fn lemma_output_round_trip(o: OutputV)
    ensures
        spec_parse_output(spec_enc_output(o)) == Some(o),
{
    match o {
        OutputV::UserJoined(u) => lemma_orr_user_joined(u),
        OutputV::UserDisconnect(d) => lemma_orr_user_disconnect(d),
        OutputV::UserMessage(m) => lemma_orr_user_message(m),
        OutputV::Message(m) => lemma_orr_message(m),
        OutputV::Error(e) => lemma_orr_error(e),
        OutputV::KeepAliveTick => lemma_orr_keep_alive(),
    }
}

/// Encoding any inbound event and decoding the frame yields the same
/// event again.
#[verifier::rlimit(60)]
#[verifier::spinoff_prover]
pub proof fn lemma_input_round_trip(i: InputV)
    ensures
        spec_parse_input(spec_enc_input(i)) == Some(i),
{
    let s = spec_enc_input(i);
    assert(s.subrange(0, s.len() as int) =~= s);
    reveal_strlit("{\"type\":\"join\",\"payload\":{\"userName\":\"");
    reveal_strlit("{\"type\":\"message\",\"payload\":{\"body\":\"");
    reveal_strlit("\"}}");
    reveal_strlit("}}");
    let lj = "{\"type\":\"join\",\"payload\":{\"userName\":\""@;
    let lm = "{\"type\":\"message\",\"payload\":{\"body\":\""@;
    let l3 = "\"}}"@;
    match i {
        InputV::Join(j) => {
            let e = esc(j.user_name);
            assert(s =~= lj + (e + l3));
            lemma_split2(s, 0, lj, e + l3);
            lemma_lit_here(s, 0, lj);
            let p1 = lj.len() as int;
            assert(l3 =~= seq!['"'] + "}}"@);
            assert(e + l3 =~= (e + seq!['"']) + "}}"@);
            lemma_split2(s, p1, e + seq!['"'], "}}"@);
            lemma_jstring_round(s, p1, j.user_name);
            let p2 = p1 + e.len() + 1;
            lemma_lit_here(s, p2, "}}"@);
            assert(p2 + 2 == s.len());
        },
        InputV::Message(m) => {
            let e = esc(m.body);
            assert(s =~= lm + (e + l3));
            lemma_split2(s, 0, lm, e + l3);
            assert(s[0int + 9] == lm[9]) by {
                assert(s.subrange(0, lm.len() as int)[9] == lm[9]);
            }
            lemma_lit_mismatch(s, 0, lj, 9);
            lemma_lit_here(s, 0, lm);
            let p1 = lm.len() as int;
            assert(l3 =~= seq!['"'] + "}}"@);
            assert(e + l3 =~= (e + seq!['"']) + "}}"@);
            lemma_split2(s, p1, e + seq!['"'], "}}"@);
            lemma_jstring_round(s, p1, m.body);
            let p2 = p1 + e.len() + 1;
            lemma_lit_here(s, p2, "}}"@);
            assert(p2 + 2 == s.len());
        },
    }
}

/// Whatever the inbound decoder accepts re-encodes to exactly the frame
/// it came from: decoding then encoding is the identity on valid frames.
#[verifier::rlimit(60)]
#[verifier::spinoff_prover]
pub proof fn lemma_input_wire_canonical(s: Seq<char>)
    requires
        spec_parse_input(s) is Some,
    ensures
        spec_enc_input(spec_parse_input(s)->0) == s,
{
    reveal_strlit("{\"type\":\"join\",\"payload\":{\"userName\":\"");
    reveal_strlit("{\"type\":\"message\",\"payload\":{\"body\":\"");
    reveal_strlit("\"}}");
    reveal_strlit("}}");
    let lj = "{\"type\":\"join\",\"payload\":{\"userName\":\""@;
    let lm = "{\"type\":\"message\",\"payload\":{\"body\":\""@;
    let i = spec_parse_input(s)->0;
    match parse_lit(s, 0, lj) {
        Some(p1) => {
            let (name, p2) = parse_jstring(s, p1)->Some_0;
            lemma_jstring_sound(s, p1);
            assert(s.subrange(p2, p2 + 2) == "}}"@);
            assert(p2 + 2 == s.len());
            lemma_join2(s, 0, p1, p2, lj, esc(name) + seq!['"']);
            lemma_join2(s, 0, p2, s.len() as int, lj + (esc(name) + seq!['"']), "}}"@);
            assert(s.subrange(0, s.len() as int) =~= s);
            assert(i == InputV::Join(JoinEventV { user_name: name }));
            assert(spec_enc_input(i) =~= (lj + (esc(name) + seq!['"'])) + "}}"@) by {
                assert("\"}}"@ =~= seq!['"'] + "}}"@);
            }
        },
        None => {
            let p1 = parse_lit(s, 0, lm)->0;
            let (body, p2) = parse_jstring(s, p1)->Some_0;
            lemma_jstring_sound(s, p1);
            assert(s.subrange(p2, p2 + 2) == "}}"@);
            assert(p2 + 2 == s.len());
            lemma_join2(s, 0, p1, p2, lm, esc(body) + seq!['"']);
            lemma_join2(s, 0, p2, s.len() as int, lm + (esc(body) + seq!['"']), "}}"@);
            assert(s.subrange(0, s.len() as int) =~= s);
            assert(i == InputV::Message(MessageEventV { body }));
            assert(spec_enc_input(i) =~= (lm + (esc(body) + seq!['"'])) + "}}"@) by {
                assert("\"}}"@ =~= seq!['"'] + "}}"@);
            }
        },
    }
}

} // verus!
