//! Decoding the storage manager's JSON list output into typed entities.
//!
//! The listing text is a JSON object whose `datasets` member maps each full
//! entity name to an object describing one entity.  An entity carries a
//! `type` tag that must be exactly one of the two known kinds — any other
//! tag fails the decode, closed, rather than being skipped — and a creation
//! transaction id that must be an exact unsigned 64-bit integer, never a
//! lossy float, because it is used as a total order key.  Members that the
//! schema does not know are skipped; text that is not of this shape at all
//! is a malformed-JSON error.  String escapes are the single-character JSON
//! escapes and the four-hex-digit `\u` escape of a scalar value; a `\u`
//! escape naming a surrogate (half of an astral-plane pair) is refused.

use vstd::prelude::*;
use vstd::utf8::is_scalar;

use crate::errors::DecodeError;
use crate::render::push_char;
use crate::zfs_types::{Dataset, Snapshot, ZfsListItem, ZfsListOutput};

verus! {

broadcast use vstd::string::group_string_axioms;

pub open spec fn is_ws(c: char) -> bool {
    c == ' ' || c == '\t' || c == '\n' || c == '\r'
}

pub open spec fn is_digit(c: char) -> bool {
    48 <= c as u32 <= 57
}

pub open spec fn digit_val(c: char) -> nat {
    (c as u32 - 48) as nat
}

/// The value of a digit run, most significant digit first.
pub open spec fn digits_value(ds: Seq<char>) -> nat
    decreases ds.len(),
{
    if ds.len() == 0 {
        0
    } else {
        digits_value(ds.drop_last()) * 10 + digit_val(ds.last())
    }
}

/// Where the digit run starting at `i` ends.
pub open spec fn digits_end(s: Seq<char>, i: int) -> int
    decreases s.len() - i when 0 <= i <= s.len()
{
    if i < s.len() && is_digit(s[i]) {
        digits_end(s, i + 1)
    } else {
        i
    }
}

/// The value of one hexadecimal digit, when the character is one.
pub open spec fn hex_val(c: char) -> Option<u32> {
    let u = c as u32;
    if 48 <= u <= 57 {
        Some((u - 48) as u32)
    } else if 97 <= u <= 102 {
        Some((u - 87) as u32)
    } else if 65 <= u <= 70 {
        Some((u - 55) as u32)
    } else {
        None
    }
}

/// What a single-character string escape denotes, when it is one.
pub open spec fn unescaped(c: char) -> Option<char> {
    if c == '"' {
        Some('"')
    } else if c == '\\' {
        Some('\\')
    } else if c == '/' {
        Some('/')
    } else if c == 'b' {
        Some('\u{0008}')
    } else if c == 'f' {
        Some('\u{000c}')
    } else if c == 'n' {
        Some('\n')
    } else if c == 'r' {
        Some('\r')
    } else if c == 't' {
        Some('\t')
    } else {
        None
    }
}

/// What the escape whose backslash stands at `i` denotes: the character and
/// the position just past the escape.  A `\u` escape must name a scalar
/// value; a surrogate fails the decode.
pub open spec fn escape_at(s: Seq<char>, i: int) -> Option<(char, int)> {
    if i + 1 < s.len() {
        if s[i + 1] == 'u' {
            if i + 6 <= s.len() {
                match (hex_val(s[i + 2]), hex_val(s[i + 3]), hex_val(s[i + 4]), hex_val(s[i + 5])) {
                    (Some(h1), Some(h2), Some(h3), Some(h4)) => {
                        let code = (h1 * 4096 + h2 * 256 + h3 * 16 + h4) as u32;
                        if is_scalar(code) {
                            Some((code as char, i + 6))
                        } else {
                            None
                        }
                    },
                    _ => None,
                }
            } else {
                None
            }
        } else {
            match unescaped(s[i + 1]) {
                None => None,
                Some(c) => Some((c, i + 2)),
            }
        }
    } else {
        None
    }
}

/// The characters and end of the string-literal body starting at `i` (just
/// after the opening quote): up to the closing quote, with escapes decoded.
/// (The bound check on an escape's end keeps the recursion visibly
/// well-founded; an escape never exceeds it.)
pub open spec fn string_chars_at(s: Seq<char>, i: int) -> Option<(Seq<char>, int)>
    decreases s.len() - i when 0 <= i <= s.len()
{
    if i >= s.len() {
        None
    } else if s[i] == '"' {
        Some((Seq::empty(), i + 1))
    } else if s[i] == '\\' {
        match escape_at(s, i) {
            None => None,
            Some((c, k)) => if !(i < k <= s.len()) {
                None
            } else {
                match string_chars_at(s, k) {
                    None => None,
                    Some((rest, j)) => Some((seq![c] + rest, j)),
                }
            },
        }
    } else {
        match string_chars_at(s, i + 1) {
            None => None,
            Some((rest, j)) => Some((seq![s[i]] + rest, j)),
        }
    }
}

/// A decoded string body ends after the position it started and inside the
/// text.
pub broadcast proof fn lemma_string_chars_end(s: Seq<char>, i: int)
    requires
        0 <= i <= s.len(),
    ensures
        (#[trigger] string_chars_at(s, i)) matches Some(p) ==> i < p.1 <= s.len(),
    decreases s.len() - i,
{
    if i < s.len() {
        if s[i] == '"' {
        } else if s[i] == '\\' {
            match escape_at(s, i) {
                None => {},
                Some((c, k)) => {
                    if i < k <= s.len() {
                        lemma_string_chars_end(s, k);
                    }
                },
            }
        } else {
            lemma_string_chars_at_unfold(s, i);
            lemma_string_chars_end(s, i + 1);
        }
    }
}

/// Helper to keep the recursive definition visible one step deep.
proof fn lemma_string_chars_at_unfold(s: Seq<char>, i: int)
    requires
        0 <= i <= s.len(),
    ensures
        string_chars_at(s, i) == (if i >= s.len() {
            None::<(Seq<char>, int)>
        } else if s[i] == '"' {
            Some((Seq::<char>::empty(), i + 1))
        } else if s[i] == '\\' {
            match escape_at(s, i) {
                None => None::<(Seq<char>, int)>,
                Some((c, k)) => if !(i < k <= s.len()) {
                    None::<(Seq<char>, int)>
                } else {
                    match string_chars_at(s, k) {
                        None => None,
                        Some((rest, j)) => Some((seq![c] + rest, j)),
                    }
                },
            }
        } else {
            match string_chars_at(s, i + 1) {
                None => None::<(Seq<char>, int)>,
                Some((rest, j)) => Some((seq![s[i]] + rest, j)),
            }
        }),
{
}

/// Where the whitespace run starting at `i` ends.
pub open spec fn ws_end(s: Seq<char>, i: int) -> int
    decreases s.len() - i when 0 <= i <= s.len()
{
    if i < s.len() && is_ws(s[i]) {
        ws_end(s, i + 1)
    } else {
        i
    }
}

pub broadcast proof fn lemma_ws_end(s: Seq<char>, i: int)
    requires
        0 <= i <= s.len(),
    ensures
        i <= #[trigger] ws_end(s, i) <= s.len(),
    decreases s.len() - i,
{
    if i < s.len() && is_ws(s[i]) {
        lemma_ws_end(s, i + 1);
    }
}

/// Advance past whitespace.
fn skip_ws(s: &str, i: usize, n: usize) -> (r: usize)
    requires
        i <= n,
        n == s@.len(),
    ensures
        r == ws_end(s@, i as int),
        i <= r <= n,
        r < n ==> !is_ws(s@[r as int]),
        forall|k: int| i <= k < r ==> is_ws(s@[k]),
{
    let mut cur = i;
    while cur < n
        invariant
            i <= cur <= n,
            n == s@.len(),
            ws_end(s@, i as int) == ws_end(s@, cur as int),
            forall|k: int| i <= k < cur ==> is_ws(s@[k]),
        decreases n - cur,
    {
        let c = s.get_char(cur);
        if !(c == ' ' || c == '\t' || c == '\n' || c == '\r') {
            proof {
                assert(ws_end(s@, cur as int) == cur as int);
            }
            return cur;
        }
        cur = cur + 1;
    }
    proof {
        assert(ws_end(s@, cur as int) == cur as int);
    }
    cur
}

/// Decode the unsigned integer token starting at `i`, exactly: the token
/// must be a pure digit run whose value fits in 64 bits, not followed by a
/// fraction or exponent — a lossy number is refused, since the value serves
/// as an order key.
fn parse_u64(s: &str, i: usize, n: usize) -> (r: Result<(u64, usize), DecodeError>)
    requires
        i <= n,
        n == s@.len(),
    ensures
        r matches Ok(p) ==> {
            &&& p.1 == digits_end(s@, i as int)
            &&& i < p.1 <= n
            &&& p.0 == digits_value(s@.subrange(i as int, p.1 as int))
            &&& (p.1 < n ==> !(s@[p.1 as int] == '.' || s@[p.1 as int] == 'e' || s@[p.1 as int]
                == 'E'))
        },
        r matches Err(e) ==> e == DecodeError::InvalidInteger,
        r is Err ==> !({
            &&& i < n
            &&& is_digit(s@[i as int])
            &&& digits_value(s@.subrange(i as int, digits_end(s@, i as int))) < 0x1_0000_0000_0000_0000
            &&& (digits_end(s@, i as int) < n ==> !(s@[digits_end(s@, i as int)] == '.' || s@[
                digits_end(s@, i as int)] == 'e' || s@[digits_end(s@, i as int)] == 'E'))
        }),
{
    if i >= n {
        return Err(DecodeError::InvalidInteger);
    }
    let c0 = s.get_char(i);
    if !((c0 as u32) >= 48 && (c0 as u32) <= 57) {
        return Err(DecodeError::InvalidInteger);
    }
    let end = digits_scan_end(s, i, n);
    let mut cur = i;
    let mut v: u64 = 0;
    let mut overflowed = false;
    while cur < end
        invariant
            i <= cur <= end <= n,
            n == s@.len(),
            end == digits_end(s@, i as int),
            forall|k: int| i <= k < end ==> is_digit(s@[k]),
            !overflowed ==> v == digits_value(s@.subrange(i as int, cur as int)),
            overflowed ==> digits_value(s@.subrange(i as int, cur as int))
                >= 0x1_0000_0000_0000_0000,
        decreases end - cur,
    {
        let c = s.get_char(cur);
        let d = (c as u32) - 48;
        proof {
            let pre = s@.subrange(i as int, cur as int);
            let ext = s@.subrange(i as int, cur + 1);
            assert(ext.drop_last() =~= pre);
            assert(ext.last() == s@[cur as int]);
        }
        if !overflowed {
            match v.checked_mul(10) {
                Some(v10) => {
                    match v10.checked_add(d as u64) {
                        Some(v2) => {
                            v = v2;
                        },
                        None => {
                            overflowed = true;
                        },
                    }
                },
                None => {
                    overflowed = true;
                },
            }
        }
        proof {
            let pre = s@.subrange(i as int, cur as int);
            let ext = s@.subrange(i as int, cur + 1);
            if overflowed {
                lemma_digits_value_mono_step(pre, ext);
            }
        }
        cur = cur + 1;
    }
    if overflowed {
        return Err(DecodeError::InvalidInteger);
    }
    if cur < n {
        let c = s.get_char(cur);
        if c == '.' || c == 'e' || c == 'E' {
            return Err(DecodeError::InvalidInteger);
        }
    }
    Ok((v, cur))
}

/// Extending a digit run never shrinks its value.
proof fn lemma_digits_value_mono_step(pre: Seq<char>, ext: Seq<char>)
    requires
        ext.len() == pre.len() + 1,
        ext.drop_last() == pre,
    ensures
        digits_value(ext) >= digits_value(pre),
{
    assert(digits_value(ext) == digits_value(pre) * 10 + digit_val(ext.last()));
}

/// Where the digit run starting at `i` ends, computed.
fn digits_scan_end(s: &str, i: usize, n: usize) -> (r: usize)
    requires
        i <= n,
        n == s@.len(),
    ensures
        r == digits_end(s@, i as int),
        i <= r <= n,
        r < n ==> !is_digit(s@[r as int]),
        forall|k: int| i <= k < r ==> is_digit(s@[k]),
{
    let mut cur = i;
    while cur < n
        invariant
            i <= cur <= n,
            n == s@.len(),
            digits_end(s@, i as int) == digits_end(s@, cur as int),
            forall|k: int| i <= k < cur ==> is_digit(s@[k]),
        decreases n - cur,
    {
        let c = s.get_char(cur);
        if !((c as u32) >= 48 && (c as u32) <= 57) {
            proof {
                assert(digits_end(s@, cur as int) == cur as int);
            }
            return cur;
        }
        cur = cur + 1;
    }
    proof {
        assert(digits_end(s@, cur as int) == cur as int);
    }
    cur
}

/// The value of one hexadecimal digit, computed.
fn hex_digit(c: char) -> (r: Option<u32>)
    ensures
        r == hex_val(c),
        r matches Some(h) ==> h < 16,
{
    let u = c as u32;
    if u >= 48 && u <= 57 {
        Some(u - 48)
    } else if u >= 97 && u <= 102 {
        Some(u - 87)
    } else if u >= 65 && u <= 70 {
        Some(u - 55)
    } else {
        None
    }
}

/// Relies on char::from_u32: it succeeds exactly on Unicode scalar values
/// and converts value-preservingly.
#[verifier::external_body]
fn char_from_u32(v: u32) -> (r: Option<char>)
    ensures
        r is Some <==> is_scalar(v),
        r matches Some(c) ==> c as u32 == v,
{
    char::from_u32(v)
}

/// What a one-character escape decodes to, if anything.
fn unescape_char(c: char) -> (r: Option<char>)
    ensures
        r == unescaped(c),
{
    if c == '"' {
        Some('"')
    } else if c == '\\' {
        Some('\\')
    } else if c == '/' {
        Some('/')
    } else if c == 'b' {
        Some('\u{0008}')
    } else if c == 'f' {
        Some('\u{000c}')
    } else if c == 'n' {
        Some('\n')
    } else if c == 'r' {
        Some('\r')
    } else if c == 't' {
        Some('\t')
    } else {
        None
    }
}

/// Decode the string literal whose opening quote stands at `i`; on success
/// the decoded characters and the position just past the closing quote.
fn parse_string(s: &str, i: usize, n: usize) -> (r: Result<(String, usize), DecodeError>)
    requires
        i < n,
        n == s@.len(),
        s@[i as int] == '"',
    ensures
        r matches Ok(p) ==> string_chars_at(s@, i + 1) == Some((p.0@, p.1 as int)) && i + 1 < p.1
            <= n,
        r is Err ==> string_chars_at(s@, i + 1) is None,
        r matches Err(e) ==> e == DecodeError::MalformedJson,
{
    let mut cur = i + 1;
    let mut out = String::new();
    loop
        invariant
            i + 1 <= cur <= n,
            n == s@.len(),
            string_chars_at(s@, i + 1) == (match string_chars_at(s@, cur as int) {
                None => None::<(Seq<char>, int)>,
                Some((rest, j)) => Some((out@ + rest, j)),
            }),
        decreases n - cur,
    {
        if cur >= n {
            return Err(DecodeError::MalformedJson);
        }
        let c = s.get_char(cur);
        if c == '"' {
            proof {
                assert(string_chars_at(s@, cur as int) == Some((Seq::<char>::empty(), cur + 1)));
                assert(out@ + Seq::<char>::empty() =~= out@);
                lemma_string_chars_end(s@, i + 1);
            }
            return Ok((out, cur + 1));
        }
        if c == '\\' {
            if cur + 1 >= n {
                return Err(DecodeError::MalformedJson);
            }
            let e = s.get_char(cur + 1);
            if e == 'u' {
                if n - cur < 6 {
                    proof {
                        assert(escape_at(s@, cur as int) is None);
                    }
                    return Err(DecodeError::MalformedJson);
                }
                let h1 = match hex_digit(s.get_char(cur + 2)) {
                    Some(h) => h,
                    None => {
                        return Err(DecodeError::MalformedJson);
                    },
                };
                let h2 = match hex_digit(s.get_char(cur + 3)) {
                    Some(h) => h,
                    None => {
                        return Err(DecodeError::MalformedJson);
                    },
                };
                let h3 = match hex_digit(s.get_char(cur + 4)) {
                    Some(h) => h,
                    None => {
                        return Err(DecodeError::MalformedJson);
                    },
                };
                let h4 = match hex_digit(s.get_char(cur + 5)) {
                    Some(h) => h,
                    None => {
                        return Err(DecodeError::MalformedJson);
                    },
                };
                let code = h1 * 4096 + h2 * 256 + h3 * 16 + h4;
                let u = match char_from_u32(code) {
                    Some(u) => u,
                    None => {
                        proof {
                            assert(escape_at(s@, cur as int) is None);
                        }
                        return Err(DecodeError::MalformedJson);
                    },
                };
                let ghost out0 = out@;
                push_char(&mut out, u);
                proof {
                    vstd::utf8::char_u32_cast(u, code);
                    assert(escape_at(s@, cur as int) == Some((u, cur + 6 as int)));
                    lemma_string_chars_at_unfold(s@, cur as int);
                    match string_chars_at(s@, cur + 6) {
                        Some(p) => {
                            assert(out0 + (seq![u] + p.0) =~= out@ + p.0);
                        },
                        None => {},
                    }
                }
                cur = cur + 6;
            } else {
                match unescape_char(e) {
                    None => {
                        proof {
                            assert(escape_at(s@, cur as int) is None);
                        }
                        return Err(DecodeError::MalformedJson);
                    },
                    Some(u) => {
                        let ghost out0 = out@;
                        push_char(&mut out, u);
                        proof {
                            assert(escape_at(s@, cur as int) == Some((u, cur + 2 as int)));
                            lemma_string_chars_at_unfold(s@, cur as int);
                            match string_chars_at(s@, cur + 2) {
                                Some(p) => {
                                    assert(out0 + (seq![u] + p.0) =~= out@ + p.0);
                                },
                                None => {},
                            }
                        }
                        cur = cur + 2;
                    },
                }
            }
        } else {
            let ghost out0 = out@;
            push_char(&mut out, c);
            proof {
                lemma_string_chars_at_unfold(s@, cur as int);
                match string_chars_at(s@, cur + 1) {
                    Some(p) => {
                        assert(out0 + (seq![c] + p.0) =~= out@ + p.0);
                    },
                    None => {},
                }
            }
            cur = cur + 1;
        }
    }
}

/// Character-for-character equality of two text slices.
fn str_eq(a: &str, b: &str) -> (r: bool)
    ensures
        r == (a@ == b@),
{
    let na = a.unicode_len();
    let nb = b.unicode_len();
    if na != nb {
        return false;
    }
    let mut k: usize = 0;
    while k < na
        invariant
            k <= na,
            na == a@.len(),
            na == b@.len(),
            forall|k2: int| 0 <= k2 < k ==> a@[k2] == b@[k2],
        decreases na - k,
    {
        if a.get_char(k) != b.get_char(k) {
            proof {
                assert(a@ != b@) by {
                    if a@ == b@ {
                        assert(a@[k as int] == b@[k as int]);
                    }
                }
            }
            return false;
        }
        k = k + 1;
    }
    proof {
        assert(a@ =~= b@);
    }
    true
}

/// A character that can continue a JSON number token.
pub open spec fn is_num_char(c: char) -> bool {
    is_digit(c) || c == '.' || c == 'e' || c == 'E' || c == '+' || c == '-'
}

/// Where the number token starting at `i` ends.
pub open spec fn num_end(s: Seq<char>, i: int) -> int
    decreases s.len() - i when 0 <= i <= s.len()
{
    if i < s.len() && is_num_char(s[i]) {
        num_end(s, i + 1)
    } else {
        i
    }
}

/// Where one JSON value of any shape starting at `i` ends, or nothing when
/// the text is not a value the decoder accepts.  The two object and array
/// walkers below continue it past each member.  The bound checks on the
/// positions that a nested value yields keep the recursion visibly
/// well-founded; the value walker never exceeds them.
pub open spec fn value_end(s: Seq<char>, i: int) -> Option<int>
    decreases s.len() - i, 0int
        when 0 <= i <= s.len()
        via value_end_decreases
{
    if i >= s.len() {
        None
    } else {
        let c = s[i];
        if c == '"' {
            match string_chars_at(s, i + 1) {
                None => None,
                Some((_body, j)) => Some(j),
            }
        } else if is_digit(c) || c == '-' {
            Some(num_end(s, i + 1))
        } else if c == 't' {
            if i + 4 <= s.len() && s[i + 1] == 'r' && s[i + 2] == 'u' && s[i + 3] == 'e' {
                Some(i + 4)
            } else {
                None
            }
        } else if c == 'f' {
            if i + 5 <= s.len() && s[i + 1] == 'a' && s[i + 2] == 'l' && s[i + 3] == 's' && s[i + 4]
                == 'e' {
                Some(i + 5)
            } else {
                None
            }
        } else if c == 'n' {
            if i + 4 <= s.len() && s[i + 1] == 'u' && s[i + 2] == 'l' && s[i + 3] == 'l' {
                Some(i + 4)
            } else {
                None
            }
        } else if c == '{' {
            let c0 = ws_end(s, i + 1);
            if c0 < s.len() && s[c0] == '}' {
                Some(c0 + 1)
            } else {
                obj_members_end(s, c0)
            }
        } else if c == '[' {
            let c0 = ws_end(s, i + 1);
            if c0 < s.len() && s[c0] == ']' {
                Some(c0 + 1)
            } else {
                arr_members_end(s, c0)
            }
        } else {
            None
        }
    }
}

/// Where an object's member list starting at the key at `cur` ends (just
/// past the closing brace).
pub open spec fn obj_members_end(s: Seq<char>, cur: int) -> Option<int>
    decreases s.len() - cur, 1int
        when 0 <= cur <= s.len()
        via obj_members_end_decreases
{
    if cur >= s.len() || s[cur] != '"' {
        None
    } else {
        match string_chars_at(s, cur + 1) {
            None => None,
            Some((_key, c2)) => {
                let c3 = ws_end(s, c2);
                if c3 >= s.len() || s[c3] != ':' {
                    None
                } else {
                    let c4 = ws_end(s, c3 + 1);
                    match value_end(s, c4) {
                        None => None,
                        Some(c5) => if !(c4 < c5 <= s.len()) {
                            None
                        } else {
                            let c6 = ws_end(s, c5);
                            if c6 >= s.len() {
                                None
                            } else if s[c6] == '}' {
                                Some(c6 + 1)
                            } else if s[c6] == ',' {
                                obj_members_end(s, ws_end(s, c6 + 1))
                            } else {
                                None
                            }
                        },
                    }
                }
            },
        }
    }
}

/// Where an array's element list starting at the value at `cur` ends (just
/// past the closing bracket).
pub open spec fn arr_members_end(s: Seq<char>, cur: int) -> Option<int>
    decreases s.len() - cur, 1int
        when 0 <= cur <= s.len()
        via arr_members_end_decreases
{
    match value_end(s, cur) {
        None => None,
        Some(c2) => if !(cur < c2 <= s.len()) {
            None
        } else {
            let c3 = ws_end(s, c2);
            if c3 >= s.len() {
                None
            } else if s[c3] == ']' {
                Some(c3 + 1)
            } else if s[c3] == ',' {
                arr_members_end(s, ws_end(s, c3 + 1))
            } else {
                None
            }
        },
    }
}

#[via_fn]
proof fn value_end_decreases(s: Seq<char>, i: int) {
    broadcast use lemma_ws_end;

}

#[via_fn]
proof fn obj_members_end_decreases(s: Seq<char>, cur: int) {
    broadcast use lemma_ws_end, lemma_string_chars_end;

}

#[via_fn]
proof fn arr_members_end_decreases(s: Seq<char>, cur: int) {
    broadcast use lemma_ws_end;

}

/// Where the number token starting at `i` ends, computed.
fn num_scan_end(s: &str, i: usize, n: usize) -> (r: usize)
    requires
        i <= n,
        n == s@.len(),
    ensures
        r == num_end(s@, i as int),
        i <= r <= n,
{
    let mut cur = i;
    while cur < n
        invariant
            i <= cur <= n,
            n == s@.len(),
            num_end(s@, i as int) == num_end(s@, cur as int),
        decreases n - cur,
    {
        let c = s.get_char(cur);
        if !(((c as u32) >= 48 && (c as u32) <= 57) || c == '.' || c == 'e' || c == 'E' || c == '+'
            || c == '-') {
            proof {
                assert(num_end(s@, cur as int) == cur as int);
            }
            return cur;
        }
        cur = cur + 1;
    }
    proof {
        assert(num_end(s@, cur as int) == cur as int);
    }
    cur
}

/// Skip one JSON value of any shape, returning the position just past it,
/// exactly as [`value_end`] fixes it.  Nothing is decoded; this only serves
/// to pass over members the schema does not know.
fn skip_value(s: &str, i: usize, n: usize) -> (r: Result<usize, DecodeError>)
    requires
        i <= n,
        n == s@.len(),
    ensures
        (match value_end(s@, i as int) {
            Some(j) => r matches Ok(jj) && jj == j,
            None => r is Err,
        }),
        r matches Ok(j) ==> i < j <= n,
        r matches Err(e) ==> e == DecodeError::MalformedJson,
    decreases n - i,
{
    if i >= n {
        return Err(DecodeError::MalformedJson);
    }
    let c = s.get_char(i);
    if c == '"' {
        match parse_string(s, i, n) {
            Ok((_k, j)) => Ok(j),
            Err(e) => Err(e),
        }
    } else if ((c as u32) >= 48 && (c as u32) <= 57) || c == '-' {
        let r = num_scan_end(s, i + 1, n);
        Ok(r)
    } else if c == 't' {
        if n - i >= 4 && s.get_char(i + 1) == 'r' && s.get_char(i + 2) == 'u' && s.get_char(i + 3)
            == 'e' {
            Ok(i + 4)
        } else {
            Err(DecodeError::MalformedJson)
        }
    } else if c == 'f' {
        if n - i >= 5 && s.get_char(i + 1) == 'a' && s.get_char(i + 2) == 'l' && s.get_char(i + 3)
            == 's' && s.get_char(i + 4) == 'e' {
            Ok(i + 5)
        } else {
            Err(DecodeError::MalformedJson)
        }
    } else if c == 'n' {
        if n - i >= 4 && s.get_char(i + 1) == 'u' && s.get_char(i + 2) == 'l' && s.get_char(i + 3)
            == 'l' {
            Ok(i + 4)
        } else {
            Err(DecodeError::MalformedJson)
        }
    } else if c == '{' {
        let mut cur = skip_ws(s, i + 1, n);
        if cur < n && s.get_char(cur) == '}' {
            return Ok(cur + 1);
        }
        proof {
            assert(value_end(s@, i as int) == obj_members_end(s@, cur as int));
        }
        loop
            invariant
                i < cur <= n,
                i < n,
                n == s@.len(),
                value_end(s@, i as int) == obj_members_end(s@, cur as int),
            decreases n - cur,
        {
            if cur >= n {
                return Err(DecodeError::MalformedJson);
            }
            if s.get_char(cur) != '"' {
                return Err(DecodeError::MalformedJson);
            }
            let c2 = match parse_string(s, cur, n) {
                Ok((_k, j)) => j,
                Err(e) => {
                    return Err(e);
                },
            };
            let c3 = skip_ws(s, c2, n);
            if c3 >= n || s.get_char(c3) != ':' {
                return Err(DecodeError::MalformedJson);
            }
            let c4 = skip_ws(s, c3 + 1, n);
            let c5 = match skip_value(s, c4, n) {
                Ok(j) => j,
                Err(e) => {
                    return Err(e);
                },
            };
            let c6 = skip_ws(s, c5, n);
            if c6 >= n {
                return Err(DecodeError::MalformedJson);
            }
            let sep = s.get_char(c6);
            if sep == '}' {
                return Ok(c6 + 1);
            }
            if sep != ',' {
                return Err(DecodeError::MalformedJson);
            }
            cur = skip_ws(s, c6 + 1, n);
        }
    } else if c == '[' {
        let mut cur = skip_ws(s, i + 1, n);
        if cur < n && s.get_char(cur) == ']' {
            return Ok(cur + 1);
        }
        proof {
            assert(value_end(s@, i as int) == arr_members_end(s@, cur as int));
        }
        loop
            invariant
                i < cur <= n,
                i < n,
                n == s@.len(),
                value_end(s@, i as int) == arr_members_end(s@, cur as int),
            decreases n - cur,
        {
            let c2 = match skip_value(s, cur, n) {
                Ok(j) => j,
                Err(e) => {
                    return Err(e);
                },
            };
            let c3 = skip_ws(s, c2, n);
            if c3 >= n {
                return Err(DecodeError::MalformedJson);
            }
            let sep = s.get_char(c3);
            if sep == ']' {
                return Ok(c3 + 1);
            }
            if sep != ',' {
                return Err(DecodeError::MalformedJson);
            }
            cur = skip_ws(s, c3 + 1, n);
        }
    } else {
        Err(DecodeError::MalformedJson)
    }
}

/// The unsigned 64-bit integer token at `i`, when the token there is a pure
/// digit run whose value fits and no fraction or exponent follows.
pub open spec fn u64_at(s: Seq<char>, i: int) -> Option<(u64, int)> {
    if 0 <= i < s.len() && is_digit(s[i]) {
        let e = digits_end(s, i);
        let v = digits_value(s.subrange(i, e));
        if v < 0x1_0000_0000_0000_0000 && (e < s.len() ==> !(s[e] == '.' || s[e] == 'e' || s[e]
            == 'E')) {
            Some((v as u64, e))
        } else {
            None
        }
    } else {
        None
    }
}

/// One decoded listing entry, at the specification level.
pub enum SpecListItem {
    Snapshot { name: Seq<char>, createtxg: u64, dataset: Seq<char>, snapshot_name: Seq<char> },
    Dataset { name: Seq<char> },
}

/// What a decoded entry says, field by field.
pub open spec fn item_view(item: ZfsListItem) -> SpecListItem {
    match item {
        ZfsListItem::Snapshot(s) => SpecListItem::Snapshot {
            name: s.name@,
            createtxg: s.createtxg,
            dataset: s.dataset@,
            snapshot_name: s.snapshot_name@,
        },
        ZfsListItem::Dataset(d) => SpecListItem::Dataset { name: d.name@ },
    }
}

pub open spec fn items_view(items: Seq<ZfsListItem>) -> Seq<SpecListItem> {
    items.map_values(|item: ZfsListItem| item_view(item))
}

/// The schema fields one entity object can carry.
pub struct ItemFields {
    pub name: Option<Seq<char>>,
    pub type_tag: Option<Seq<char>>,
    pub createtxg: Option<u64>,
    pub dataset: Option<Seq<char>>,
    pub snapshot_name: Option<Seq<char>>,
}

pub open spec fn no_fields() -> ItemFields {
    ItemFields { name: None, type_tag: None, createtxg: None, dataset: None, snapshot_name: None }
}

/// The entity the collected fields denote: a `SNAPSHOT` needs all four
/// snapshot fields, a `FILESYSTEM` its name, and any other tag — or a
/// missing one — denotes nothing (the decode fails closed).
pub open spec fn spec_item_of_fields(f: ItemFields) -> Option<SpecListItem> {
    match f.type_tag {
        None => None,
        Some(t) => if t == "SNAPSHOT"@ {
            match (f.name, f.createtxg, f.dataset, f.snapshot_name) {
                (Some(nm), Some(txg), Some(ds), Some(sn)) => Some(
                    SpecListItem::Snapshot {
                        name: nm,
                        createtxg: txg,
                        dataset: ds,
                        snapshot_name: sn,
                    },
                ),
                _ => None,
            }
        } else if t == "FILESYSTEM"@ {
            match f.name {
                Some(nm) => Some(SpecListItem::Dataset { name: nm }),
                None => None,
            }
        } else {
            None
        },
    }
}

/// Walk an entity object's members from the key at `cur`, collecting the
/// schema fields (a repeated member keeps its last value, as the decoder
/// reads them in order); yields the fields and the position just past the
/// closing brace.
pub open spec fn item_members_at(s: Seq<char>, cur: int, f: ItemFields) -> Option<(ItemFields, int)>
    decreases s.len() - cur
        when 0 <= cur <= s.len()
        via item_members_at_decreases
{
    if cur >= s.len() || s[cur] != '"' {
        None
    } else {
        match string_chars_at(s, cur + 1) {
            None => None,
            Some((key, c2)) => {
                let c3 = ws_end(s, c2);
                if c3 >= s.len() || s[c3] != ':' {
                    None
                } else {
                    let c4 = ws_end(s, c3 + 1);
                    let step: Option<(ItemFields, int)> = if key == "createtxg"@ {
                        match u64_at(s, c4) {
                            None => None,
                            Some((v, c5)) => Some(
                                (
                                    ItemFields {
                                        name: f.name,
                                        type_tag: f.type_tag,
                                        createtxg: Some(v),
                                        dataset: f.dataset,
                                        snapshot_name: f.snapshot_name,
                                    },
                                    c5,
                                ),
                            ),
                        }
                    } else if key == "name"@ || key == "type"@ || key == "dataset"@ || key
                        == "snapshot_name"@ {
                        if c4 < s.len() && s[c4] == '"' {
                            match string_chars_at(s, c4 + 1) {
                                None => None,
                                Some((v, c5)) => Some(
                                    (
                                        ItemFields {
                                            name: if key == "name"@ {
                                                Some(v)
                                            } else {
                                                f.name
                                            },
                                            type_tag: if key == "type"@ {
                                                Some(v)
                                            } else {
                                                f.type_tag
                                            },
                                            createtxg: f.createtxg,
                                            dataset: if key == "dataset"@ {
                                                Some(v)
                                            } else {
                                                f.dataset
                                            },
                                            snapshot_name: if key == "snapshot_name"@ {
                                                Some(v)
                                            } else {
                                                f.snapshot_name
                                            },
                                        },
                                        c5,
                                    ),
                                ),
                            }
                        } else {
                            None
                        }
                    } else {
                        match value_end(s, c4) {
                            None => None,
                            Some(c5) => Some((f, c5)),
                        }
                    };
                    match step {
                        None => None,
                        Some((f2, c5)) => if !(c4 < c5 <= s.len()) {
                            None
                        } else {
                            let c6 = ws_end(s, c5);
                            if c6 >= s.len() {
                                None
                            } else if s[c6] == '}' {
                                Some((f2, c6 + 1))
                            } else if s[c6] == ',' {
                                item_members_at(s, ws_end(s, c6 + 1), f2)
                            } else {
                                None
                            }
                        },
                    }
                }
            },
        }
    }
}

#[via_fn]
proof fn item_members_at_decreases(s: Seq<char>, cur: int, f: ItemFields) {
    broadcast use lemma_ws_end, lemma_string_chars_end;

}

/// The entity object at `i`: its collected schema fields and the position
/// just past it.
pub open spec fn item_at(s: Seq<char>, i: int) -> Option<(ItemFields, int)> {
    if 0 <= i < s.len() && s[i] == '{' {
        let c0 = ws_end(s, i + 1);
        if c0 < s.len() && s[c0] == '}' {
            Some((no_fields(), c0 + 1))
        } else {
            item_members_at(s, c0, no_fields())
        }
    } else {
        None
    }
}

/// Walk the `datasets` mapping's members from the key at `cur`, decoding one
/// entity per member; yields the entities in text order and the position
/// just past the closing brace.
pub open spec fn ds_members_at(s: Seq<char>, cur: int, acc: Seq<SpecListItem>) -> Option<
    (Seq<SpecListItem>, int),
>
    decreases s.len() - cur
        when 0 <= cur <= s.len()
        via ds_members_at_decreases
{
    if cur >= s.len() || s[cur] != '"' {
        None
    } else {
        match string_chars_at(s, cur + 1) {
            None => None,
            Some((_entity_name, c2)) => {
                let c3 = ws_end(s, c2);
                if c3 >= s.len() || s[c3] != ':' {
                    None
                } else {
                    let c4 = ws_end(s, c3 + 1);
                    match item_at(s, c4) {
                        None => None,
                        Some((f, c5)) => match spec_item_of_fields(f) {
                            None => None,
                            Some(item) => if !(c4 < c5 <= s.len()) {
                                None
                            } else {
                                let c6 = ws_end(s, c5);
                                if c6 >= s.len() {
                                    None
                                } else if s[c6] == '}' {
                                    Some((acc.push(item), c6 + 1))
                                } else if s[c6] == ',' {
                                    ds_members_at(s, ws_end(s, c6 + 1), acc.push(item))
                                } else {
                                    None
                                }
                            },
                        },
                    }
                }
            },
        }
    }
}

#[via_fn]
proof fn ds_members_at_decreases(s: Seq<char>, cur: int, acc: Seq<SpecListItem>) {
    broadcast use lemma_ws_end, lemma_string_chars_end;

}

/// The `datasets` mapping at `i`: its decoded entities and the position just
/// past it.
pub open spec fn datasets_at(s: Seq<char>, i: int) -> Option<(Seq<SpecListItem>, int)> {
    if 0 <= i < s.len() && s[i] == '{' {
        let c0 = ws_end(s, i + 1);
        if c0 < s.len() && s[c0] == '}' {
            Some((Seq::empty(), c0 + 1))
        } else {
            ds_members_at(s, c0, Seq::empty())
        }
    } else {
        None
    }
}

/// Walk the top-level object's members from the key at `cur`: the `datasets`
/// member (its last occurrence, were it repeated) yields the entities, every
/// other member is passed over; yields what was found and the position just
/// past the closing brace.
pub open spec fn top_members_at(
    s: Seq<char>,
    cur: int,
    found: Option<Seq<SpecListItem>>,
) -> Option<(Option<Seq<SpecListItem>>, int)>
    decreases s.len() - cur
        when 0 <= cur <= s.len()
        via top_members_at_decreases
{
    if cur >= s.len() || s[cur] != '"' {
        None
    } else {
        match string_chars_at(s, cur + 1) {
            None => None,
            Some((key, c2)) => {
                let c3 = ws_end(s, c2);
                if c3 >= s.len() || s[c3] != ':' {
                    None
                } else {
                    let c4 = ws_end(s, c3 + 1);
                    let step: Option<(Option<Seq<SpecListItem>>, int)> = if key == "datasets"@ {
                        match datasets_at(s, c4) {
                            None => None,
                            Some((items, c5)) => Some((Some(items), c5)),
                        }
                    } else {
                        match value_end(s, c4) {
                            None => None,
                            Some(c5) => Some((found, c5)),
                        }
                    };
                    match step {
                        None => None,
                        Some((found2, c5)) => if !(c4 < c5 <= s.len()) {
                            None
                        } else {
                            let c6 = ws_end(s, c5);
                            if c6 >= s.len() {
                                None
                            } else if s[c6] == '}' {
                                Some((found2, c6 + 1))
                            } else if s[c6] == ',' {
                                top_members_at(s, ws_end(s, c6 + 1), found2)
                            } else {
                                None
                            }
                        },
                    }
                }
            },
        }
    }
}

#[via_fn]
proof fn top_members_at_decreases(s: Seq<char>, cur: int, found: Option<Seq<SpecListItem>>) {
    broadcast use lemma_ws_end, lemma_string_chars_end;

}

/// The top-level object of a listing, before the trailing-text check.
pub open spec fn listing_inner(s: Seq<char>) -> Option<(Option<Seq<SpecListItem>>, int)> {
    let start = ws_end(s, 0);
    if start < s.len() && s[start] == '{' {
        let c0 = ws_end(s, start + 1);
        if c0 < s.len() && s[c0] == '}' {
            Some((None, c0 + 1))
        } else {
            top_members_at(s, c0, None)
        }
    } else {
        None
    }
}

/// The listing a text denotes, when it denotes one: a JSON object whose
/// `datasets` member holds well-formed entities, with nothing but whitespace
/// after it.  A text without a `datasets` member, with an unknown type tag,
/// with a lossy creation id, or of any other shape denotes nothing.
pub open spec fn spec_listing(s: Seq<char>) -> Option<Seq<SpecListItem>> {
    match listing_inner(s) {
        None => None,
        Some((found, end)) => if 0 <= end <= s.len() && ws_end(s, end) == s.len() {
            found
        } else {
            None
        },
    }
}

/// Assemble one entity from its decoded fields, by its type tag, exactly:
/// a `SNAPSHOT` needs all four snapshot fields, a `FILESYSTEM` needs its
/// name, and any other tag is refused outright.
fn item_from_fields(
    name: Option<String>,
    type_tag: Option<String>,
    createtxg: Option<u64>,
    dataset: Option<String>,
    snapshot_name: Option<String>,
) -> (r: Result<ZfsListItem, DecodeError>)
    ensures
        type_tag is None ==> r == Err::<ZfsListItem, DecodeError>(DecodeError::MissingField),
        type_tag matches Some(t) ==> {
            if t@ == "SNAPSHOT"@ {
                match (name, createtxg, dataset, snapshot_name) {
                    (Some(nm), Some(txg), Some(ds), Some(sn)) => r matches Ok(item) && (
                    item matches ZfsListItem::Snapshot(snap) && snap.name@ == nm@ && snap.createtxg
                        == txg && snap.dataset@ == ds@ && snap.snapshot_name@ == sn@),
                    _ => r == Err::<ZfsListItem, DecodeError>(DecodeError::MissingField),
                }
            } else if t@ == "FILESYSTEM"@ {
                match name {
                    Some(nm) => r matches Ok(item) && (item matches ZfsListItem::Dataset(d)
                        && d.name@ == nm@),
                    None => r == Err::<ZfsListItem, DecodeError>(DecodeError::MissingField),
                }
            } else {
                r == Err::<ZfsListItem, DecodeError>(DecodeError::UnknownTag)
            }
        },
{
    let t = match type_tag {
        Some(t) => t,
        None => {
            return Err(DecodeError::MissingField);
        },
    };
    if str_eq(t.as_str(), "SNAPSHOT") {
        match (name, createtxg, dataset, snapshot_name) {
            (Some(nm), Some(txg), Some(ds), Some(sn)) => Ok(
                ZfsListItem::Snapshot(
                    Snapshot { name: nm, createtxg: txg, dataset: ds, snapshot_name: sn },
                ),
            ),
            _ => Err(DecodeError::MissingField),
        }
    } else if str_eq(t.as_str(), "FILESYSTEM") {
        match name {
            Some(nm) => Ok(ZfsListItem::Dataset(Dataset { name: nm })),
            None => Err(DecodeError::MissingField),
        }
    } else {
        Err(DecodeError::UnknownTag)
    }
}

/// The schema's member names are pairwise distinct.
proof fn lemma_schema_keys_distinct()
    ensures
        "name"@ != "type"@,
        "name"@ != "dataset"@,
        "name"@ != "snapshot_name"@,
        "type"@ != "dataset"@,
        "type"@ != "snapshot_name"@,
        "dataset"@ != "snapshot_name"@,
        "createtxg"@ != "name"@,
        "createtxg"@ != "type"@,
        "createtxg"@ != "dataset"@,
        "createtxg"@ != "snapshot_name"@,
{
    reveal_strlit("createtxg");
    reveal_strlit("name");
    reveal_strlit("type");
    reveal_strlit("dataset");
    reveal_strlit("snapshot_name");
    assert("name"@.len() == 4);
    assert("type"@.len() == 4);
    assert("dataset"@.len() == 7);
    assert("snapshot_name"@.len() == 13);
    assert("createtxg"@.len() == 9);
    assert("name"@[0] == 'n');
    assert("type"@[0] == 't');
}

/// The schema fields as collected so far by the entity decoder.
spec fn fields_view(
    name: Option<String>,
    type_tag: Option<String>,
    createtxg: Option<u64>,
    dataset: Option<String>,
    snapshot_name: Option<String>,
) -> ItemFields {
    ItemFields {
        name: name.deep_view(),
        type_tag: type_tag.deep_view(),
        createtxg: createtxg,
        dataset: dataset.deep_view(),
        snapshot_name: snapshot_name.deep_view(),
    }
}

/// Decode one entity object, whose opening brace stands at `i` (after
/// whitespace), exactly as [`item_at`] and [`spec_item_of_fields`] fix it.
/// Members the schema does not know are skipped; the known ones must have
/// their schema types.
fn parse_item(s: &str, i: usize, n: usize) -> (r: Result<(ZfsListItem, usize), DecodeError>)
    requires
        i <= n,
        n == s@.len(),
    ensures
        (match item_at(s@, i as int) {
            None => r is Err,
            Some(p) => match spec_item_of_fields(p.0) {
                None => r is Err,
                Some(it) => r matches Ok(q) && item_view(q.0) == it && q.1 == p.1,
            },
        }),
        r matches Ok(p) ==> i < p.1 <= n,
        r matches Err(e) ==> e != DecodeError::InvalidUtf8,
    decreases n - i,
{
    if i >= n || s.get_char(i) != '{' {
        return Err(DecodeError::MalformedJson);
    }
    let mut name: Option<String> = None;
    let mut type_tag: Option<String> = None;
    let mut createtxg: Option<u64> = None;
    let mut dataset: Option<String> = None;
    let mut snapshot_name: Option<String> = None;
    let mut cur = skip_ws(s, i + 1, n);
    if cur < n && s.get_char(cur) == '}' {
        proof {
            assert(item_at(s@, i as int) == Some((no_fields(), cur + 1 as int)));
        }
        let item = match item_from_fields(name, type_tag, createtxg, dataset, snapshot_name) {
            Ok(item) => item,
            Err(e) => {
                return Err(e);
            },
        };
        return Ok((item, cur + 1));
    }
    proof {
        assert(item_at(s@, i as int) == item_members_at(s@, cur as int, no_fields()));
        assert(no_fields() == fields_view(name, type_tag, createtxg, dataset, snapshot_name));
    }
    loop
        invariant
            i < cur <= n,
            i < n,
            n == s@.len(),
            item_at(s@, i as int) == item_members_at(
                s@,
                cur as int,
                fields_view(name, type_tag, createtxg, dataset, snapshot_name),
            ),
        decreases n - cur,
    {
        proof {
            lemma_schema_keys_distinct();
        }
        let ghost f_in = fields_view(name, type_tag, createtxg, dataset, snapshot_name);
        if cur >= n || s.get_char(cur) != '"' {
            proof {
                assert(item_members_at(s@, cur as int, f_in) is None);
            }
            return Err(DecodeError::MalformedJson);
        }
        let (key, c2) = match parse_string(s, cur, n) {
            Ok(p) => p,
            Err(e) => {
                proof {
                    assert(item_members_at(s@, cur as int, f_in) is None);
                }
                return Err(e);
            },
        };
        let c3 = skip_ws(s, c2, n);
        if c3 >= n || s.get_char(c3) != ':' {
            proof {
                assert(item_members_at(s@, cur as int, f_in) is None);
            }
            return Err(DecodeError::MalformedJson);
        }
        let c4 = skip_ws(s, c3 + 1, n);
        let mut after: usize = c4;
        if str_eq(key.as_str(), "createtxg") {
            let (v, j) = match parse_u64(s, c4, n) {
                Ok(p) => p,
                Err(e) => {
                    proof {
                        assert(u64_at(s@, c4 as int) is None) by {
                            if c4 < n && is_digit(s@[c4 as int]) {
                            } else {
                                assert(u64_at(s@, c4 as int) is None);
                            }
                        }
                        assert(item_members_at(s@, cur as int, f_in) is None);
                    }
                    return Err(e);
                },
            };
            proof {
                assert(is_digit(s@[c4 as int])) by {
                    if !(c4 < n && is_digit(s@[c4 as int])) {
                        assert(digits_end(s@, c4 as int) == c4 as int);
                    }
                }
                assert(u64_at(s@, c4 as int) == Some((v, j as int)));
            }
            createtxg = Some(v);
            after = j;
        } else if str_eq(key.as_str(), "name") || str_eq(key.as_str(), "type") || str_eq(
            key.as_str(),
            "dataset",
        ) || str_eq(key.as_str(), "snapshot_name") {
            if c4 >= n || s.get_char(c4) != '"' {
                proof {
                    assert(item_members_at(s@, cur as int, f_in) is None);
                }
                return Err(DecodeError::MalformedJson);
            }
            let (v, j) = match parse_string(s, c4, n) {
                Ok(p) => p,
                Err(e) => {
                    proof {
                        assert(item_members_at(s@, cur as int, f_in) is None);
                    }
                    return Err(e);
                },
            };
            if str_eq(key.as_str(), "name") {
                name = Some(v);
            } else if str_eq(key.as_str(), "type") {
                type_tag = Some(v);
            } else if str_eq(key.as_str(), "dataset") {
                dataset = Some(v);
            } else {
                snapshot_name = Some(v);
            }
            after = j;
        } else {
            after = match skip_value(s, c4, n) {
                Ok(j) => j,
                Err(e) => {
                    proof {
                        assert(item_members_at(s@, cur as int, f_in) is None);
                    }
                    return Err(e);
                },
            };
        }
        let ghost f_out = fields_view(name, type_tag, createtxg, dataset, snapshot_name);
        let c6 = skip_ws(s, after, n);
        if c6 >= n {
            proof {
                assert(item_members_at(s@, cur as int, f_in) is None);
            }
            return Err(DecodeError::MalformedJson);
        }
        let sep = s.get_char(c6);
        if sep == '}' {
            proof {
                assert(item_members_at(s@, cur as int, f_in) == Some((f_out, c6 + 1 as int)));
            }
            let ghost f_final = f_out;
            let item = match item_from_fields(name, type_tag, createtxg, dataset, snapshot_name) {
                Ok(item) => item,
                Err(e) => {
                    proof {
                        assert(spec_item_of_fields(f_final) is None);
                    }
                    return Err(e);
                },
            };
            proof {
                assert(spec_item_of_fields(f_final) == Some(item_view(item)));
            }
            return Ok((item, c6 + 1));
        }
        if sep != ',' {
            proof {
                assert(item_members_at(s@, cur as int, f_in) is None);
            }
            return Err(DecodeError::MalformedJson);
        }
        let next = skip_ws(s, c6 + 1, n);
        proof {
            assert(item_members_at(s@, cur as int, f_in) == item_members_at(
                s@,
                next as int,
                f_out,
            ));
        }
        cur = next;
    }
}

/// Decode the `datasets` member: an object mapping each full entity name to
/// one entity object, exactly as [`datasets_at`] fixes it.  The mapping's
/// keys repeat the entities' own names and are passed over; the entities
/// themselves are decoded in text order.
fn parse_datasets_object(s: &str, i: usize, n: usize) -> (r: Result<
    (Vec<ZfsListItem>, usize),
    DecodeError,
>)
    requires
        i <= n,
        n == s@.len(),
    ensures
        (match datasets_at(s@, i as int) {
            None => r is Err,
            Some(p) => r matches Ok(q) && items_view(q.0@) == p.0 && q.1 == p.1,
        }),
        r matches Ok(p) ==> i < p.1 <= n,
        r matches Err(e) ==> e != DecodeError::InvalidUtf8,
{
    if i >= n || s.get_char(i) != '{' {
        return Err(DecodeError::MalformedJson);
    }
    let mut items: Vec<ZfsListItem> = Vec::new();
    let mut cur = skip_ws(s, i + 1, n);
    if cur < n && s.get_char(cur) == '}' {
        proof {
            assert(items_view(items@) =~= Seq::<SpecListItem>::empty());
        }
        return Ok((items, cur + 1));
    }
    proof {
        assert(items_view(items@) =~= Seq::<SpecListItem>::empty());
        assert(datasets_at(s@, i as int) == ds_members_at(s@, cur as int, items_view(items@)));
    }
    loop
        invariant
            i < cur <= n,
            i < n,
            n == s@.len(),
            datasets_at(s@, i as int) == ds_members_at(s@, cur as int, items_view(items@)),
        decreases n - cur,
    {
        let ghost acc_in = items_view(items@);
        if cur >= n || s.get_char(cur) != '"' {
            proof {
                assert(ds_members_at(s@, cur as int, acc_in) is None);
            }
            return Err(DecodeError::MalformedJson);
        }
        let (_entity_name, c2) = match parse_string(s, cur, n) {
            Ok(p) => p,
            Err(e) => {
                proof {
                    assert(ds_members_at(s@, cur as int, acc_in) is None);
                }
                return Err(e);
            },
        };
        let c3 = skip_ws(s, c2, n);
        if c3 >= n || s.get_char(c3) != ':' {
            proof {
                assert(ds_members_at(s@, cur as int, acc_in) is None);
            }
            return Err(DecodeError::MalformedJson);
        }
        let c4 = skip_ws(s, c3 + 1, n);
        let (item, c5) = match parse_item(s, c4, n) {
            Ok(p) => p,
            Err(e) => {
                proof {
                    assert(ds_members_at(s@, cur as int, acc_in) is None);
                }
                return Err(e);
            },
        };
        items.push(item);
        proof {
            assert(items_view(items@) =~= acc_in.push(item_view(item)));
        }
        let c6 = skip_ws(s, c5, n);
        if c6 >= n {
            proof {
                assert(ds_members_at(s@, cur as int, acc_in) is None);
            }
            return Err(DecodeError::MalformedJson);
        }
        let sep = s.get_char(c6);
        if sep == '}' {
            proof {
                assert(ds_members_at(s@, cur as int, acc_in) == Some(
                    (items_view(items@), c6 + 1 as int),
                ));
            }
            return Ok((items, c6 + 1));
        }
        if sep != ',' {
            proof {
                assert(ds_members_at(s@, cur as int, acc_in) is None);
            }
            return Err(DecodeError::MalformedJson);
        }
        let next = skip_ws(s, c6 + 1, n);
        proof {
            assert(ds_members_at(s@, cur as int, acc_in) == ds_members_at(
                s@,
                next as int,
                items_view(items@),
            ));
        }
        cur = next;
    }
}

/// What the decoder has found of the `datasets` member so far.
spec fn found_view(found: Option<Vec<ZfsListItem>>) -> Option<Seq<SpecListItem>> {
    match found {
        Some(v) => Some(items_view(v@)),
        None => None,
    }
}

/// Decode a whole listing, exactly as [`spec_listing`] fixes it: the text
/// must denote a JSON object whose `datasets` member holds the entities,
/// with nothing but whitespace after it.  Other top-level members are
/// skipped; a listing without a `datasets` member is refused, as is trailing
/// text after the object.
pub fn parse_listing(s: &str) -> (r: Result<ZfsListOutput, DecodeError>)
    ensures
        r is Ok <==> spec_listing(s@) is Some,
        r matches Ok(out) ==> spec_listing(s@) == Some(items_view(out.output@)),
        r matches Err(e) ==> e != DecodeError::InvalidUtf8,
{
    let n = s.unicode_len();
    let mut found: Option<Vec<ZfsListItem>> = None;
    let start = skip_ws(s, 0, n);
    if start >= n || s.get_char(start) != '{' {
        return Err(DecodeError::MalformedJson);
    }
    let mut cur = skip_ws(s, start + 1, n);
    if cur < n && s.get_char(cur) == '}' {
        proof {
            assert(listing_inner(s@) == Some((None::<Seq<SpecListItem>>, cur + 1 as int)));
        }
        let end = skip_ws(s, cur + 1, n);
        if end != n {
            return Err(DecodeError::MalformedJson);
        }
        return Err(DecodeError::MissingField);
    }
    proof {
        assert(listing_inner(s@) == top_members_at(s@, cur as int, found_view(found)));
    }
    loop
        invariant
            cur <= n,
            n == s@.len(),
            listing_inner(s@) == top_members_at(s@, cur as int, found_view(found)),
        decreases n - cur,
    {
        let ghost found_in = found_view(found);
        if cur >= n || s.get_char(cur) != '"' {
            proof {
                assert(top_members_at(s@, cur as int, found_in) is None);
            }
            return Err(DecodeError::MalformedJson);
        }
        let (key, c2) = match parse_string(s, cur, n) {
            Ok(p) => p,
            Err(e) => {
                proof {
                    assert(top_members_at(s@, cur as int, found_in) is None);
                }
                return Err(e);
            },
        };
        let c3 = skip_ws(s, c2, n);
        if c3 >= n || s.get_char(c3) != ':' {
            proof {
                assert(top_members_at(s@, cur as int, found_in) is None);
            }
            return Err(DecodeError::MalformedJson);
        }
        let c4 = skip_ws(s, c3 + 1, n);
        let mut after: usize = c4;
        if str_eq(key.as_str(), "datasets") {
            let (items, j) = match parse_datasets_object(s, c4, n) {
                Ok(p) => p,
                Err(e) => {
                    proof {
                        assert(top_members_at(s@, cur as int, found_in) is None);
                    }
                    return Err(e);
                },
            };
            found = Some(items);
            after = j;
        } else {
            after = match skip_value(s, c4, n) {
                Ok(j) => j,
                Err(e) => {
                    proof {
                        assert(top_members_at(s@, cur as int, found_in) is None);
                    }
                    return Err(e);
                },
            };
        }
        let ghost found_out = found_view(found);
        let c6 = skip_ws(s, after, n);
        if c6 >= n {
            proof {
                assert(top_members_at(s@, cur as int, found_in) is None);
            }
            return Err(DecodeError::MalformedJson);
        }
        let sep = s.get_char(c6);
        if sep == '}' {
            proof {
                assert(top_members_at(s@, cur as int, found_in) == Some(
                    (found_out, c6 + 1 as int),
                ));
            }
            let end = skip_ws(s, c6 + 1, n);
            if end != n {
                return Err(DecodeError::MalformedJson);
            }
            return match found {
                Some(items) => Ok(ZfsListOutput { output: items }),
                None => Err(DecodeError::MissingField),
            };
        }
        if sep != ',' {
            proof {
                assert(top_members_at(s@, cur as int, found_in) is None);
            }
            return Err(DecodeError::MalformedJson);
        }
        let next = skip_ws(s, c6 + 1, n);
        proof {
            assert(top_members_at(s@, cur as int, found_in) == top_members_at(
                s@,
                next as int,
                found_out,
            ));
        }
        cur = next;
    }
}

} // verus!
