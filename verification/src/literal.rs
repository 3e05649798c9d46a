//! JSON string literals, and the other small pieces of the wire text: blanks
//! between tokens and the two truth values.
//!
//! The text of a string literal is written and read by `serde_json`; this
//! module says what is written, finds where a literal ends, and hands the
//! literal over to be read.

use vstd::prelude::*;
use vstd::slice::slice_subrange;
use vstd::utf8::encode_utf8;

verus! {

/// `"`
pub const QUOTE: u8 = 0x22;

/// `\`
pub const BACKSLASH: u8 = 0x5c;

/// The error type of `serde_json`, carried through and never looked into.
#[verifier::external_type_specification]
#[verifier::external_body]
pub struct ExJsonError(serde_json::Error);

/// What `serde_json::from_slice::<String>` makes of `literal`: the string, or
/// `None` where it returns an error.
pub uninterp spec fn parsed_string(literal: Seq<u8>) -> Option<Seq<char>>;

/// The digit of `n` in lower-case hexadecimal, for `n` below sixteen.
pub open spec fn hex_digit(n: int) -> u8 {
    if n < 10 {
        (0x30 + n) as u8
    } else {
        (0x57 + n) as u8
    }
}

/// How one byte of a string stands inside a literal: a quote, a backslash and
/// the control characters are escaped, every other byte stands for itself.
pub open spec fn escaped_byte(b: u8) -> Seq<u8> {
    if b == 0x22 {
        seq![BACKSLASH, 0x22u8]
    } else if b == 0x5c {
        seq![BACKSLASH, 0x5cu8]
    } else if b == 0x08 {
        seq![BACKSLASH, 0x62u8]
    } else if b == 0x09 {
        seq![BACKSLASH, 0x74u8]
    } else if b == 0x0a {
        seq![BACKSLASH, 0x6eu8]
    } else if b == 0x0c {
        seq![BACKSLASH, 0x66u8]
    } else if b == 0x0d {
        seq![BACKSLASH, 0x72u8]
    } else if b < 0x20 {
        seq![BACKSLASH, 0x75u8, 0x30u8, 0x30u8, hex_digit(b as int / 16), hex_digit(b as int % 16)]
    } else {
        seq![b]
    }
}

/// The bytes of a string, each as it stands inside a literal.
pub open spec fn escaped(bytes: Seq<u8>) -> Seq<u8>
    decreases bytes.len(),
{
    if bytes.len() == 0 {
        Seq::empty()
    } else {
        escaped_byte(bytes[0]) + escaped(bytes.drop_first())
    }
}

/// The literal of the string `s`: its UTF-8 bytes, escaped, between quotes.
pub open spec fn string_literal(s: Seq<char>) -> Seq<u8> {
    seq![QUOTE] + escaped(encode_utf8(s)) + seq![QUOTE]
}

/// The literal of `s` is read back as `s`.
pub open spec fn reads_back(s: Seq<char>) -> bool {
    parsed_string(string_literal(s)) == Some(s)
}

/// `text` stands in `s` from index `i` on.
pub open spec fn has_at(s: Seq<u8>, i: int, text: Seq<u8>) -> bool {
    &&& 0 <= i
    &&& i + text.len() <= s.len()
    &&& s.subrange(i, i + text.len()) == text
}

/// The byte `b` stands in `s` at index `i`.
pub open spec fn is_at(s: Seq<u8>, i: int, b: u8) -> bool {
    0 <= i < s.len() && s[i] == b
}

/// A blank between tokens: space, tab, line feed or carriage return.
pub open spec fn is_blank(b: u8) -> bool {
    b == 0x20 || b == 0x09 || b == 0x0a || b == 0x0d
}

/// The number of blanks in `s` from index `i` on, up to the first byte that
/// is none.
pub open spec fn blanks(s: Seq<u8>, i: int) -> nat
    decreases s.len() - i,
{
    if 0 <= i < s.len() && is_blank(s[i]) {
        1 + blanks(s, i + 1)
    } else {
        0
    }
}

/// The index of the first byte of `s` at or after `i` that is no blank.
pub open spec fn past_blanks(s: Seq<u8>, i: int) -> int {
    i + blanks(s, i)
}

/// The length of what is left of a literal from index `i`, inside it, up to
/// and with the quote that closes it. A backslash takes the byte behind it
/// along, whatever it is. `None` where `s` ends before the literal does.
pub open spec fn rest_of_literal(s: Seq<u8>, i: int) -> Option<nat>
    decreases s.len() - i,
{
    if i < 0 || i >= s.len() {
        None
    } else if s[i] == QUOTE {
        Some(1)
    } else if s[i] == BACKSLASH {
        if i + 1 >= s.len() {
            None
        } else {
            match rest_of_literal(s, i + 2) {
                Some(n) => Some(n + 2),
                None => None,
            }
        }
    } else {
        match rest_of_literal(s, i + 1) {
            Some(n) => Some(n + 1),
            None => None,
        }
    }
}

/// The string whose literal begins at index `i` of `s`, and the length of
/// the literal. `None` where no quote stands at `i`, where the literal is
/// not closed, or where it cannot be read.
pub open spec fn string_at(s: Seq<u8>, i: int) -> Option<(Seq<char>, nat)> {
    if is_at(s, i, QUOTE) {
        match rest_of_literal(s, i + 1) {
            Some(n) => match parsed_string(s.subrange(i, i + 1 + n)) {
                Some(t) => Some((t, 1 + n)),
                None => None,
            },
            None => None,
        }
    } else {
        None
    }
}

/// The text of a truth value.
pub open spec fn bool_literal(b: bool) -> Seq<u8> {
    if b {
        seq![0x74u8, 0x72u8, 0x75u8, 0x65u8]
    } else {
        seq![0x66u8, 0x61u8, 0x6cu8, 0x73u8, 0x65u8]
    }
}

/// The truth value whose text begins at index `i` of `s`, and the length of
/// that text.
pub open spec fn bool_at(s: Seq<u8>, i: int) -> Option<(bool, nat)> {
    if has_at(s, i, bool_literal(true)) {
        Some((true, 4))
    } else if has_at(s, i, bool_literal(false)) {
        Some((false, 5))
    } else {
        None
    }
}

/// The literal of `s`, from `serde_json::to_vec`. The vector holds a quote,
/// the UTF-8 bytes of `s` with `"`, `\` and the bytes below 0x20 escaped as
/// `escaped_byte` says, and a quote. Writing a `str` into a vector has no
/// step that can fail, so the result is `Ok`. What was written is read back
/// by `serde_json::from_slice` as `s`.
#[verifier::external_body]
pub(crate) fn quote(s: &str) -> (r: Result<Vec<u8>, serde_json::Error>)
    ensures
        r is Ok,
        r matches Ok(text) ==> text@ == string_literal(s@) && reads_back(s@),
{
    serde_json::to_vec(s)
}

/// The string that `literal` stands for, from `serde_json::from_slice`.
/// Nothing is claimed of it but that the same bytes give the same result.
#[verifier::external_body]
pub(crate) fn unquote(literal: &[u8]) -> (r: Result<String, serde_json::Error>)
    ensures
        r matches Ok(s) ==> parsed_string(literal@) == Some(s@),
        r is Err ==> parsed_string(literal@) is None,
{
    serde_json::from_slice::<String>(literal)
}

/// A part of a text stands where the whole does.
pub proof fn lemma_has_at_split(s: Seq<u8>, i: int, a: Seq<u8>, b: Seq<u8>)
    requires
        has_at(s, i, a + b),
    ensures
        has_at(s, i, a),
        has_at(s, i + a.len(), b),
{
    let whole = s.subrange(i, i + (a + b).len());
    assert(s.subrange(i, i + a.len()) =~= whole.subrange(0, a.len() as int));
    assert(whole.subrange(0, a.len() as int) =~= a);
    assert(s.subrange(i + a.len(), i + a.len() + b.len()) =~= whole.subrange(
        a.len() as int,
        (a + b).len() as int,
    ));
    assert(whole.subrange(a.len() as int, (a + b).len() as int) =~= b);
}

/// Each byte of a text stands where the text does.
pub proof fn lemma_has_at_index(s: Seq<u8>, i: int, text: Seq<u8>, k: int)
    requires
        has_at(s, i, text),
        0 <= k < text.len(),
    ensures
        s[i + k] == text[k],
{
    assert(s.subrange(i, i + text.len())[k] == s[i + k]);
}

/// No byte of an escaped byte but its first is a quote or a backslash where
/// the scan looks, so the scan runs across it.
proof fn lemma_rest_across_escaped_byte(s: Seq<u8>, i: int, b: u8)
    requires
        has_at(s, i, escaped_byte(b)),
        rest_of_literal(s, i + escaped_byte(b).len()) is Some,
    ensures
        rest_of_literal(s, i) == Some(
            rest_of_literal(s, i + escaped_byte(b).len())->Some_0 + escaped_byte(b).len(),
        ),
{
    let e = escaped_byte(b);
    assert(i + e.len() < s.len());
    lemma_has_at_index(s, i, e, 0);
    if e.len() == 1 {
    } else if e.len() == 2 {
        lemma_has_at_index(s, i, e, 1);
    } else {
        lemma_has_at_index(s, i, e, 1);
        lemma_has_at_index(s, i, e, 2);
        lemma_has_at_index(s, i, e, 3);
        lemma_has_at_index(s, i, e, 4);
        lemma_has_at_index(s, i, e, 5);
        assert(s[i + 2] == 0x30);
        assert(s[i + 3] == 0x30);
        assert(s[i + 4] != QUOTE && s[i + 4] != BACKSLASH);
        assert(s[i + 5] != QUOTE && s[i + 5] != BACKSLASH);
        assert(rest_of_literal(s, i + 5) == Some(rest_of_literal(s, i + 6)->Some_0 + 1));
        assert(rest_of_literal(s, i + 4) == Some(rest_of_literal(s, i + 6)->Some_0 + 2));
        assert(rest_of_literal(s, i + 3) == Some(rest_of_literal(s, i + 6)->Some_0 + 3));
        assert(rest_of_literal(s, i + 2) == Some(rest_of_literal(s, i + 6)->Some_0 + 4));
    }
}

/// The scan that looks for the closing quote runs across escaped bytes and
/// stops at the quote behind them.
pub proof fn lemma_rest_of_escaped(s: Seq<u8>, i: int, body: Seq<u8>)
    requires
        has_at(s, i, escaped(body) + seq![QUOTE]),
    ensures
        rest_of_literal(s, i) == Some((escaped(body).len() + 1) as nat),
    decreases body.len(),
{
    if body.len() == 0 {
        lemma_has_at_index(s, i, escaped(body) + seq![QUOTE], 0);
    } else {
        let first = escaped_byte(body[0]);
        let rest = escaped(body.drop_first());
        assert(escaped(body) + seq![QUOTE] =~= first + (rest + seq![QUOTE]));
        lemma_has_at_split(s, i, first, rest + seq![QUOTE]);
        lemma_rest_of_escaped(s, i + first.len(), body.drop_first());
        lemma_rest_across_escaped_byte(s, i, body[0]);
    }
}

/// Where the literal of `t` stands in `s` and is read back as `t`, that is
/// the string found there.
pub proof fn lemma_string_at_literal(s: Seq<u8>, i: int, t: Seq<char>)
    requires
        has_at(s, i, string_literal(t)),
        reads_back(t),
    ensures
        string_at(s, i) == Some((t, string_literal(t).len())),
{
    let body = encode_utf8(t);
    assert(string_literal(t) =~= seq![QUOTE] + (escaped(body) + seq![QUOTE]));
    lemma_has_at_split(s, i, seq![QUOTE], escaped(body) + seq![QUOTE]);
    lemma_has_at_index(s, i, seq![QUOTE], 0);
    lemma_rest_of_escaped(s, i + 1, body);
}

/// The index of the first byte at or after `i` that is no blank.
pub fn skip_blanks(s: &[u8], i: usize) -> (j: usize)
    requires
        i <= s@.len(),
    ensures
        j == past_blanks(s@, i as int),
        i <= j <= s@.len(),
{
    let mut j = i;
    while j < s.len() && (s[j] == 0x20 || s[j] == 0x09 || s[j] == 0x0a || s[j] == 0x0d)
        invariant
            i <= j <= s@.len(),
            past_blanks(s@, i as int) == past_blanks(s@, j as int),
        decreases s@.len() - j,
    {
        j += 1;
    }
    j
}

/// Reads the string whose literal begins at `i`, and says where the literal
/// ends.
pub fn read_string(s: &[u8], i: usize) -> (r: Option<(String, usize)>)
    requires
        i <= s@.len(),
    ensures
        match string_at(s@, i as int) {
            Some((t, n)) => r matches Some((x, end)) && x@ == t && end == i + n,
            None => r is None,
        },
        r matches Some((_, end)) ==> i < end <= s@.len(),
{
    if !(i < s.len() && s[i] == QUOTE) {
        return None;
    }
    let mut j = i + 1;
    let ghost whole = rest_of_literal(s@, i + 1);
    loop
        invariant
            i < j <= s@.len(),
            is_at(s@, i as int, QUOTE),
            whole == rest_of_literal(s@, i + 1),
            match rest_of_literal(s@, j as int) {
                Some(n) => whole == Some((n + j - (i + 1)) as nat),
                None => whole is None,
            },
        decreases s@.len() - j,
    {
        if j >= s.len() {
            return None;
        }
        if s[j] == QUOTE {
            let literal = slice_subrange(s, i, j + 1);
            return match unquote(literal) {
                Ok(x) => Some((x, j + 1)),
                Err(_) => None,
            };
        }
        if s[j] == BACKSLASH {
            if j + 1 >= s.len() {
                return None;
            }
            j += 2;
        } else {
            j += 1;
        }
    }
}

/// Reads the truth value whose text begins at `i`, and says where the text
/// ends.
pub fn read_bool(s: &[u8], i: usize) -> (r: Option<(bool, usize)>)
    requires
        i <= s@.len(),
    ensures
        match bool_at(s@, i as int) {
            Some((b, n)) => r matches Some((x, end)) && x == b && end == i + n,
            None => r is None,
        },
        r matches Some((_, end)) ==> i < end <= s@.len(),
{
    let n = s.len();
    if n - i >= 4 && s[i] == 0x74 && s[i + 1] == 0x72 && s[i + 2] == 0x75 && s[i + 3] == 0x65 {
        assert(s@.subrange(i as int, i + 4) =~= bool_literal(true));
        Some((true, i + 4))
    } else if n - i >= 5 && s[i] == 0x66 && s[i + 1] == 0x61 && s[i + 2] == 0x6c && s[i + 3] == 0x73
        && s[i + 4] == 0x65 {
        assert(s@.subrange(i as int, i + 5) =~= bool_literal(false));
        proof {
            if has_at(s@, i as int, bool_literal(true)) {
                lemma_has_at_index(s@, i as int, bool_literal(true), 0);
            }
        }
        Some((false, i + 5))
    } else {
        proof {
            if has_at(s@, i as int, bool_literal(true)) {
                lemma_has_at_index(s@, i as int, bool_literal(true), 0);
                lemma_has_at_index(s@, i as int, bool_literal(true), 1);
                lemma_has_at_index(s@, i as int, bool_literal(true), 2);
                lemma_has_at_index(s@, i as int, bool_literal(true), 3);
            }
            if has_at(s@, i as int, bool_literal(false)) {
                lemma_has_at_index(s@, i as int, bool_literal(false), 0);
                lemma_has_at_index(s@, i as int, bool_literal(false), 1);
                lemma_has_at_index(s@, i as int, bool_literal(false), 2);
                lemma_has_at_index(s@, i as int, bool_literal(false), 3);
                lemma_has_at_index(s@, i as int, bool_literal(false), 4);
            }
        }
        None
    }
}

} // verus!
