//! Character- and string-level helpers shared by the parsing modules:
//! ASCII case folding, whitespace trimming, line and token splitting,
//! decimal rendering and parsing, and UTF-8 decoding.

use vstd::prelude::*;
use vstd::string::*;
use vstd::utf8::*;

verus! {

/// ASCII whitespace: space, tab, carriage return, line feed.
pub open spec fn is_ws(c: char) -> bool {
    c == ' ' || c == '\t' || c == '\r' || c == '\n'
}

/// ASCII uppercase of one character: maps 'a'..='z' to 'A'..='Z'.
pub open spec fn upper_char(c: char) -> char {
    if 97 <= c as u32 && c as u32 <= 122 {
        ((c as u32 - 32) as u8) as char
    } else {
        c
    }
}

/// ASCII lowercase of one character: maps 'A'..='Z' to 'a'..='z'.
pub open spec fn lower_char(c: char) -> char {
    if 65 <= c as u32 && c as u32 <= 90 {
        ((c as u32 + 32) as u8) as char
    } else {
        c
    }
}

pub open spec fn to_upper(s: Seq<char>) -> Seq<char> {
    s.map_values(|c: char| upper_char(c))
}

pub open spec fn to_lower(s: Seq<char>) -> Seq<char> {
    s.map_values(|c: char| lower_char(c))
}

/// Uppercasing is idempotent, character by character.
pub proof fn lemma_to_upper_idempotent(s: Seq<char>)
    ensures
        to_upper(to_upper(s)) == to_upper(s),
{
    assert(to_upper(to_upper(s)) =~= to_upper(s));
}

/// Lowercasing is idempotent, character by character.
pub proof fn lemma_to_lower_idempotent(s: Seq<char>)
    ensures
        to_lower(to_lower(s)) == to_lower(s),
{
    assert(to_lower(to_lower(s)) =~= to_lower(s));
}

/// Relies on str::to_ascii_uppercase: every ASCII letter 'a'..='z' is mapped
/// to 'A'..='Z' and every other character is returned unchanged.
#[verifier::external_body]
pub(crate) fn ascii_uppercase(s: &str) -> (r: String)
    ensures
        r@ == to_upper(s@),
{
    s.to_ascii_uppercase()
}

/// Relies on str::to_ascii_lowercase: every ASCII letter 'A'..='Z' is mapped
/// to 'a'..='z' and every other character is returned unchanged.
#[verifier::external_body]
pub(crate) fn ascii_lowercase(s: &str) -> (r: String)
    ensures
        r@ == to_lower(s@),
{
    s.to_ascii_lowercase()
}

/// Relies on core::str::from_utf8: it succeeds exactly on valid UTF-8 input
/// and decodes it to the characters the bytes encode; vstd's `valid_utf8` and
/// `decode_utf8` state the same encoding.
#[verifier::external_body]
pub(crate) fn utf8_to_string(bytes: &[u8]) -> (r: Option<String>)
    ensures
        r is Some <==> valid_utf8(bytes@),
        r matches Some(s) ==> s@ == decode_utf8(bytes@),
{
    match core::str::from_utf8(bytes) {
        Ok(s) => Some(String::from(s)),
        Err(_) => None,
    }
}

/// A sequence of bytes below 0x80 is valid UTF-8 and decodes to the same
/// values read as characters.
pub proof fn lemma_ascii_bytes_utf8(bytes: Seq<u8>)
    requires
        forall|i: int| 0 <= i < bytes.len() ==> bytes[i] < 0x80,
    ensures
        valid_utf8(bytes),
        decode_utf8(bytes) == bytes.map_values(|b: u8| b as char),
{
    let chars = bytes.map_values(|b: u8| b as char);
    assert(is_ascii_chars(chars));
    is_ascii_chars_encode_utf8(chars);
    assert(encode_utf8(chars) =~= bytes);
    encode_utf8_valid_utf8(chars);
    encode_utf8_decode_utf8(chars);
}

/// Character-by-character string equality.
pub(crate) fn str_eq(a: &str, b: &str) -> (r: bool)
    ensures
        r == (a@ == b@),
{
    let alen = a.unicode_len();
    let blen = b.unicode_len();
    if alen != blen {
        return false;
    }
    let mut i: usize = 0;
    while i < alen
        invariant
            0 <= i <= alen,
            alen == a@.len(),
            alen == b@.len(),
            forall|j: int| 0 <= j < i ==> a@[j] == b@[j],
        decreases alen - i,
    {
        if a.get_char(i) != b.get_char(i) {
            return false;
        }
        i += 1;
    }
    proof {
        assert(a@ =~= b@);
    }
    true
}

/// Index of the first occurrence of `c` in `s`, or `s.len()` if absent.
pub open spec fn first_idx(s: Seq<char>, c: char) -> int
    decreases s.len(),
{
    if s.len() == 0 {
        0
    } else if s[0] == c {
        0
    } else {
        1 + first_idx(s.skip(1), c)
    }
}

pub open spec fn contains_char(s: Seq<char>, c: char) -> bool {
    exists|i: int| 0 <= i < s.len() && s[i] == c
}

pub proof fn lemma_first_idx(s: Seq<char>, c: char)
    ensures
        0 <= first_idx(s, c) <= s.len(),
        contains_char(s, c) ==> first_idx(s, c) < s.len() && s[first_idx(s, c)] == c,
        !contains_char(s, c) ==> first_idx(s, c) == s.len(),
        forall|j: int| 0 <= j < first_idx(s, c) ==> s[j] != c,
    decreases s.len(),
{
    if s.len() == 0 {
    } else if s[0] == c {
    } else {
        lemma_first_idx(s.skip(1), c);
        assert forall|i: int| 0 <= i < s.len() && s[i] == c implies contains_char(s.skip(1), c) by {
            assert(s.skip(1)[i - 1] == s[i]);
        }
        if contains_char(s.skip(1), c) {
            assert(s[1 + first_idx(s.skip(1), c)] == s.skip(1)[first_idx(s.skip(1), c)]);
        }
        assert forall|j: int| 0 <= j < first_idx(s, c) implies s[j] != c by {
            if j > 0 {
                assert(s.skip(1)[j - 1] != c);
            }
        }
    }
}

/// `first_idx` is pinned by having `c` at the index and nowhere before it.
pub proof fn lemma_first_idx_unique(s: Seq<char>, c: char, i: int)
    requires
        0 <= i < s.len(),
        s[i] == c,
        forall|j: int| 0 <= j < i ==> s[j] != c,
    ensures
        first_idx(s, c) == i,
{
    lemma_first_idx(s, c);
    assert(contains_char(s, c));
}

/// First occurrence of a character, scanning left to right.
pub(crate) fn find_char(s: &str, c: char) -> (r: Option<usize>)
    ensures
        contains_char(s@, c) ==> (r matches Some(i) && i as int == first_idx(s@, c)),
        !contains_char(s@, c) ==> r is None,
{
    let len = s.unicode_len();
    let mut i: usize = 0;
    while i < len
        invariant
            0 <= i <= len,
            len == s@.len(),
            forall|j: int| 0 <= j < i ==> s@[j] != c,
        decreases len - i,
    {
        if s.get_char(i) == c {
            proof {
                lemma_first_idx_unique(s@, c, i as int);
            }
            return Some(i);
        }
        i += 1;
    }
    proof {
        lemma_first_idx(s@, c);
    }
    None
}

/// Leading ASCII whitespace removed.
pub open spec fn trim_start_spec(s: Seq<char>) -> Seq<char>
    decreases s.len(),
{
    if s.len() > 0 && is_ws(s[0]) {
        trim_start_spec(s.skip(1))
    } else {
        s
    }
}

/// Trailing ASCII whitespace removed.
pub open spec fn trim_end_spec(s: Seq<char>) -> Seq<char>
    decreases s.len(),
{
    if s.len() > 0 && is_ws(s.last()) {
        trim_end_spec(s.drop_last())
    } else {
        s
    }
}

/// Leading and trailing ASCII whitespace removed.
pub open spec fn trim_spec(s: Seq<char>) -> Seq<char> {
    trim_end_spec(trim_start_spec(s))
}

/// A string without leading or trailing whitespace trims to itself.
pub proof fn lemma_trim_noop(s: Seq<char>)
    requires
        s.len() > 0 ==> !is_ws(s[0]) && !is_ws(s.last()),
    ensures
        trim_spec(s) == s,
{
}

proof fn lemma_trim_start_len(s: Seq<char>)
    ensures
        trim_start_spec(s).len() <= s.len(),
        s.len() > 0 && is_ws(s[0]) ==> trim_start_spec(s).len() < s.len(),
    decreases s.len(),
{
    if s.len() > 0 && is_ws(s[0]) {
        lemma_trim_start_len(s.skip(1));
    }
}

proof fn lemma_trim_end_len(s: Seq<char>)
    ensures
        trim_end_spec(s).len() <= s.len(),
        s.len() > 0 && is_ws(s.last()) ==> trim_end_spec(s).len() < s.len(),
    decreases s.len(),
{
    if s.len() > 0 && is_ws(s.last()) {
        lemma_trim_end_len(s.drop_last());
    }
}

/// A non-empty string equal to its own trim has no whitespace at either end.
pub proof fn lemma_trimmed_ends(s: Seq<char>)
    requires
        trim_spec(s) == s,
        s.len() > 0,
    ensures
        !is_ws(s[0]),
        !is_ws(s.last()),
{
    lemma_trim_start_len(s);
    lemma_trim_end_len(trim_start_spec(s));
    if is_ws(s[0]) {
        assert(trim_spec(s).len() < s.len());
    }
    if !is_ws(s[0]) && is_ws(s.last()) {
        assert(trim_start_spec(s) == s);
        assert(trim_spec(s).len() < s.len());
    }
}

proof fn lemma_trim_start_skip(s: Seq<char>, i: int)
    requires
        0 <= i <= s.len(),
        forall|j: int| 0 <= j < i ==> is_ws(s[j]),
    ensures
        trim_start_spec(s) == trim_start_spec(s.skip(i)),
    decreases i,
{
    if i > 0 {
        assert(trim_start_spec(s) == trim_start_spec(s.skip(1)));
        lemma_trim_start_skip(s.skip(1), i - 1);
        assert(s.skip(1).skip(i - 1) =~= s.skip(i));
    } else {
        assert(s.skip(0) =~= s);
    }
}

proof fn lemma_trim_end_take(s: Seq<char>, i: int)
    requires
        0 <= i <= s.len(),
        forall|j: int| i <= j < s.len() ==> is_ws(s[j]),
    ensures
        trim_end_spec(s) == trim_end_spec(s.take(i)),
    decreases s.len() - i,
{
    if i < s.len() {
        assert(trim_end_spec(s) == trim_end_spec(s.drop_last()));
        lemma_trim_end_take(s.drop_last(), i);
        assert(s.drop_last().take(i) =~= s.take(i));
    } else {
        assert(s.take(i) =~= s);
    }
}

/// Remove leading and trailing ASCII whitespace.
pub(crate) fn trim(s: &str) -> (r: &str)
    ensures
        r@ == trim_spec(s@),
{
    let len = s.unicode_len();
    let mut i: usize = 0;
    while i < len && is_ws_exec(s.get_char(i))
        invariant
            0 <= i <= len,
            len == s@.len(),
            forall|j: int| 0 <= j < i ==> is_ws(s@[j]),
        decreases len - i,
    {
        i += 1;
    }
    proof {
        lemma_trim_start_skip(s@, i as int);
        if i < len {
            assert(trim_start_spec(s@.skip(i as int)) == s@.skip(i as int));
        } else {
            assert(s@.skip(i as int) =~= Seq::<char>::empty());
        }
    }
    // s@.skip(i) == trim_start_spec(s@); now trim its tail.
    let mut e: usize = len;
    while e > i && is_ws_exec(s.get_char(e - 1))
        invariant
            i <= e <= len,
            len == s@.len(),
            forall|j: int| e <= j < len ==> is_ws(s@[j]),
        decreases e,
    {
        e -= 1;
    }
    let r = s.substring_char(i, e);
    proof {
        let t = s@.skip(i as int);
        lemma_trim_end_take(t, e - i);
        assert(t.take(e - i) =~= s@.subrange(i as int, e as int));
        if e > i {
            assert(trim_end_spec(t.take(e - i)) == t.take(e - i));
        } else {
            assert(t.take(e - i) =~= Seq::<char>::empty());
        }
    }
    r
}

/// Executable form of `is_ws`.
pub(crate) fn is_ws_exec(c: char) -> (r: bool)
    ensures
        r == is_ws(c),
{
    c == ' ' || c == '\t' || c == '\r' || c == '\n'
}

/// One trailing carriage return removed.
pub open spec fn strip_cr(s: Seq<char>) -> Seq<char> {
    if s.len() > 0 && s.last() == '\r' {
        s.drop_last()
    } else {
        s
    }
}

/// The lines of a string, split at line feeds, each line's carriage return
/// before the line feed removed; a final line without a terminator counts,
/// an empty string has no lines.
pub open spec fn lines_spec(s: Seq<char>) -> Seq<Seq<char>>
    decreases s.len(),
    via lines_spec_dec
{
    if s.len() == 0 {
        Seq::empty()
    } else if !contains_char(s, '\n') {
        seq![s]
    } else {
        seq![strip_cr(s.take(first_idx(s, '\n')))] + lines_spec(s.skip(first_idx(s, '\n') + 1))
    }
}

#[via_fn]
proof fn lines_spec_dec(s: Seq<char>) {
    lemma_first_idx(s, '\n');
}

/// The pieces of a string split at every occurrence of `c`; adjacent
/// separators and separators at the ends give empty pieces.
pub open spec fn split_spec(s: Seq<char>, c: char) -> Seq<Seq<char>>
    decreases s.len(),
    via split_spec_dec
{
    if !contains_char(s, c) {
        seq![s]
    } else {
        seq![s.take(first_idx(s, c))] + split_spec(s.skip(first_idx(s, c) + 1), c)
    }
}

#[via_fn]
proof fn split_spec_dec(s: Seq<char>, c: char) {
    lemma_first_idx(s, c);
}

/// A split always has at least one piece.
pub proof fn lemma_split_len(s: Seq<char>, c: char)
    ensures
        split_spec(s, c).len() >= 1,
{
    if contains_char(s, c) {
        lemma_first_idx(s, c);
    }
}

/// The pieces joined back with `sep` between them.
pub open spec fn join_spec(pieces: Seq<Seq<char>>, sep: Seq<char>) -> Seq<char>
    decreases pieces.len(),
{
    if pieces.len() == 0 {
        Seq::empty()
    } else if pieces.len() == 1 {
        pieces[0]
    } else {
        pieces[0] + sep + join_spec(pieces.skip(1), sep)
    }
}

/// The lines of `s`, as owned strings.
pub(crate) fn split_lines(s: &str) -> (r: Vec<String>)
    ensures
        r.deep_view() == lines_spec(s@),
{
    let mut out: Vec<String> = Vec::new();
    let mut rest: &str = s;
    loop
        invariant
            lines_spec(s@) == out.deep_view() + lines_spec(rest@),
        decreases rest@.len(),
    {
        let rlen = rest.unicode_len();
        if rlen == 0 {
            proof {
                assert(lines_spec(s@) =~= out.deep_view());
            }
            return out;
        }
        match find_char(rest, '\n') {
            None => {
                let ghost prev = out.deep_view();
                out.push(String::from_str(rest));
                proof {
                    assert(out.deep_view() =~= prev + seq![rest@]);
                    assert(lines_spec(s@) =~= out.deep_view());
                }
                return out;
            },
            Some(i) => {
                proof {
                    lemma_first_idx(rest@, '\n');
                }
                let line = if i > 0 && rest.get_char(i - 1) == '\r' {
                    rest.substring_char(0, i - 1)
                } else {
                    rest.substring_char(0, i)
                };
                proof {
                    if i > 0 {
                        assert(rest@.take(i as int)[i - 1] == rest@[i - 1]);
                    }
                    assert(line@ =~= strip_cr(rest@.take(i as int)));
                }
                let ghost prev_rest = rest@;
                let ghost prev = out.deep_view();
                out.push(String::from_str(line));
                rest = rest.substring_char(i + 1, rlen);
                proof {
                    assert(out.deep_view() =~= prev + seq![strip_cr(prev_rest.take(i as int))]);
                    assert(rest@ =~= prev_rest.skip(i + 1));
                    assert(out.deep_view() + lines_spec(rest@) =~= prev + lines_spec(prev_rest));
                }
            },
        }
    }
}

/// The pieces of `s` split at `c`, as owned strings.
pub(crate) fn split_char(s: &str, c: char) -> (r: Vec<String>)
    ensures
        r.deep_view() == split_spec(s@, c),
{
    let mut out: Vec<String> = Vec::new();
    let mut rest: &str = s;
    loop
        invariant
            split_spec(s@, c) == out.deep_view() + split_spec(rest@, c),
        decreases rest@.len(),
    {
        match find_char(rest, c) {
            None => {
                let ghost prev = out.deep_view();
                out.push(String::from_str(rest));
                proof {
                    assert(out.deep_view() =~= prev + seq![rest@]);
                    assert(split_spec(s@, c) =~= out.deep_view());
                }
                return out;
            },
            Some(i) => {
                proof {
                    lemma_first_idx(rest@, c);
                }
                let rlen = rest.unicode_len();
                let piece = rest.substring_char(0, i);
                let ghost prev_rest = rest@;
                let ghost prev = out.deep_view();
                out.push(String::from_str(piece));
                rest = rest.substring_char(i + 1, rlen);
                proof {
                    assert(piece@ =~= prev_rest.take(i as int));
                    assert(out.deep_view() =~= prev + seq![prev_rest.take(i as int)]);
                    assert(rest@ =~= prev_rest.skip(i + 1));
                    assert(out.deep_view() + split_spec(rest@, c) =~= prev + split_spec(prev_rest, c));
                }
            },
        }
    }
}

/// Joining line contents with LF or CRLF and splitting them back yields the
/// same lines, provided no content is empty, holds a line feed, or ends with
/// a carriage return.
pub proof fn lemma_join_lines(pieces: Seq<Seq<char>>, crlf: bool)
    requires
        pieces.len() > 0,
        forall|i: int| 0 <= i < pieces.len() ==> (#[trigger] pieces[i]).len() > 0,
        forall|i: int, k: int|
            0 <= i < pieces.len() && 0 <= k < pieces[i].len() ==> #[trigger] pieces[i][k] != '\n',
        forall|i: int| 0 <= i < pieces.len() ==> (#[trigger] pieces[i]).last() != '\r',
    ensures
        ({
            let j = join_spec(pieces, if crlf { "\r\n"@ } else { "\n"@ });
            lines_spec(j) == pieces && j.len() > 0 && j[0] == pieces[0][0] && j.last()
                == pieces.last().last()
        }),
    decreases pieces.len(),
{
    reveal_strlit("\r\n");
    reveal_strlit("\n");
    let sep = if crlf { "\r\n"@ } else { "\n"@ };
    let j = join_spec(pieces, sep);
    if pieces.len() == 1 {
        assert(j == pieces[0]);
        assert(!contains_char(j, '\n'));
        assert(lines_spec(j) =~= pieces);
    } else {
        let p0 = pieces[0];
        let rest = pieces.skip(1);
        assert forall|i: int|
            0 <= i < rest.len() implies (#[trigger] rest[i]).len() > 0 && rest[i].last()
            != '\r' by {
            assert(rest[i] == pieces[i + 1]);
        }
        assert forall|i: int, k: int|
            0 <= i < rest.len() && 0 <= k < rest[i].len() implies #[trigger] rest[i][k]
            != '\n' by {
            assert(rest[i] == pieces[i + 1]);
        }
        lemma_join_lines(rest, crlf);
        let jr = join_spec(rest, sep);
        assert(j == p0 + sep + jr);
        let idx = p0.len() + (if crlf { 1int } else { 0int });
        assert(j[idx] == '\n');
        assert forall|k: int| 0 <= k < idx implies j[k] != '\n' by {
            if k < p0.len() {
                assert(j[k] == p0[k]);
            } else {
                assert(j[k] == '\r');
            }
        }
        lemma_first_idx_unique(j, '\n', idx);
        assert(contains_char(j, '\n'));
        if crlf {
            assert(j.take(idx) =~= p0 + seq!['\r']);
            assert(strip_cr(j.take(idx)) =~= p0);
        } else {
            assert(j.take(idx) =~= p0);
        }
        assert(j.skip(idx + 1) =~= jr);
        assert(lines_spec(j) == seq![strip_cr(j.take(idx))] + lines_spec(jr));
        assert(lines_spec(j) =~= pieces);
        assert(j[0] == p0[0]);
        assert(jr.len() > 0);
        assert(j.last() == jr.last());
        assert(rest.last() == pieces.last());
    }
}

/// The character for a decimal digit value in 0..=9.
pub open spec fn dec_digit(d: int) -> char {
    ((48 + d) as u8) as char
}

/// The decimal rendering of a natural number, most significant digit first,
/// without leading zeros (zero itself renders as "0").
pub open spec fn dec_str(n: nat) -> Seq<char>
    decreases n,
{
    if n < 10 {
        seq![dec_digit(n as int)]
    } else {
        dec_str(n / 10) + seq![dec_digit((n % 10) as int)]
    }
}

pub open spec fn is_digit(c: char) -> bool {
    48 <= c as u32 <= 57
}

/// The value of a digit string read in base ten.
pub open spec fn dec_val(s: Seq<char>) -> int
    decreases s.len(),
{
    if s.len() == 0 {
        0
    } else {
        dec_val(s.drop_last()) * 10 + (s.last() as u32 - 48)
    }
}

/// A non-empty string of decimal digits.
pub open spec fn is_dec(s: Seq<char>) -> bool {
    s.len() > 0 && forall|i: int| 0 <= i < s.len() ==> is_digit(s[i])
}

proof fn lemma_dec_val_nonneg(s: Seq<char>)
    requires
        forall|i: int| 0 <= i < s.len() ==> is_digit(s[i]),
    ensures
        dec_val(s) >= 0,
    decreases s.len(),
{
    if s.len() > 0 {
        lemma_dec_val_nonneg(s.drop_last());
    }
}

proof fn lemma_dec_val_prefix(s: Seq<char>, i: int)
    requires
        0 <= i <= s.len(),
        forall|j: int| 0 <= j < s.len() ==> is_digit(s[j]),
    ensures
        dec_val(s) >= dec_val(s.take(i)),
    decreases s.len() - i,
{
    if i < s.len() {
        lemma_dec_val_prefix(s, i + 1);
        assert(s.take(i + 1).drop_last() =~= s.take(i));
        lemma_dec_val_nonneg(s.take(i));
        assert(dec_val(s.take(i + 1)) == dec_val(s.take(i)) * 10 + (s[i] as u32 - 48));
    } else {
        assert(s.take(i) =~= s);
    }
}

/// Parse a non-empty all-digit string as a base-ten number fitting in u64.
pub(crate) fn parse_u64(s: &str) -> (r: Option<u64>)
    ensures
        r is Some <==> is_dec(s@) && dec_val(s@) <= u64::MAX,
        r matches Some(n) ==> n as int == dec_val(s@),
{
    let len = s.unicode_len();
    if len == 0 {
        return None;
    }
    let mut acc: u64 = 0;
    let mut i: usize = 0;
    while i < len
        invariant
            0 <= i <= len,
            len == s@.len(),
            forall|j: int| 0 <= j < i ==> is_digit(s@[j]),
            acc as int == dec_val(s@.take(i as int)),
        decreases len - i,
    {
        let c = s.get_char(i);
        let u = c as u32;
        if u < 48 || u > 57 {
            return None;
        }
        let d = (u - 48) as u64;
        proof {
            assert(s@.take(i + 1).drop_last() =~= s@.take(i as int));
            assert(s@.take(i + 1).last() == s@[i as int]);
        }
        let next = match acc.checked_mul(10) {
            Some(m) => m.checked_add(d),
            None => None,
        };
        match next {
            Some(v) => {
                acc = v;
            },
            None => {
                proof {
                    if is_dec(s@) {
                        lemma_dec_val_prefix(s@, i + 1);
                    }
                }
                return None;
            },
        }
        i += 1;
    }
    proof {
        assert(s@.take(len as int) =~= s@);
    }
    Some(acc)
}

spec fn digit_chars(bs: Seq<u8>) -> Seq<char> {
    bs.map_values(|b: u8| b as char)
}

/// Render a number in decimal.
pub(crate) fn u64_to_string(n: u64) -> (r: String)
    ensures
        r@ == dec_str(n as nat),
{
    if n == 0 {
        let r = String::from_str("0");
        proof {
            reveal_strlit("0");
            assert(r@ =~= dec_str(0));
        }
        return r;
    }
    // Least significant digit first.
    let mut digits: Vec<u8> = Vec::new();
    let mut m: u64 = n;
    while m > 0
        invariant
            forall|k: int| 0 <= k < digits@.len() ==> 48 <= #[trigger] digits@[k] < 58,
            dec_str(n as nat) =~= (if m > 0 {
                dec_str(m as nat)
            } else {
                Seq::<char>::empty()
            }) + digit_chars(digits@.reverse()),
        decreases m,
    {
        let d: u8 = (m % 10) as u8 + 48;
        let ghost prev = digits@;
        let ghost prev_m = m as nat;
        digits.push(d);
        m = m / 10;
        proof {
            assert(digits@.reverse() =~= seq![d] + prev.reverse());
            assert(digit_chars(digits@.reverse()) =~= seq![d as char] + digit_chars(
                prev.reverse(),
            ));
            assert(dec_digit((prev_m % 10) as int) == d as char);
            if prev_m >= 10 {
                assert(dec_str(prev_m) == dec_str(prev_m / 10) + seq![
                    dec_digit((prev_m % 10) as int),
                ]);
            } else {
                assert(dec_str(prev_m) == seq![dec_digit(prev_m as int)]);
            }
            assert(dec_str(n as nat) =~= (if m > 0 {
                dec_str(m as nat)
            } else {
                Seq::<char>::empty()
            }) + digit_chars(digits@.reverse()));
        }
    }
    // Most significant digit first.
    let mut bytes: Vec<u8> = Vec::new();
    let mut i: usize = digits.len();
    while i > 0
        invariant
            0 <= i <= digits@.len(),
            forall|k: int| 0 <= k < digits@.len() ==> 48 <= #[trigger] digits@[k] < 58,
            bytes@ =~= digits@.subrange(i as int, digits@.len() as int).reverse(),
        decreases i,
    {
        i -= 1;
        let b = digits[i];
        proof {
            let ghost old_bytes = bytes@;
            assert(digits@.subrange(i as int, digits@.len() as int).reverse() =~= old_bytes.push(
                digits@[i as int],
            ));
        }
        bytes.push(b);
    }
    proof {
        assert(bytes@ =~= digits@.reverse());
        lemma_ascii_bytes_utf8(bytes@);
        assert(digit_chars(bytes@) =~= bytes@.map_values(|b: u8| b as char));
    }
    match utf8_to_string(bytes.as_slice()) {
        Some(s) => {
            proof {
                assert(s@ =~= dec_str(n as nat));
            }
            s
        },
        None => {
            proof {
                assert(false);
            }
            String::new()
        },
    }
}

} // verus!
