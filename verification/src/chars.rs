//! Character-level models and helpers shared by the scanning components:
//! whitespace and forbidden-character classification, ASCII lowercasing,
//! UTF-8 byte lengths, and whitespace/dot trimming.

use vstd::prelude::*;

verus! {

use vstd::string::StrSliceExecFns;
use vstd::utf8::char_is_scalar;
use vstd::utf8::encode_scalar;
use vstd::utf8::encode_utf8;

/// The Unicode `White_Space` code points, the set `str::trim` and
/// `char::is_whitespace` go by.
pub open spec fn is_ws_char(c: char) -> bool {
    ||| c == '\u{0009}'
    ||| c == '\u{000A}'
    ||| c == '\u{000B}'
    ||| c == '\u{000C}'
    ||| c == '\u{000D}'
    ||| c == '\u{0020}'
    ||| c == '\u{0085}'
    ||| c == '\u{00A0}'
    ||| c == '\u{1680}'
    ||| ('\u{2000}' <= c && c <= '\u{200A}')
    ||| c == '\u{2028}'
    ||| c == '\u{2029}'
    ||| c == '\u{202F}'
    ||| c == '\u{205F}'
    ||| c == '\u{3000}'
}

pub fn is_ws(c: char) -> (r: bool)
    ensures
        r == is_ws_char(c),
{
    c == '\u{0009}' || c == '\u{000A}' || c == '\u{000B}' || c == '\u{000C}' || c == '\u{000D}'
        || c == '\u{0020}' || c == '\u{0085}' || c == '\u{00A0}' || c == '\u{1680}' || ('\u{2000}'
        <= c && c <= '\u{200A}') || c == '\u{2028}' || c == '\u{2029}' || c == '\u{202F}' || c
        == '\u{205F}' || c == '\u{3000}'
}

/// An ASCII uppercase letter.
pub open spec fn is_upper_char(c: char) -> bool {
    'A' <= c && c <= 'Z'
}

/// The character with an uppercase ASCII letter folded to its lowercase
/// counterpart; every other character is kept.
pub open spec fn lower_char(c: char) -> char {
    if is_upper_char(c) {
        (((c as u32) + 32) as u8) as char
    } else {
        c
    }
}

/// Lowercase folding of a sequence, one character at a time.
pub open spec fn lower_seq(s: Seq<char>) -> Seq<char> {
    s.map_values(|c: char| lower_char(c))
}

pub fn to_lower_char(c: char) -> (r: char)
    ensures
        r == lower_char(c),
{
    if 'A' <= c && c <= 'Z' {
        let u: u32 = c as u32;
        ((u + 32) as u8) as char
    } else {
        c
    }
}

/// Folded characters are never uppercase ASCII letters.
pub proof fn lemma_lower_char_not_upper(c: char)
    ensures
        !is_upper_char(lower_char(c)),
{
}

/// The number of bytes in the UTF-8 encoding of one character.
pub open spec fn char_bytes(c: char) -> int {
    let u = c as u32;
    if u < 0x80 {
        1
    } else if u < 0x800 {
        2
    } else if u < 0x10000 {
        3
    } else {
        4
    }
}

/// The number of bytes in the UTF-8 encoding of a character sequence.
pub open spec fn str_bytes(s: Seq<char>) -> int
    decreases s.len(),
{
    if s.len() == 0 {
        0
    } else {
        char_bytes(s[0]) + str_bytes(s.drop_first())
    }
}

/// `char_bytes` agrees with the length of the character's UTF-8 encoding.
pub proof fn lemma_char_bytes_is_encoding_len(c: char)
    ensures
        char_bytes(c) == encode_scalar(c as u32).len(),
        1 <= char_bytes(c) <= 4,
{
    char_is_scalar(c);
}

/// `str_bytes` agrees with the length of the sequence's UTF-8 encoding.
pub proof fn lemma_str_bytes_is_encoding_len(s: Seq<char>)
    ensures
        str_bytes(s) == encode_utf8(s).len(),
        str_bytes(s) >= 0,
    decreases s.len(),
{
    if s.len() == 0 {
    } else {
        lemma_char_bytes_is_encoding_len(s[0]);
        lemma_str_bytes_is_encoding_len(s.drop_first());
    }
}

/// Byte counts add over concatenation.
pub proof fn lemma_str_bytes_concat(a: Seq<char>, b: Seq<char>)
    ensures
        str_bytes(a + b) == str_bytes(a) + str_bytes(b),
    decreases a.len(),
{
    if a.len() == 0 {
        assert(a + b =~= b);
    } else {
        assert((a + b).drop_first() =~= a.drop_first() + b);
        lemma_str_bytes_concat(a.drop_first(), b);
    }
}

pub fn char_len(c: char) -> (n: usize)
    ensures
        n == char_bytes(c),
{
    let u: u32 = c as u32;
    if u < 0x80 {
        1
    } else if u < 0x800 {
        2
    } else if u < 0x10000 {
        3
    } else {
        4
    }
}

/// The sequence with the longest run of characters satisfying `p` removed
/// from the front.
pub open spec fn trim_start(s: Seq<char>, p: spec_fn(char) -> bool) -> Seq<char>
    decreases s.len(),
{
    if s.len() > 0 && p(s[0]) {
        trim_start(s.drop_first(), p)
    } else {
        s
    }
}

/// The sequence with the longest run of characters satisfying `p` removed
/// from the back.
pub open spec fn trim_end(s: Seq<char>, p: spec_fn(char) -> bool) -> Seq<char>
    decreases s.len(),
{
    if s.len() > 0 && p(s.last()) {
        trim_end(s.drop_last(), p)
    } else {
        s
    }
}

/// Both trims, front first.
pub open spec fn trim_both(s: Seq<char>, p: spec_fn(char) -> bool) -> Seq<char> {
    trim_end(trim_start(s, p), p)
}

pub open spec fn ws_pred() -> spec_fn(char) -> bool {
    |c: char| is_ws_char(c)
}

pub open spec fn dot_pred() -> spec_fn(char) -> bool {
    |c: char| c == '.'
}

pub proof fn lemma_trim_start_skip(s: Seq<char>, p: spec_fn(char) -> bool, i: int)
    requires
        0 <= i <= s.len(),
        forall|k: int| 0 <= k < i ==> p(s[k]),
        i == s.len() || !p(s[i]),
    ensures
        trim_start(s, p) == s.skip(i),
    decreases i,
{
    if i == 0 {
        assert(s.skip(0) =~= s);
    } else {
        let t = s.drop_first();
        assert(forall|k: int| 0 <= k < i - 1 ==> p(t[k]));
        lemma_trim_start_skip(t, p, i - 1);
        assert(t.skip(i - 1) =~= s.skip(i));
    }
}

pub proof fn lemma_trim_end_take(s: Seq<char>, p: spec_fn(char) -> bool, j: int)
    requires
        0 <= j <= s.len(),
        forall|k: int| j <= k < s.len() ==> p(s[k]),
        j == 0 || !p(s[j - 1]),
    ensures
        trim_end(s, p) == s.take(j),
    decreases s.len(),
{
    if j == s.len() {
        assert(s.take(j) =~= s);
    } else {
        let t = s.drop_last();
        assert(forall|k: int| j <= k < t.len() ==> p(t[k]));
        lemma_trim_end_take(t, p, j);
        assert(t.take(j) =~= s.take(j));
    }
}

/// A nonempty front-trimmed sequence no longer starts with a `p`-character.
pub proof fn lemma_trim_start_head(s: Seq<char>, p: spec_fn(char) -> bool)
    ensures
        trim_start(s, p).len() > 0 ==> !p(trim_start(s, p)[0]),
    decreases s.len(),
{
    if s.len() > 0 && p(s[0]) {
        lemma_trim_start_head(s.drop_first(), p);
    }
}

/// A nonempty back-trimmed sequence no longer ends with a `p`-character.
pub proof fn lemma_trim_end_last(s: Seq<char>, p: spec_fn(char) -> bool)
    ensures
        trim_end(s, p).len() > 0 ==> !p(trim_end(s, p).last()),
    decreases s.len(),
{
    if s.len() > 0 && p(s.last()) {
        lemma_trim_end_last(s.drop_last(), p);
    }
}

/// A back-trimmed sequence is a prefix of the original.
pub proof fn lemma_trim_end_prefix(s: Seq<char>, p: spec_fn(char) -> bool)
    ensures
        trim_end(s, p).len() <= s.len(),
        trim_end(s, p) == s.take(trim_end(s, p).len() as int),
    decreases s.len(),
{
    if s.len() > 0 && p(s.last()) {
        let t = s.drop_last();
        lemma_trim_end_prefix(t, p);
        assert(t.take(trim_end(t, p).len() as int) =~= s.take(trim_end(t, p).len() as int));
    } else {
        assert(s.take(s.len() as int) =~= s);
    }
}

/// Characters of a trimmed sequence come from the original sequence.
pub proof fn lemma_trim_start_chars(s: Seq<char>, p: spec_fn(char) -> bool)
    ensures
        forall|i: int|
            0 <= i < trim_start(s, p).len() ==> exists|k: int|
                0 <= k < s.len() && #[trigger] trim_start(s, p)[i] == s[k],
    decreases s.len(),
{
    if s.len() > 0 && p(s[0]) {
        lemma_trim_start_chars(s.drop_first(), p);
        assert forall|i: int| 0 <= i < trim_start(s, p).len() implies exists|k: int|
            0 <= k < s.len() && #[trigger] trim_start(s, p)[i] == s[k] by {
            let t = s.drop_first();
            let k0 = choose|k: int| 0 <= k < t.len() && trim_start(t, p)[i] == t[k];
            assert(t[k0] == s[k0 + 1]);
        }
    }
}

pub proof fn lemma_trim_end_chars(s: Seq<char>, p: spec_fn(char) -> bool)
    ensures
        forall|i: int|
            0 <= i < trim_end(s, p).len() ==> exists|k: int|
                0 <= k < s.len() && #[trigger] trim_end(s, p)[i] == s[k],
    decreases s.len(),
{
    if s.len() > 0 && p(s.last()) {
        lemma_trim_end_chars(s.drop_last(), p);
        assert forall|i: int| 0 <= i < trim_end(s, p).len() implies exists|k: int|
            0 <= k < s.len() && #[trigger] trim_end(s, p)[i] == s[k] by {
            let t = s.drop_last();
            let k0 = choose|k: int| 0 <= k < t.len() && trim_end(t, p)[i] == t[k];
            assert(t[k0] == s[k0]);
        }
    }
}

/// The characters of a string, in order.
pub fn str_to_chars(s: &str) -> (v: Vec<char>)
    ensures
        v@ == s@,
{
    let n = s.unicode_len();
    let mut v: Vec<char> = Vec::new();
    let mut i: usize = 0;
    while i < n
        invariant
            n == s@.len(),
            i <= n,
            v@ == s@.take(i as int),
        decreases n - i,
    {
        let c = s.get_char(i);
        v.push(c);
        i = i + 1;
        assert(v@ =~= s@.take(i as int));
    }
    assert(s@.take(n as int) =~= s@);
    v
}

/// Relies on `String`'s `FromIterator<char>`: collecting characters yields
/// the string of exactly those characters, in order.
#[verifier::external_body]
pub(crate) fn chars_to_string(v: &Vec<char>) -> (r: String)
    ensures
        r@ == v@,
{
    v.iter().collect()
}

/// Lowercase folding of a character vector.
pub fn lower_vec(v: &Vec<char>) -> (r: Vec<char>)
    ensures
        r@ == lower_seq(v@),
{
    let mut out: Vec<char> = Vec::new();
    let mut i: usize = 0;
    while i < v.len()
        invariant
            i <= v@.len(),
            out@ == lower_seq(v@.take(i as int)),
        decreases v@.len() - i,
    {
        out.push(to_lower_char(v[i]));
        i = i + 1;
        assert(out@ =~= lower_seq(v@.take(i as int)));
    }
    assert(v@.take(v@.len() as int) =~= v@);
    out
}

/// Lowercase folding of a string.
pub fn lower_string(s: &str) -> (r: String)
    ensures
        r@ == lower_seq(s@),
{
    let v = str_to_chars(s);
    let out = lower_vec(&v);
    chars_to_string(&out)
}

/// Both ends of the vector trimmed of characters satisfying the whitespace
/// predicate.
pub fn trim_ws_vec(v: &Vec<char>) -> (r: Vec<char>)
    ensures
        r@ == trim_both(v@, ws_pred()),
{
    let n = v.len();
    let mut a: usize = 0;
    while a < n && is_ws(v[a])
        invariant
            n == v@.len(),
            a <= n,
            forall|k: int| 0 <= k < a ==> ws_pred()(v@[k]),
        decreases n - a,
    {
        a = a + 1;
    }
    let mut b: usize = n;
    while b > a && is_ws(v[b - 1])
        invariant
            n == v@.len(),
            a <= b <= n,
            forall|k: int| b <= k < n ==> ws_pred()(v@[k]),
        decreases b,
    {
        b = b - 1;
    }
    proof {
        lemma_trim_start_skip(v@, ws_pred(), a as int);
        lemma_trim_end_take(v@.skip(a as int), ws_pred(), b - a);
        assert(v@.skip(a as int).take(b - a) =~= v@.subrange(a as int, b as int));
    }
    copy_range(v, a, b)
}

/// Both ends of the vector trimmed of dots.
pub fn trim_dots_vec(v: &Vec<char>) -> (r: Vec<char>)
    ensures
        r@ == trim_both(v@, dot_pred()),
{
    let n = v.len();
    let mut a: usize = 0;
    while a < n && v[a] == '.'
        invariant
            n == v@.len(),
            a <= n,
            forall|k: int| 0 <= k < a ==> dot_pred()(v@[k]),
        decreases n - a,
    {
        a = a + 1;
    }
    let mut b: usize = n;
    while b > a && v[b - 1] == '.'
        invariant
            n == v@.len(),
            a <= b <= n,
            forall|k: int| b <= k < n ==> dot_pred()(v@[k]),
        decreases b,
    {
        b = b - 1;
    }
    proof {
        lemma_trim_start_skip(v@, dot_pred(), a as int);
        lemma_trim_end_take(v@.skip(a as int), dot_pred(), b - a);
        assert(v@.skip(a as int).take(b - a) =~= v@.subrange(a as int, b as int));
    }
    copy_range(v, a, b)
}

/// The characters of `v` from index `a` (inclusive) to `b` (exclusive).
pub fn copy_range(v: &Vec<char>, a: usize, b: usize) -> (r: Vec<char>)
    requires
        a <= b <= v@.len(),
    ensures
        r@ == v@.subrange(a as int, b as int),
{
    let mut out: Vec<char> = Vec::new();
    let mut i: usize = a;
    while i < b
        invariant
            a <= i <= b <= v@.len(),
            out@ == v@.subrange(a as int, i as int),
        decreases b - i,
    {
        out.push(v[i]);
        i = i + 1;
        assert(out@ =~= v@.subrange(a as int, i as int));
    }
    out
}

} // verus!
