//! Filename sanitizing: forbidden characters become underscores, surrounding
//! whitespace and dots are trimmed, and the result is cut at a fixed byte
//! budget.

use vstd::prelude::*;

verus! {

use crate::chars::char_bytes;
use crate::chars::char_len;
use crate::chars::chars_to_string;
use crate::chars::dot_pred;
use crate::chars::is_ws_char;
use crate::chars::lemma_str_bytes_concat;
use crate::chars::lemma_str_bytes_is_encoding_len;
use crate::chars::lemma_trim_end_chars;
use crate::chars::lemma_trim_start_chars;
use crate::chars::str_bytes;
use crate::chars::str_to_chars;
use crate::chars::trim_both;
use crate::chars::trim_dots_vec;
use crate::chars::trim_end;
use crate::chars::trim_start;
use crate::chars::trim_ws_vec;
use crate::chars::ws_pred;

/// The byte budget for a sanitized filename.
pub const NAME_BYTE_CAP: usize = 255;

/// The Windows-reserved filename characters and the ASCII control characters.
pub open spec fn is_forbidden_char(c: char) -> bool {
    ||| c == '<'
    ||| c == '>'
    ||| c == ':'
    ||| c == '"'
    ||| c == '/'
    ||| c == '\\'
    ||| c == '|'
    ||| c == '?'
    ||| c == '*'
    ||| (c as u32) < 0x20
}

pub fn is_forbidden(c: char) -> (r: bool)
    ensures
        r == is_forbidden_char(c),
{
    c == '<' || c == '>' || c == ':' || c == '"' || c == '/' || c == '\\' || c == '|' || c == '?'
        || c == '*' || (c as u32) < 0x20
}

/// No character of the sequence is forbidden.
pub open spec fn no_forbidden(s: Seq<char>) -> bool {
    forall|i: int| 0 <= i < s.len() ==> !is_forbidden_char(s[i])
}

/// Every forbidden character replaced by one underscore, one for one.
pub open spec fn replace_forbidden(s: Seq<char>) -> Seq<char> {
    s.map_values(|c: char| if is_forbidden_char(c) { '_' } else { c })
}

/// The number of leading characters whose total UTF-8 byte count still fits
/// in `cap`.
pub open spec fn prefix_len(s: Seq<char>, cap: int) -> int
    decreases s.len(),
{
    if s.len() == 0 || char_bytes(s[0]) > cap {
        0
    } else {
        1 + prefix_len(s.drop_first(), cap - char_bytes(s[0]))
    }
}

/// The sequence cut to the byte budget: kept whole when it fits, otherwise
/// the longest prefix whose encoding fits.
pub open spec fn spec_truncate(s: Seq<char>) -> Seq<char> {
    if str_bytes(s) <= NAME_BYTE_CAP {
        s
    } else {
        s.take(prefix_len(s, NAME_BYTE_CAP as int))
    }
}

/// The replacement-and-trim stage: forbidden characters replaced, then
/// surrounding whitespace trimmed, then surrounding dots trimmed.
pub open spec fn trimmed_name(s: Seq<char>) -> Seq<char> {
    trim_both(trim_both(replace_forbidden(s), ws_pred()), dot_pred())
}

/// The sanitized filename of an arbitrary string.
pub open spec fn spec_sanitize(s: Seq<char>) -> Seq<char> {
    spec_truncate(trimmed_name(s))
}

/// A byte-exact cut exists: either the trimmed name already fits the budget,
/// or its longest fitting prefix ends exactly on the budget. Inputs without
/// such a cut would be rejected by a byte-wise truncation at a character that
/// straddles the budget boundary, so they are left out.
pub open spec fn cut_on_boundary(s: Seq<char>) -> bool {
    str_bytes(s) <= NAME_BYTE_CAP || str_bytes(s.take(prefix_len(s, NAME_BYTE_CAP as int)))
        == NAME_BYTE_CAP
}

pub open spec fn sanitize_fits(s: Seq<char>) -> bool {
    cut_on_boundary(trimmed_name(s))
}

proof fn lemma_str_bytes_singleton(c: char)
    ensures
        str_bytes(seq![c]) == char_bytes(c),
{
    let s = seq![c];
    assert(s.len() == 1);
    assert(s[0] == c);
    let e = s.drop_first();
    assert(e =~= Seq::<char>::empty());
    assert(str_bytes(e) == 0);
    assert(str_bytes(s) == char_bytes(c) + str_bytes(e));
}

/// The longest fitting prefix indeed fits the byte budget.
pub proof fn lemma_prefix_len_props(s: Seq<char>, cap: int)
    requires
        cap >= 0,
    ensures
        0 <= prefix_len(s, cap) <= s.len(),
        str_bytes(s.take(prefix_len(s, cap))) <= cap,
    decreases s.len(),
{
    if s.len() == 0 || char_bytes(s[0]) > cap {
        assert(s.take(0) =~= Seq::<char>::empty());
    } else {
        let t = s.drop_first();
        let c0 = char_bytes(s[0]);
        lemma_prefix_len_props(t, cap - c0);
        let p = prefix_len(t, cap - c0);
        assert(s.take(1 + p) =~= seq![s[0]] + t.take(p));
        lemma_str_bytes_singleton(s[0]);
        lemma_str_bytes_concat(seq![s[0]], t.take(p));
    }
}

/// The sanitized name holds no forbidden character.
pub proof fn lemma_sanitize_no_forbidden(s: Seq<char>)
    ensures
        no_forbidden(spec_sanitize(s)),
{
    let r = replace_forbidden(s);
    assert(no_forbidden(r));
    let t1 = trim_start(r, ws_pred());
    lemma_trim_start_chars(r, ws_pred());
    assert(no_forbidden(t1));
    let t2 = trim_end(t1, ws_pred());
    lemma_trim_end_chars(t1, ws_pred());
    assert(no_forbidden(t2));
    let t3 = trim_start(t2, dot_pred());
    lemma_trim_start_chars(t2, dot_pred());
    assert(no_forbidden(t3));
    let t4 = trim_end(t3, dot_pred());
    lemma_trim_end_chars(t3, dot_pred());
    assert(no_forbidden(t4));
    if str_bytes(t4) > NAME_BYTE_CAP {
        lemma_prefix_len_props(t4, NAME_BYTE_CAP as int);
        assert(no_forbidden(t4.take(prefix_len(t4, NAME_BYTE_CAP as int))));
    }
}

/// The sanitized name fits the byte budget.
pub proof fn lemma_sanitize_bounded(s: Seq<char>)
    ensures
        str_bytes(spec_sanitize(s)) <= NAME_BYTE_CAP,
{
    let t = trimmed_name(s);
    if str_bytes(t) > NAME_BYTE_CAP {
        lemma_prefix_len_props(t, NAME_BYTE_CAP as int);
    }
}

/// A sanitized name that needed no byte-budget cut neither starts nor ends
/// with a dot: the dot trim runs last, and only a cut can expose a dot again
/// (as in a long name whose cut point lands right after an inner dot).
pub proof fn lemma_sanitize_no_outer_dots(s: Seq<char>)
    requires
        str_bytes(trimmed_name(s)) <= NAME_BYTE_CAP,
        spec_sanitize(s).len() > 0,
    ensures
        spec_sanitize(s).first() != '.',
        spec_sanitize(s).last() != '.',
{
    let w = trim_both(replace_forbidden(s), ws_pred());
    let x = trim_start(w, dot_pred());
    let t = trim_end(x, dot_pred());
    assert(spec_sanitize(s) == t);
    crate::chars::lemma_trim_end_last(x, dot_pred());
    crate::chars::lemma_trim_end_prefix(x, dot_pred());
    crate::chars::lemma_trim_start_head(w, dot_pred());
    assert(t[0] == x[0]);
}

/// A sanitized name whose ends carry neither whitespace nor dots sanitizes to
/// itself. Trimming dots, or cutting at the byte budget, can expose
/// whitespace or a dot at an end (as in a name that starts with dots followed
/// by spaces); on such inputs a second pass trims further, so they are left
/// out.
pub proof fn lemma_sanitize_idempotent(s: Seq<char>)
    requires
        spec_sanitize(s).len() == 0 || (!is_ws_char(spec_sanitize(s).first()) && !is_ws_char(
            spec_sanitize(s).last(),
        ) && spec_sanitize(s).first() != '.' && spec_sanitize(s).last() != '.'),
    ensures
        sanitize_fits(spec_sanitize(s)),
        spec_sanitize(spec_sanitize(s)) == spec_sanitize(s),
{
    let y = spec_sanitize(s);
    lemma_sanitize_no_forbidden(s);
    lemma_sanitize_bounded(s);
    assert(replace_forbidden(y) =~= y);
    assert(trim_start(y, ws_pred()) == y);
    assert(trim_end(y, ws_pred()) == y);
    assert(trim_both(y, ws_pred()) == y);
    assert(trim_start(y, dot_pred()) == y);
    assert(trim_end(y, dot_pred()) == y);
    assert(trimmed_name(y) == y);
    assert(spec_truncate(y) == y);
}

/// The cross-platform-safe form of `name`: forbidden characters replaced by
/// underscores, surrounding whitespace and dots trimmed, and the result cut
/// at the byte budget. The precondition admits exactly the inputs on which
/// the byte-wise cut lands on a character boundary.
pub fn sanitize_filename(name: &str) -> (r: String)
    requires
        sanitize_fits(name@),
    ensures
        r@ == spec_sanitize(name@),
{
    let v = str_to_chars(name);
    let mut rep: Vec<char> = Vec::new();
    let mut i: usize = 0;
    while i < v.len()
        invariant
            v@ == name@,
            i <= v@.len(),
            rep@ == replace_forbidden(name@.take(i as int)),
        decreases v@.len() - i,
    {
        if is_forbidden(v[i]) {
            rep.push('_');
        } else {
            rep.push(v[i]);
        }
        i = i + 1;
        assert(rep@ =~= replace_forbidden(name@.take(i as int)));
    }
    assert(name@.take(name@.len() as int) =~= name@);
    let t1 = trim_ws_vec(&rep);
    let t2 = trim_dots_vec(&t1);
    let ghost t = trimmed_name(name@);
    assert(t2@ == t);

    let mut out: Vec<char> = Vec::new();
    let mut used: usize = 0;
    let mut j: usize = 0;
    let mut cut = false;
    proof {
        assert(t.take(0) =~= Seq::<char>::empty());
        assert(t.skip(0) =~= t);
    }
    while j < t2.len() && !cut
        invariant
            t2@ == t,
            j <= t2@.len(),
            out@ == t.take(j as int),
            used == str_bytes(t.take(j as int)),
            used <= NAME_BYTE_CAP,
            prefix_len(t, NAME_BYTE_CAP as int) == j + prefix_len(
                t.skip(j as int),
                NAME_BYTE_CAP - used,
            ),
            cut ==> j < t2@.len() && char_bytes(t[j as int]) > NAME_BYTE_CAP - used,
        decreases t2@.len() - j + (if cut {
            0int
        } else {
            1int
        }),
    {
        let n = char_len(t2[j]);
        if used + n > NAME_BYTE_CAP {
            cut = true;
        } else {
            out.push(t2[j]);
            proof {
                assert(t.take(j + 1) =~= t.take(j as int) + seq![t[j as int]]);
                lemma_str_bytes_singleton(t[j as int]);
                lemma_str_bytes_concat(t.take(j as int), seq![t[j as int]]);
                assert(t.skip(j as int).drop_first() =~= t.skip(j + 1));
            }
            used = used + n;
            j = j + 1;
            assert(out@ =~= t.take(j as int));
        }
    }
    if cut {
        proof {
            // the remainder holds at least one more character, so the whole
            // name is over the budget and the cut applies
            let rest = t.skip(j as int);
            assert(rest.len() > 0);
            assert(rest[0] == t[j as int]);
            assert(prefix_len(rest, NAME_BYTE_CAP - used) == 0);
            assert(t =~= t.take(j as int) + rest);
            lemma_str_bytes_concat(t.take(j as int), rest);
            assert(rest.drop_first() =~= t.skip(j + 1));
            lemma_str_bytes_is_encoding_len(t.skip(j + 1));
            assert(str_bytes(rest) == char_bytes(t[j as int]) + str_bytes(t.skip(j + 1)));
            assert(str_bytes(t) > NAME_BYTE_CAP);
        }
        chars_to_string(&out)
    } else {
        proof {
            assert(t.take(t.len() as int) =~= t);
            assert(t.skip(t.len() as int) =~= Seq::<char>::empty());
            assert(str_bytes(t) == used);
        }
        chars_to_string(&out)
    }
}

} // verus!
