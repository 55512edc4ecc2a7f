//! Header parsing: `Name: value` lines before the first empty line become an
//! alternating name/value sequence, with names lowercased and values trimmed.

use vstd::prelude::*;

verus! {

use crate::chars::chars_to_string;
use crate::chars::copy_range;
use crate::chars::is_ws;
use crate::chars::is_ws_char;
use crate::chars::lower_seq;
use crate::chars::lower_vec;
use crate::chars::str_to_chars;
use crate::chars::trim_both;
use crate::chars::trim_ws_vec;
use crate::chars::ws_pred;
use crate::lines::split_lines;
use crate::lines::split_lines_vec;

/// A character allowed in a header name: an ASCII letter, a digit, or a
/// hyphen.
pub open spec fn is_name_char(c: char) -> bool {
    ||| ('A' <= c && c <= 'Z')
    ||| ('a' <= c && c <= 'z')
    ||| ('0' <= c && c <= '9')
    ||| c == '-'
}

pub fn is_name_char_exec(c: char) -> (r: bool)
    ensures
        r == is_name_char(c),
{
    ('A' <= c && c <= 'Z') || ('a' <= c && c <= 'z') || ('0' <= c && c <= '9') || c == '-'
}

/// The length of the longest run of name characters at the start of `l`.
pub open spec fn name_run(l: Seq<char>) -> int
    decreases l.len(),
{
    if l.len() == 0 {
        0
    } else if !is_name_char(l[0]) {
        0
    } else {
        1 + name_run(l.drop_first())
    }
}

pub proof fn lemma_name_run_at(l: Seq<char>, i: int)
    requires
        0 <= i <= l.len(),
        forall|k: int| 0 <= k < i ==> is_name_char(l[k]),
        i == l.len() || !is_name_char(l[i]),
    ensures
        name_run(l) == i,
    decreases i,
{
    if i == 0 {
    } else {
        let t = l.drop_first();
        assert(forall|k: int| 0 <= k < i - 1 ==> is_name_char(t[k]));
        lemma_name_run_at(t, i - 1);
    }
}

/// A line captured as a header: a nonempty run of name characters, a colon
/// directly after it, and at least one further character. The name is
/// lowercased; the value is everything after the colon, trimmed of
/// surrounding whitespace. Any other line yields nothing.
pub open spec fn parse_header_line(l: Seq<char>) -> Option<(Seq<char>, Seq<char>)> {
    let k = name_run(l);
    if 0 < k && k + 1 < l.len() && l[k] == ':' {
        Some((lower_seq(l.take(k)), trim_both(l.skip(k + 1), ws_pred())))
    } else {
        None
    }
}

/// The alternating name/value sequence of the given lines: processing stops
/// at the first empty line, a line starting with whitespace (a continuation)
/// is dropped, a header line contributes its name and value, and any other
/// line is skipped.
pub open spec fn headers_of(ls: Seq<Seq<char>>) -> Seq<Seq<char>>
    decreases ls.len(),
{
    if ls.len() == 0 {
        Seq::empty()
    } else if ls[0].len() == 0 {
        Seq::empty()
    } else if is_ws_char(ls[0][0]) {
        headers_of(ls.drop_first())
    } else {
        match parse_header_line(ls[0]) {
            Some(nv) => seq![nv.0, nv.1] + headers_of(ls.drop_first()),
            None => headers_of(ls.drop_first()),
        }
    }
}

/// The alternating name/value sequence of a text's header block.
pub open spec fn spec_parse_headers(s: Seq<char>) -> Seq<Seq<char>> {
    headers_of(split_lines(s))
}

/// The headers of `text` as a flat alternating sequence
/// `[name1, value1, name2, value2, ...]`, names lowercased and values trimmed
/// of surrounding whitespace. Lines after the first empty line are not read;
/// continuation lines (starting with whitespace) are dropped; lines not of
/// the `Name: value` shape are skipped.
pub fn parse_headers(text: &str) -> (r: Vec<String>)
    ensures
        r.deep_view() == spec_parse_headers(text@),
{
    let cs = str_to_chars(text);
    let lines = split_lines_vec(&cs);
    let ghost lv = split_lines(text@);
    let mut out: Vec<String> = Vec::new();
    let mut i: usize = 0;
    proof {
        assert(lv.skip(0) =~= lv);
        assert(out.deep_view() =~= Seq::<Seq<char>>::empty());
    }
    while i < lines.len()
        invariant
            lv == split_lines(text@),
            lines.deep_view() == lv,
            i <= lv.len(),
            out.deep_view() + headers_of(lv.skip(i as int)) == headers_of(lv),
        decreases lv.len() - i,
    {
        let l = &lines[i];
        proof {
            assert(l@ =~= l.deep_view());
            assert(l@ == lv[i as int]);
            assert(lv.skip(i as int)[0] == lv[i as int]);
            assert(lv.skip(i as int).drop_first() =~= lv.skip(i + 1));
        }
        if l.len() == 0 {
            assert(headers_of(lv.skip(i as int)) =~= Seq::<Seq<char>>::empty());
            assert(out.deep_view() =~= headers_of(lv));
            return out;
        }
        if is_ws(l[0]) {
            i = i + 1;
            continue ;
        }
        let mut k: usize = 0;
        while k < l.len() && is_name_char_exec(l[k])
            invariant
                i < lv.len(),
                l@ == lv[i as int],
                k <= l@.len(),
                forall|j: int| 0 <= j < k ==> is_name_char(l@[j]),
            decreases l@.len() - k,
        {
            k = k + 1;
        }
        proof {
            lemma_name_run_at(l@, k as int);
        }
        let ghost prev = out.deep_view();
        if k > 0 && k < l.len() && l.len() - k > 1 && l[k] == ':' {
            let name_v = copy_range(l, 0, k);
            let name = lower_vec(&name_v);
            let tail = copy_range(l, k + 1, l.len());
            let value = trim_ws_vec(&tail);
            proof {
                assert(name_v@ =~= l@.take(k as int));
                assert(tail@ =~= l@.skip(k + 1));
                assert(parse_header_line(l@) == Some(
                    (lower_seq(l@.take(k as int)), trim_both(l@.skip(k + 1), ws_pred())),
                ));
            }
            let name_s = chars_to_string(&name);
            let value_s = chars_to_string(&value);
            out.push(name_s);
            out.push(value_s);
            proof {
                assert(out.deep_view() =~= prev + seq![
                    lower_seq(l@.take(k as int)),
                    trim_both(l@.skip(k + 1), ws_pred()),
                ]);
                assert(out.deep_view() + headers_of(lv.skip(i + 1)) =~= headers_of(lv));
            }
        } else {
            assert(parse_header_line(l@) is None);
        }
        i = i + 1;
    }
    proof {
        assert(lv.skip(lv.len() as int) =~= Seq::<Seq<char>>::empty());
        assert(out.deep_view() =~= headers_of(lv));
    }
    out
}

} // verus!
