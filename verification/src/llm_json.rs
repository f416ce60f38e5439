//! Reading JSON out of model replies: the text cleaned of smart quotes,
//! byte-order marks and code fences, trailing commas dropped, balanced
//! `{…}` / `[…]` found outside strings, and the objects in a reply parsed.
use vstd::prelude::*;
use crate::json::{json_parse, parse_json, Json};
use crate::text::{
    append, append_str, chars_of, has_sub, is_ws, is_ws_exec, lines, lines_of, slice,
    starts_with, string_of, trim, trimmed, trim_str, vviews,
};

verus! {

/// Smart quotes become ASCII quotes (some models emit them; JSON does not
/// accept them).
pub open spec fn fix_quote(c: char) -> char {
    if c == '\u{201c}' || c == '\u{201d}' || c == '\u{201e}' || c == '\u{ab}' || c == '\u{bb}' {
        '"'
    } else if c == '\u{2018}' || c == '\u{2019}' || c == '\u{201a}' {
        '\''
    } else {
        c
    }
}

/// Leading byte-order marks removed.
pub open spec fn skip_bom(s: Seq<char>) -> Seq<char>
    decreases s.len(),
{
    if s.len() > 0 && s[0] == '\u{feff}' { skip_bom(s.drop_first()) } else { s }
}

/// The lines that do not open a code fence, each followed by `\n`.
pub open spec fn unfenced(ls: Seq<Seq<char>>) -> Seq<char>
    decreases ls.len(),
{
    if ls.len() == 0 {
        Seq::empty()
    } else {
        unfenced(ls.drop_last()) + (if starts_with(trim(ls.last()), "```"@) { Seq::empty() } else { ls.last() + "\n"@ })
    }
}

/// A reply made ready for the JSON parser: trimmed, byte-order marks and
/// smart quotes removed; with a code fence somewhere in it, its fence
/// lines dropped.
pub open spec fn normalize_spec(text: Seq<char>) -> Seq<char> {
    let t = skip_bom(trim(text)).map_values(|c: char| fix_quote(c));
    if !has_sub(t, "```"@) { t } else { unfenced(lines(t)) }
}

fn fix_quote_exec(c: char) -> (r: char)
    ensures
        r == fix_quote(c),
{
    if c == '\u{201c}' || c == '\u{201d}' || c == '\u{201e}' || c == '\u{ab}' || c == '\u{bb}' {
        '"'
    } else if c == '\u{2018}' || c == '\u{2019}' || c == '\u{201a}' {
        '\''
    } else {
        c
    }
}

/// See `normalize_spec`.
pub fn normalize_llm_json_text(text: &str) -> (r: Vec<char>)
    ensures
        r@ == normalize_spec(text@),
{
    let t = trim_str(text);
    let mut b: usize = 0;
    assert(t@.subrange(0, t.len() as int) =~= t@);
    while b < t.len() && t[b] == '\u{feff}'
        invariant
            b <= t.len(),
            skip_bom(t@) == skip_bom(t@.subrange(b as int, t.len() as int)),
        decreases t.len() - b,
    {
        assert(t@.subrange(b as int, t.len() as int).drop_first() =~= t@.subrange(b + 1, t.len() as int));
        b += 1;
    }
    proof {
        if b == 0 {
            assert(t@.subrange(0, t.len() as int) =~= t@);
        }
    }
    let ghost sb = t@.subrange(b as int, t.len() as int);
    assert(skip_bom(t@) == sb);
    let mut q: Vec<char> = Vec::new();
    let mut i: usize = b;
    while i < t.len()
        invariant
            b <= i <= t.len(),
            sb == t@.subrange(b as int, t.len() as int),
            q@ == sb.subrange(0, i - b).map_values(|c: char| fix_quote(c)),
        decreases t.len() - i,
    {
        q.push(fix_quote_exec(t[i]));
        i += 1;
        assert(q@ =~= sb.subrange(0, i - b).map_values(|c: char| fix_quote(c)));
    }
    assert(sb.subrange(0, t.len() - b) =~= sb);
    if !crate::text::contains_str(&q, "```") {
        return q;
    }
    let ls = lines_of(&q);
    let ghost lv = lines(q@);
    let mut out: Vec<char> = Vec::new();
    let mut k: usize = 0;
    while k < ls.len()
        invariant
            k <= ls.len(),
            ls@.len() == lv.len(),
            forall|j: int| 0 <= j < ls@.len() ==> (#[trigger] ls@[j])@ == lv[j],
            out@ == unfenced(lv.subrange(0, k as int)),
        decreases ls.len() - k,
    {
        assert(lv.subrange(0, k + 1).drop_last() =~= lv.subrange(0, k as int));
        let lt = trimmed(&ls[k]);
        if !crate::text::starts_with_str(&lt, "```") {
            append(&mut out, &ls[k]);
            append_str(&mut out, "\n");
        }
        k += 1;
    }
    assert(lv.subrange(0, ls.len() as int) =~= lv);
    out
}

/// Whether the next non-whitespace character from `j` on closes an object
/// or array.
pub open spec fn closes_next(s: Seq<char>, j: int) -> bool
    decreases s.len() - j,
{
    if j < 0 || j >= s.len() {
        false
    } else if is_ws(s[j]) {
        closes_next(s, j + 1)
    } else {
        s[j] == '}' || s[j] == ']'
    }
}

/// The text from `i` on, inside a string or not (and after a backslash or
/// not), with each comma outside strings that only whitespace separates
/// from a closing `}` or `]` dropped.
pub open spec fn drop_commas(s: Seq<char>, i: int, in_str: bool, esc: bool) -> Seq<char>
    decreases s.len() - i,
{
    if i < 0 || i >= s.len() {
        Seq::empty()
    } else {
        let c = s[i];
        if in_str {
            seq![c] + (if esc {
                drop_commas(s, i + 1, true, false)
            } else if c == '\\' {
                drop_commas(s, i + 1, true, true)
            } else if c == '"' {
                drop_commas(s, i + 1, false, false)
            } else {
                drop_commas(s, i + 1, true, false)
            })
        } else if c == '"' {
            seq![c] + drop_commas(s, i + 1, true, false)
        } else if c == ',' && closes_next(s, i + 1) {
            drop_commas(s, i + 1, false, false)
        } else {
            seq![c] + drop_commas(s, i + 1, false, false)
        }
    }
}

/// Lenient JSON: trailing commas before `}` / `]` removed.
pub open spec fn strip_commas_spec(s: Seq<char>) -> Seq<char> {
    drop_commas(s, 0, false, false)
}

fn closes_next_exec(s: &Vec<char>, j: usize) -> (r: bool)
    ensures
        r == closes_next(s@, j as int),
{
    let mut k = j;
    while k < s.len() && is_ws_exec(s[k])
        invariant
            j <= k,
            closes_next(s@, j as int) == closes_next(s@, k as int),
        decreases s.len() - k,
    {
        k += 1;
    }
    k < s.len() && (s[k] == '}' || s[k] == ']')
}

/// See `strip_commas_spec`.
pub fn strip_trailing_commas(s: &Vec<char>) -> (r: Vec<char>)
    ensures
        r@ == strip_commas_spec(s@),
{
    let mut out: Vec<char> = Vec::new();
    let mut i: usize = 0;
    let mut in_str = false;
    let mut esc = false;
    assert(out@ + drop_commas(s@, 0, false, false) =~= strip_commas_spec(s@));
    while i < s.len()
        invariant
            i <= s.len(),
            out@ + drop_commas(s@, i as int, in_str, esc) == strip_commas_spec(s@),
            !in_str ==> !esc,
        decreases s.len() - i,
    {
        let c = s[i];
        let ghost before = out@;
        let ghost i0 = i as int;
        let ghost in0 = in_str;
        let ghost e0 = esc;
        if in_str {
            out.push(c);
            if esc {
                esc = false;
            } else if c == '\\' {
                esc = true;
            } else if c == '"' {
                in_str = false;
            }
            i += 1;
            assert(drop_commas(s@, i0, in0, e0) == seq![c] + drop_commas(s@, i as int, in_str, esc));
        } else if c == '"' {
            in_str = true;
            out.push(c);
            i += 1;
            assert(drop_commas(s@, i0, in0, e0) == seq![c] + drop_commas(s@, i as int, in_str, esc));
        } else if c == ',' && closes_next_exec(s, i + 1) {
            i += 1;
            assert(drop_commas(s@, i0, in0, e0) == drop_commas(s@, i as int, in_str, esc));
        } else {
            out.push(c);
            i += 1;
            esc = false;
            assert(drop_commas(s@, i0, in0, e0) == seq![c] + drop_commas(s@, i as int, in_str, esc));
        }
        assert(out@ + drop_commas(s@, i as int, in_str, esc) =~= before + drop_commas(s@, i0, in0, e0));
    }
    out
}

/// Scanning from `j` at nesting `depth` (inside a string or not, after a
/// backslash or not): where the `close` that brings the nesting of
/// `open`/`close` outside strings back to zero stands.
pub open spec fn match_scan(s: Seq<char>, j: int, open: char, close: char, depth: int, in_str: bool, esc: bool) -> Option<int>
    decreases s.len() - j,
{
    if j < 0 || j >= s.len() {
        None
    } else {
        let c = s[j];
        if in_str {
            if esc {
                match_scan(s, j + 1, open, close, depth, true, false)
            } else if c == '\\' {
                match_scan(s, j + 1, open, close, depth, true, true)
            } else if c == '"' {
                match_scan(s, j + 1, open, close, depth, false, false)
            } else {
                match_scan(s, j + 1, open, close, depth, true, false)
            }
        } else if c == '"' {
            match_scan(s, j + 1, open, close, depth, true, false)
        } else if c == open {
            match_scan(s, j + 1, open, close, depth + 1, false, false)
        } else if c == close {
            if depth - 1 == 0 { Some(j) } else { match_scan(s, j + 1, open, close, depth - 1, false, false) }
        } else {
            match_scan(s, j + 1, open, close, depth, false, false)
        }
    }
}

/// Index of the `close` that matches nesting from `start` on (strings
/// skipped), if the text has one.
pub open spec fn matching_spec(s: Seq<char>, start: int, open: char, close: char) -> Option<int> {
    match_scan(s, start, open, close, 0, false, false)
}

pub proof fn lemma_match_scan_bound(s: Seq<char>, j: int, open: char, close: char, depth: int, in_str: bool, esc: bool)
    ensures
        match_scan(s, j, open, close, depth, in_str, esc) matches Some(e) ==> j <= e < s.len(),
    decreases s.len() - j,
{
    if 0 <= j < s.len() {
        let c = s[j];
        if in_str {
            if esc {
                lemma_match_scan_bound(s, j + 1, open, close, depth, true, false);
            } else if c == '\\' {
                lemma_match_scan_bound(s, j + 1, open, close, depth, true, true);
            } else if c == '"' {
                lemma_match_scan_bound(s, j + 1, open, close, depth, false, false);
            } else {
                lemma_match_scan_bound(s, j + 1, open, close, depth, true, false);
            }
        } else if c == '"' {
            lemma_match_scan_bound(s, j + 1, open, close, depth, true, false);
        } else if c == open {
            lemma_match_scan_bound(s, j + 1, open, close, depth + 1, false, false);
        } else if c == close {
            lemma_match_scan_bound(s, j + 1, open, close, depth - 1, false, false);
        } else {
            lemma_match_scan_bound(s, j + 1, open, close, depth, false, false);
        }
    }
}

/// See `matching_spec`.
pub fn find_matching_pair(chars: &Vec<char>, start: usize, open: char, close: char) -> (r: Option<usize>)
    ensures
        match r {
            Some(e) => matching_spec(chars@, start as int, open, close) == Some(e as int),
            None => matching_spec(chars@, start as int, open, close) is None,
        },
{
    let mut depth: i128 = 0;
    let mut in_str = false;
    let mut esc = false;
    let mut j = start;
    while j < chars.len()
        invariant
            start <= j,
            -(j - start) <= depth <= j - start,
            !in_str ==> !esc,
            matching_spec(chars@, start as int, open, close) == match_scan(chars@, j as int, open, close, depth as int, in_str, esc),
        decreases chars.len() - j,
    {
        let c = chars[j];
        if in_str {
            if esc {
                esc = false;
            } else if c == '\\' {
                esc = true;
            } else if c == '"' {
                in_str = false;
            }
        } else if c == '"' {
            in_str = true;
        } else if c == open {
            depth = depth + 1;
        } else if c == close {
            depth = depth - 1;
            if depth == 0 {
                return Some(j);
            }
        }
        j += 1;
    }
    None
}

/// A JSON object read from `s` (trimmed, byte-order marks skipped): as it
/// is, else with its trailing commas dropped.
pub open spec fn try_object_spec(s: Seq<char>) -> Option<Json> {
    let t = skip_bom(trim(s));
    if t.len() == 0 {
        None
    } else if json_parse(t) matches Some(Json::Obj(_)) {
        json_parse(t)
    } else {
        let soft = strip_commas_spec(t);
        if soft != t && json_parse(soft) matches Some(Json::Obj(_)) { json_parse(soft) } else { None }
    }
}

/// See `try_object_spec`.
pub fn try_parse_json_object(s: &str) -> (r: Option<Json>)
    ensures
        r == try_object_spec(s@),
{
    let t0 = trim_str(s);
    let mut b: usize = 0;
    assert(t0@.subrange(0, t0.len() as int) =~= t0@);
    while b < t0.len() && t0[b] == '\u{feff}'
        invariant
            b <= t0.len(),
            skip_bom(t0@) == skip_bom(t0@.subrange(b as int, t0.len() as int)),
        decreases t0.len() - b,
    {
        assert(t0@.subrange(b as int, t0.len() as int).drop_first() =~= t0@.subrange(b + 1, t0.len() as int));
        b += 1;
    }
    let t = slice(&t0, b, t0.len());
    if t.len() == 0 {
        return None;
    }
    let ts = string_of(&t);
    match parse_json(ts.as_str()) {
        Some(Json::Obj(m)) => {
            return Some(Json::Obj(m));
        },
        _ => {},
    }
    let soft = strip_trailing_commas(&t);
    if !crate::text::eq(&soft, &t) {
        let ss = string_of(&soft);
        match parse_json(ss.as_str()) {
            Some(Json::Obj(m)) => {
                return Some(Json::Obj(m));
            },
            _ => {},
        }
    }
    None
}

/// The objects found scanning `s` from `i`: each balanced `{…}` that parses
/// as an object, the scan going on after it; an unbalanced `{` is skipped.
pub open spec fn scan_objects(s: Seq<char>, i: int) -> Seq<Json>
    decreases s.len() - i,
{
    if i < 0 || i >= s.len() {
        Seq::empty()
    } else if s[i] != '{' {
        scan_objects(s, i + 1)
    } else {
        match matching_spec(s, i, '{', '}') {
            Some(end) => if i <= end && end < s.len() {
                (match try_object_spec(s.subrange(i, end + 1)) { Some(v) => seq![v], None => Seq::empty() })
                    + scan_objects(s, end + 1)
            } else {
                scan_objects(s, i + 1)
            },
            None => scan_objects(s, i + 1),
        }
    }
}

/// The JSON objects in a model reply: the whole (normalized) reply when it
/// is one, else every balanced `{…}` in it that is one, in order.
pub open spec fn objects_spec(text: Seq<char>) -> Seq<Json> {
    let s = normalize_spec(text);
    match try_object_spec(s) {
        Some(v) => seq![v],
        None => scan_objects(s, 0),
    }
}

/// See `objects_spec`.
pub fn extract_json_objects(text: &str) -> (r: Vec<Json>)
    ensures
        r@ == objects_spec(text@),
{
    let s = normalize_llm_json_text(text);
    let ss = string_of(&s);
    let mut out: Vec<Json> = Vec::new();
    match try_parse_json_object(ss.as_str()) {
        Some(v) => {
            out.push(v);
            return out;
        },
        None => {},
    }
    let mut i: usize = 0;
    while i < s.len()
        invariant
            i <= s.len(),
            out@ + scan_objects(s@, i as int) == scan_objects(s@, 0),
        decreases s.len() - i,
    {
        let ghost before = out@;
        let ghost i0 = i as int;
        if s[i] != '{' {
            i += 1;
        } else {
            match find_matching_pair(&s, i, '{', '}') {
                Some(end) => {
                    proof {
                        lemma_match_scan_bound(s@, i as int, '{', '}', 0, false, false);
                    }
                    let piece = string_of(&slice(&s, i, end + 1));
                    match try_parse_json_object(piece.as_str()) {
                        Some(v) => {
                            out.push(v);
                        },
                        None => {},
                    }
                    i = end + 1;
                },
                None => {
                    i += 1;
                },
            }
        }
        assert(out@ + scan_objects(s@, i as int) =~= before + scan_objects(s@, i0));
    }
    out
}

} // verus!
