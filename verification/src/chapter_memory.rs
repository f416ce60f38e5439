//! Per-novel chapter memory: splitting extracted facts into storage chunks and
//! keyword retrieval over them.
use vstd::prelude::*;
use crate::chunk::{chunk_text, segment, segment_count_ok};
use crate::text::{
    append, append_str, is_blank, lines, lines_of, starts_with, starts_with_str, trim, trim_start,
    trimmed, trimmed_start, char_alphanumeric, chars_of, contains, contains_str, eq, has_sub, is_alphanumeric, is_cjk,
    lowercase, slice, str_lowercase, string_of, join, join_exec, vviews,
};
use crate::models::TreeNode;

verus! {

/// Views of a list of character vectors.
pub open spec fn cviews(v: Seq<Vec<char>>) -> Seq<Seq<char>> {
    v.map_values(|x: Vec<char>| x@)
}

/// Views of a list of strings.
pub open spec fn sviews(v: Seq<String>) -> Seq<Seq<char>> {
    v.map_values(|x: String| x@)
}

/// `t` added unless it is shorter than two characters or already present.
pub open spec fn push_term(terms: Seq<Seq<char>>, t: Seq<char>) -> Seq<Seq<char>> {
    if t.len() >= 2 && !terms.contains(t) {
        terms.push(t)
    } else {
        terms
    }
}

/// The first `m` two-character windows of `c` added in order.
pub open spec fn push_bigrams(terms: Seq<Seq<char>>, c: Seq<char>, m: int) -> Seq<Seq<char>>
    decreases m,
{
    if m <= 0 {
        terms
    } else {
        push_term(push_bigrams(terms, c, m - 1), c.subrange(m - 1, m + 1))
    }
}

/// A finished CJK run: the run itself, then (for runs longer than two) all
/// of its two-character windows.
pub open spec fn flush_cjk(terms: Seq<Seq<char>>, c: Seq<char>) -> Seq<Seq<char>> {
    let t1 = push_term(terms, c);
    if c.len() > 2 {
        push_bigrams(t1, c, c.len() - 1)
    } else {
        t1
    }
}

/// A finished run of other letters and digits, lowercased.
pub open spec fn flush_latin(terms: Seq<Seq<char>>, l: Seq<char>) -> Seq<Seq<char>> {
    push_term(terms, str_lowercase(l))
}

/// Terms so far, the pending latin run and the pending CJK run.
pub open spec fn qt_acc(s: Seq<char>) -> (Seq<Seq<char>>, Seq<char>, Seq<char>)
    decreases s.len(),
{
    if s.len() == 0 {
        (Seq::<Seq<char>>::empty(), Seq::<char>::empty(), Seq::<char>::empty())
    } else {
        let (t, l, c) = qt_acc(s.drop_last());
        let ch = s.last();
        if is_cjk(ch) {
            let t2 = if l.len() > 0 { flush_latin(t, l) } else { t };
            (t2, Seq::<char>::empty(), c.push(ch))
        } else if char_alphanumeric(ch) {
            let t2 = if c.len() > 0 { flush_cjk(t, c) } else { t };
            (t2, l.push(ch), Seq::<char>::empty())
        } else {
            let t2 = if l.len() > 0 { flush_latin(t, l) } else { t };
            let t3 = if c.len() > 0 { flush_cjk(t2, c) } else { t2 };
            (t3, Seq::<char>::empty(), Seq::<char>::empty())
        }
    }
}

/// Keyword terms of a query: CJK runs and their two-character windows,
/// lowercased runs of other letters and digits; each at least two characters,
/// without repeats, at most 48.
pub open spec fn query_terms_spec(s: Seq<char>) -> Seq<Seq<char>> {
    let (t, l, c) = qt_acc(s);
    let t2 = if l.len() > 0 { flush_latin(t, l) } else { t };
    let t3 = if c.len() > 0 { flush_cjk(t2, c) } else { t2 };
    if t3.len() > 48 { t3.subrange(0, 48) } else { t3 }
}

/// Adds a term unless it is too short or already present.
fn push_term_exec(terms: &mut Vec<Vec<char>>, t: Vec<char>)
    ensures
        cviews(final(terms)@) == push_term(cviews(old(terms)@), t@),
{
    if t.len() < 2 {
        return;
    }
    let mut k: usize = 0;
    while k < terms.len()
        invariant
            k <= terms@.len(),
            forall|j: int| 0 <= j < k ==> terms@[j]@ != t@,
        decreases terms.len() - k,
    {
        if eq(&terms[k], &t) {
            assert(cviews(terms@)[k as int] == t@);
            return;
        }
        k += 1;
    }
    assert(!cviews(terms@).contains(t@)) by {
        if cviews(terms@).contains(t@) {
            let j = choose|j: int| 0 <= j < cviews(terms@).len() && cviews(terms@)[j] == t@;
            assert(terms@[j]@ == t@);
        }
    }
    let ghost prev = terms@;
    terms.push(t);
    assert(cviews(terms@) =~= cviews(prev).push(t@));
}

fn flush_cjk_exec(terms: &mut Vec<Vec<char>>, c: &Vec<char>)
    ensures
        cviews(final(terms)@) == flush_cjk(cviews(old(terms)@), c@),
{
    push_term_exec(terms, c.clone());
    if c.len() > 2 {
        let ghost t1 = cviews(terms@);
        let mut m: usize = 0;
        assert(push_bigrams(t1, c@, 0) == t1);
        while m < c.len() - 1
            invariant
                c.len() > 2,
                m <= c.len() - 1,
                cviews(terms@) == push_bigrams(t1, c@, m as int),
            decreases c.len() - 1 - m,
        {
            let w = slice(c, m, m + 2);
            push_term_exec(terms, w);
            m += 1;
        }
    }
}

fn flush_latin_exec(terms: &mut Vec<Vec<char>>, l: &Vec<char>)
    ensures
        cviews(final(terms)@) == flush_latin(cviews(old(terms)@), l@),
{
    let low = lowercase(l);
    push_term_exec(terms, low);
}

/// Keyword terms of a query (see `query_terms_spec`).
pub fn query_terms_chars(s: &Vec<char>) -> (r: Vec<Vec<char>>)
    ensures
        cviews(r@) == query_terms_spec(s@),
{
    let mut terms: Vec<Vec<char>> = Vec::new();
    let mut latin: Vec<char> = Vec::new();
    let mut cjk: Vec<char> = Vec::new();
    let mut i: usize = 0;
    assert(cviews(terms@) =~= Seq::<Seq<char>>::empty());
    assert(s@.subrange(0, 0) =~= Seq::<char>::empty());
    while i < s.len()
        invariant
            i <= s.len(),
            (cviews(terms@), latin@, cjk@) == qt_acc(s@.subrange(0, i as int)),
        decreases s.len() - i,
    {
        assert(s@.subrange(0, i + 1).drop_last() =~= s@.subrange(0, i as int));
        let ch = s[i];
        if '\u{4e00}' <= ch && ch <= '\u{9fff}' {
            if latin.len() > 0 {
                flush_latin_exec(&mut terms, &latin);
                latin = Vec::new();
            }
            cjk.push(ch);
        } else if is_alphanumeric(ch) {
            if cjk.len() > 0 {
                flush_cjk_exec(&mut terms, &cjk);
                cjk = Vec::new();
            }
            latin.push(ch);
        } else {
            if latin.len() > 0 {
                flush_latin_exec(&mut terms, &latin);
                latin = Vec::new();
            }
            if cjk.len() > 0 {
                flush_cjk_exec(&mut terms, &cjk);
                cjk = Vec::new();
            }
        }
        i += 1;
    }
    assert(s@.subrange(0, s.len() as int) =~= s@);
    if latin.len() > 0 {
        flush_latin_exec(&mut terms, &latin);
    }
    if cjk.len() > 0 {
        flush_cjk_exec(&mut terms, &cjk);
    }
    if terms.len() > 48 {
        let ghost full = terms@;
        terms.truncate(48);
        assert(cviews(terms@) =~= cviews(full).subrange(0, 48));
    }
    terms
}

/// Keyword terms of a query (see `query_terms_spec`).
pub fn query_terms(text: &str) -> (r: Vec<String>)
    ensures
        sviews(r@) == query_terms_spec(text@),
{
    let t = query_terms_chars(&chars_of(text));
    let mut out: Vec<String> = Vec::new();
    let mut i: usize = 0;
    while i < t.len()
        invariant
            i <= t.len(),
            sviews(out@) == cviews(t@).subrange(0, i as int),
        decreases t.len() - i,
    {
        let st = string_of(&t[i]);
        assert(st@ == cviews(t@)[i as int]);
        let ghost prev = out@;
        out.push(st);
        assert(sviews(out@) =~= sviews(prev).push(st@));
        i += 1;
        assert(sviews(out@) =~= cviews(t@).subrange(0, i as int));
    }
    assert(cviews(t@).subrange(0, t.len() as int) =~= cviews(t@));
    out
}

/// Number of non-empty terms that occur in `hay`.
pub open spec fn count_hits(hay: Seq<char>, terms: Seq<Seq<char>>) -> nat
    decreases terms.len(),
{
    if terms.len() == 0 {
        0
    } else {
        count_hits(hay, terms.drop_last()) + if terms.last().len() > 0 && has_sub(hay, terms.last()) { 1nat } else { 0nat }
    }
}

/// How many of the non-empty query terms occur in the lowercased content.
pub open spec fn score_spec(content: Seq<char>, terms: Seq<Seq<char>>) -> nat {
    if terms.len() == 0 { 0 } else { count_hits(str_lowercase(content), terms) }
}

pub fn score_memory_chars(content: &Vec<char>, terms: &Vec<Vec<char>>) -> (r: usize)
    ensures
        r == score_spec(content@, cviews(terms@)),
        r <= terms@.len(),
{
    if terms.len() == 0 {
        return 0;
    }
    let hay = lowercase(content);
    let mut n: usize = 0;
    let mut i: usize = 0;
    assert(cviews(terms@).subrange(0, 0) =~= Seq::<Seq<char>>::empty());
    while i < terms.len()
        invariant
            i <= terms.len(),
            hay@ == str_lowercase(content@),
            n == count_hits(hay@, cviews(terms@).subrange(0, i as int)),
            n <= i,
        decreases terms.len() - i,
    {
        assert(cviews(terms@).subrange(0, i + 1).drop_last() =~= cviews(terms@).subrange(0, i as int));
        if terms[i].len() > 0 && contains(&hay, &terms[i]) {
            n += 1;
        }
        i += 1;
    }
    assert(cviews(terms@).subrange(0, terms.len() as int) =~= cviews(terms@));
    n
}

/// Keyword score of a memory chunk: the number of query terms it contains
/// (case-insensitive).
pub fn score_memory(content: &str, query_terms: &[String]) -> (r: usize)
    ensures
        r == score_spec(content@, sviews(query_terms@)),
        r <= query_terms@.len(),
{
    let mut tv: Vec<Vec<char>> = Vec::new();
    let mut i: usize = 0;
    while i < query_terms.len()
        invariant
            i <= query_terms@.len(),
            cviews(tv@) == sviews(query_terms@).subrange(0, i as int),
        decreases query_terms.len() - i,
    {
        let cv = chars_of(query_terms[i].as_str());
        assert(cv@ == sviews(query_terms@)[i as int]);
        let ghost prev = tv@;
        tv.push(cv);
        assert(cviews(tv@) =~= cviews(prev).push(cv@));
        i += 1;
        assert(cviews(tv@) =~= sviews(query_terms@).subrange(0, i as int));
    }
    assert(sviews(query_terms@).subrange(0, query_terms@.len() as int) =~= sviews(query_terms@));
    score_memory_chars(&chars_of(content), &tv)
}


/// Number of leading entries of `order` whose score is at least `s`.
pub open spec fn first_lt(order: Seq<int>, sc: Seq<nat>, s: nat) -> int
    decreases order.len(),
{
    if order.len() == 0 {
        0
    } else if sc[order[0]] < s {
        0
    } else {
        1 + first_lt(order.drop_first(), sc, s)
    }
}

/// Indices `0..n` with a positive score, ordered by descending score; equal
/// scores keep their original order (a stable sort).
pub open spec fn ranked(sc: Seq<nat>, n: int) -> Seq<int>
    decreases n,
{
    if n <= 0 {
        Seq::<int>::empty()
    } else {
        let o = ranked(sc, n - 1);
        if sc[n - 1] > 0 {
            o.insert(first_lt(o, sc, sc[n - 1]), n - 1)
        } else {
            o
        }
    }
}

pub open spec fn pviews(v: Seq<(String, String)>) -> Seq<(Seq<char>, Seq<char>)> {
    v.map_values(|p: (String, String)| (p.0@, p.1@))
}

/// Scores of the rows' contents against the terms.
pub open spec fn row_scores(rows: Seq<(Seq<char>, Seq<char>)>, terms: Seq<Seq<char>>) -> Seq<nat> {
    Seq::new(rows.len(), |i: int| score_spec(rows[i].1, terms))
}

pub open spec fn rank_spec(rows: Seq<(Seq<char>, Seq<char>)>, query: Seq<char>, limit: nat) -> Seq<(Seq<char>, Seq<char>)> {
    let terms = query_terms_spec(query);
    if terms.len() == 0 || limit == 0 {
        Seq::empty()
    } else {
        let o = ranked(row_scores(rows, terms), rows.len() as int);
        let top = if o.len() > limit { o.subrange(0, limit as int) } else { o };
        top.map_values(|i: int| rows[i])
    }
}

proof fn lemma_first_lt_bound(order: Seq<int>, sc: Seq<nat>, s: nat)
    ensures
        0 <= first_lt(order, sc, s) <= order.len(),
    decreases order.len(),
{
    if order.len() > 0 {
        lemma_first_lt_bound(order.drop_first(), sc, s);
    }
}

proof fn lemma_first_lt_scan(order: Seq<int>, sc: Seq<nat>, s: nat, p: int)
    requires
        0 <= p <= order.len(),
        forall|j: int| 0 <= j < p ==> sc[order[j]] >= s,
        p < order.len() ==> sc[order[p]] < s,
    ensures
        first_lt(order, sc, s) == p,
    decreases p,
{
    if p > 0 {
        lemma_first_lt_scan(order.drop_first(), sc, s, p - 1);
    }
}

proof fn lemma_ranked_range(sc: Seq<nat>, n: int)
    requires
        0 <= n <= sc.len(),
    ensures
        forall|j: int| 0 <= j < ranked(sc, n).len() ==> 0 <= #[trigger] ranked(sc, n)[j] < n,
        ranked(sc, n).len() <= n,
    decreases n,
{
    if n > 0 {
        lemma_ranked_range(sc, n - 1);
        let o = ranked(sc, n - 1);
        lemma_first_lt_bound(o, sc, sc[n - 1]);
    }
}

/// Rows ranked by keyword overlap with the query: rows that match at least
/// one term, best first (ties in row order), at most `limit` of them.
pub fn rank_memory(rows: &[(String, String)], query: &str, limit: usize) -> (r: Vec<(String, String)>)
    ensures
        pviews(r@) == rank_spec(pviews(rows@), query@, limit as nat),
{
    let terms = query_terms_chars(&chars_of(query));
    let mut out: Vec<(String, String)> = Vec::new();
    if terms.len() == 0 || limit == 0 {
        assert(pviews(out@) =~= Seq::<(Seq<char>, Seq<char>)>::empty());
        return out;
    }
    let ghost rv = pviews(rows@);
    let ghost sc = row_scores(rv, cviews(terms@));
    let mut scores: Vec<usize> = Vec::new();
    let mut order: Vec<usize> = Vec::new();
    let mut i: usize = 0;
    while i < rows.len()
        invariant
            i <= rows@.len(),
            rv == pviews(rows@),
            sc == row_scores(rv, cviews(terms@)),
            scores@.len() == i,
            forall|j: int| 0 <= j < i ==> scores@[j] == sc[j],
            order@.len() == ranked(sc, i as int).len(),
            forall|j: int| 0 <= j < order@.len() ==> order@[j] as int == #[trigger] ranked(sc, i as int)[j],
        decreases rows.len() - i,
    {
        proof {
            assert(sc.len() == rows@.len());
            lemma_ranked_range(sc, i as int);
            assert forall|j: int| 0 <= j < order@.len() implies (order@[j] as int) < i by {
                assert(order@[j] as int == ranked(sc, i as int)[j]);
            }
        }
        let s = score_memory_chars(&chars_of(rows[i].1.as_str()), &terms);
        assert(s == sc[i as int]);
        scores.push(s);
        if s > 0 {
            let ghost o = ranked(sc, i as int);
            let mut p: usize = 0;
            while p < order.len() && scores[order[p]] >= s
                invariant
                    p <= order@.len(),
                    order@.len() == o.len(),
                    forall|j: int| 0 <= j < order@.len() ==> order@[j] as int == #[trigger] o[j],
                    forall|j: int| 0 <= j < order@.len() ==> (order@[j] as int) < i,
                    scores@.len() == i + 1,
                    forall|j: int| 0 <= j <= i ==> scores@[j] == sc[j],
                    forall|j: int| 0 <= j < p ==> sc[o[j]] >= s,
                decreases order.len() - p,
            {
                p += 1;
            }
            proof {
                lemma_first_lt_scan(o, sc, s as nat, p as int);
            }
            order.insert(p, i);
            assert forall|j: int| 0 <= j < order@.len() implies order@[j] as int == #[trigger] ranked(sc, i + 1)[j] by {
                assert(ranked(sc, i + 1) == o.insert(p as int, i as int));
            }
        } else {
            assert(ranked(sc, i + 1) == ranked(sc, i as int));
        }
        proof {
            lemma_ranked_range(sc, i + 1);
        }
        i += 1;
    }
    let ghost o = ranked(sc, rows@.len() as int);
    proof {
        lemma_ranked_range(sc, rows@.len() as int);
    }
    let take = if order.len() > limit { limit } else { order.len() };
    let ghost top = if o.len() > limit { o.subrange(0, limit as int) } else { o };
    let mut k: usize = 0;
    while k < take
        invariant
            k <= take <= order@.len(),
            take == top.len(),
            order@.len() == o.len(),
            forall|j: int| 0 <= j < order@.len() ==> order@[j] as int == #[trigger] o[j],
            forall|j: int| 0 <= j < o.len() ==> 0 <= #[trigger] o[j] < rows@.len(),
            forall|j: int| 0 <= j < top.len() ==> top[j] == o[j],
            rv == pviews(rows@),
            pviews(out@) == top.subrange(0, k as int).map_values(|x: int| rv[x]),
        decreases take - k,
    {
        let idx = order[k];
        assert(order@[k as int] as int == o[k as int]);
        assert(0 <= idx < rows@.len());
        let pair = (rows[idx].0.clone(), rows[idx].1.clone());
        let ghost prev = out@;
        out.push(pair);
        assert(pviews(out@) =~= pviews(prev).push(rv[idx as int]));
        assert(top.subrange(0, k + 1).map_values(|x: int| rv[x]) =~= top.subrange(0, k as int).map_values(|x: int| rv[x]).push(rv[top[k as int]]));
        k += 1;
    }
    assert(top.subrange(0, take as int) =~= top);
    out
}


pub open spec fn is_section_header_spec(line: Seq<char>) -> bool {
    let t = trim(line);
    let lower = str_lowercase(t);
    ||| (t.len() > 0 && t[0] == '【' && t.contains('】'))
    ||| (t.len() > 0 && t[0] == '#')
    ||| starts_with(lower, "[overall"@)
    ||| starts_with(lower, "[facts"@)
    ||| lower == "[plot]"@
    ||| t == "整体情节"@
    ||| t == "要点"@
}

/// A section heading of an extraction: `【…】`, `#…`, `[Overall…`, `[Facts…`,
/// `[Plot]`, `整体情节` or `要点`.
pub fn is_section_header(line: &Vec<char>) -> (r: bool)
    ensures
        r == is_section_header_spec(line@),
{
    let t = trimmed(line);
    if t.len() > 0 && t[0] == '【' && crate::text::contains_char(&t, '】') {
        return true;
    }
    if t.len() > 0 && t[0] == '#' {
        return true;
    }
    let lower = lowercase(&t);
    starts_with_str(&lower, "[overall") || starts_with_str(&lower, "[facts")
        || crate::text::eq_str(&lower, "[plot]") || crate::text::eq_str(&t, "整体情节")
        || crate::text::eq_str(&t, "要点")
}

pub open spec fn is_bullet_spec(line: Seq<char>) -> bool {
    let t = trim_start(line);
    t.len() > 0 && (t[0] == '-' || t[0] == '•' || t[0] == '*')
}

/// A bullet line: starts (after whitespace) with `-`, `•` or `*`.
pub fn is_bullet(line: &Vec<char>) -> (r: bool)
    ensures
        r == is_bullet_spec(line@),
{
    let t = trimmed_start(line);
    t.len() > 0 && (t[0] == '-' || t[0] == '•' || t[0] == '*')
}

/// `s` without leading `-`, `*`, `•` and spaces.
pub open spec fn strip_bullet_chars(s: Seq<char>) -> Seq<char>
    decreases s.len(),
{
    if s.len() > 0 && (s[0] == '-' || s[0] == '*' || s[0] == '•' || s[0] == ' ') {
        strip_bullet_chars(s.drop_first())
    } else {
        s
    }
}

fn strip_bullet_chars_exec(s: &Vec<char>) -> (r: Vec<char>)
    ensures
        r@ == strip_bullet_chars(s@),
{
    let mut a: usize = 0;
    assert(s@.subrange(0, s.len() as int) =~= s@);
    while a < s.len() && (s[a] == '-' || s[a] == '*' || s[a] == '•' || s[a] == ' ')
        invariant
            a <= s.len(),
            strip_bullet_chars(s@) == strip_bullet_chars(s@.subrange(a as int, s.len() as int)),
        decreases s.len() - a,
    {
        assert(s@.subrange(a as int, s.len() as int).drop_first() =~= s@.subrange(a + 1, s.len() as int));
        a += 1;
    }
    slice(s, a, s.len())
}

/// The facts of a bullet line: bullet marks stripped, trimmed.
pub open spec fn bullet_fact(t: Seq<char>) -> Seq<char> {
    trim(strip_bullet_chars(t))
}

pub open spec fn plot_hdr(t: Seq<char>) -> bool {
    let lower = str_lowercase(t);
    has_sub(t, "整体情节"@) || has_sub(lower, "overall plot"@) || has_sub(lower, "[overall"@)
}

pub open spec fn facts_hdr(t: Seq<char>) -> bool {
    let lower = str_lowercase(t);
    ||| has_sub(t, "要点"@)
    ||| has_sub(t, "已交代"@)
    ||| has_sub(lower, "[facts"@)
    ||| has_sub(lower, "facts]"@)
    ||| has_sub(lower, "already shown"@)
    ||| has_sub(lower, "[revealed"@)
}

/// The plot summary collected so far, stored when it has at least four
/// characters; it is labelled `【整体情节】` unless it already says so.
pub open spec fn flush_plot(out: Seq<Seq<char>>, buf: Seq<char>) -> Seq<Seq<char>> {
    let s = trim(buf);
    if s.len() >= 4 {
        if has_sub(s, "整体情节"@) || has_sub(str_lowercase(s), "overall plot"@) {
            out.push(s)
        } else {
            out.push("【整体情节】\n"@ + s)
        }
    } else {
        out
    }
}

/// One line of an extraction: `(chunks, plot buffer, inside plot section)`.
pub open spec fn mem_step(st: (Seq<Seq<char>>, Seq<char>, bool), line: Seq<char>) -> (Seq<Seq<char>>, Seq<char>, bool) {
    let (out, buf, in_plot) = st;
    let tr = trim(line);
    if tr.len() == 0 {
        st
    } else if is_section_header_spec(tr) && plot_hdr(tr) && !facts_hdr(tr) {
        if in_plot { (flush_plot(out, buf), Seq::<char>::empty(), true) } else { (out, buf, true) }
    } else if is_section_header_spec(tr) && (facts_hdr(tr) || (in_plot && !plot_hdr(tr))) {
        if in_plot { (flush_plot(out, buf), Seq::<char>::empty(), false) } else { (out, buf, false) }
    } else if in_plot && !is_bullet_spec(tr) {
        (out, if buf.len() > 0 { buf.push('\n') + tr } else { buf + tr }, true)
    } else {
        let out2 = if in_plot { flush_plot(out, buf) } else { out };
        let buf2 = if in_plot { Seq::<char>::empty() } else { buf };
        if is_bullet_spec(tr) && bullet_fact(tr).len() >= 4 {
            (out2.push(bullet_fact(tr)), buf2, false)
        } else {
            (out2, buf2, false)
        }
    }
}

pub open spec fn mem_fold(ls: Seq<Seq<char>>, n: int) -> (Seq<Seq<char>>, Seq<char>, bool)
    decreases n,
{
    if n <= 0 {
        (Seq::<Seq<char>>::empty(), Seq::<char>::empty(), false)
    } else {
        mem_step(mem_fold(ls, n - 1), ls[n - 1])
    }
}

/// Chunks from the sectioned format (plot summary, then fact bullets).
pub open spec fn sectioned_chunks(t: Seq<char>) -> Seq<Seq<char>> {
    let ls = lines(t);
    let (out, buf, ip) = mem_fold(ls, ls.len() as int);
    if ip { flush_plot(out, buf) } else { out }
}

/// Facts of the bullet lines, in order, each at least four characters.
pub open spec fn bullet_facts(ls: Seq<Seq<char>>) -> Seq<Seq<char>>
    decreases ls.len(),
{
    if ls.len() == 0 {
        Seq::empty()
    } else {
        let p = bullet_facts(ls.drop_last());
        let l = trim(ls.last());
        if l.len() > 0 && is_bullet_spec(l) && bullet_fact(l).len() >= 4 {
            p.push(bullet_fact(l))
        } else {
            p
        }
    }
}

/// `r` is the segmentation of `t` into 400-character segments overlapping by 40.
pub open spec fn is_chunking(r: Seq<Seq<char>>, t: Seq<char>, size: nat, overlap: nat) -> bool {
    &&& (t.len() == 0 ==> r.len() == 0)
    &&& (t.len() > 0 ==> segment_count_ok(t.len(), size, overlap, r.len()))
    &&& forall|k: int| 0 <= k < r.len() ==> r[k] == segment(t, k, size, overlap)
}

fn flush_plot_exec(out: &mut Vec<Vec<char>>, buf: &Vec<char>)
    ensures
        cviews(final(out)@) == flush_plot(cviews(old(out)@), buf@),
{
    let s = trimmed(buf);
    if s.len() >= 4 {
        let ghost prev = out@;
        if contains_str(&s, "整体情节") || contains_str(&lowercase(&s), "overall plot") {
            out.push(s);
            assert(cviews(out@) =~= cviews(prev).push(s@));
        } else {
            let mut v = chars_of("【整体情节】\n");
            append(&mut v, &s);
            out.push(v);
            assert(cviews(out@) =~= cviews(prev).push("【整体情节】\n"@ + s@));
        }
    }
}

fn is_plot_hdr(t: &Vec<char>) -> (r: bool)
    ensures
        r == plot_hdr(t@),
{
    let lower = lowercase(t);
    contains_str(t, "整体情节") || contains_str(&lower, "overall plot") || contains_str(&lower, "[overall")
}

fn is_facts_hdr(t: &Vec<char>) -> (r: bool)
    ensures
        r == facts_hdr(t@),
{
    let lower = lowercase(t);
    contains_str(t, "要点") || contains_str(t, "已交代") || contains_str(&lower, "[facts")
        || contains_str(&lower, "facts]") || contains_str(&lower, "already shown")
        || contains_str(&lower, "[revealed")
}

/// Storage chunks of an LLM memory extraction: the `【整体情节】` summary and
/// each fact bullet of at least four characters; for older bullet-only
/// output, its bullets (when there are two or more); otherwise 400-character
/// segments of the text overlapping by 40.
pub fn split_memory_text(text: &str) -> (r: Vec<String>)
    ensures
        trim(text@).len() == 0 ==> r@.len() == 0,
        trim(text@).len() > 0 && sectioned_chunks(trim(text@)).len() >= 1 ==> sviews(r@) == sectioned_chunks(trim(text@)),
        trim(text@).len() > 0 && sectioned_chunks(trim(text@)).len() == 0 && bullet_facts(lines(trim(text@))).len() >= 2
            ==> sviews(r@) == bullet_facts(lines(trim(text@))),
        trim(text@).len() > 0 && sectioned_chunks(trim(text@)).len() == 0 && bullet_facts(lines(trim(text@))).len() < 2
            ==> is_chunking(sviews(r@), trim(text@), 400, 40),
{
    let t = crate::text::trim_str(text);
    if t.len() == 0 {
        return Vec::new();
    }
    let ls = lines_of(&t);
    let ghost lsv = lines(t@);
    let mut out: Vec<Vec<char>> = Vec::new();
    let mut buf: Vec<char> = Vec::new();
    let mut in_plot = false;
    let mut i: usize = 0;
    assert(cviews(out@) =~= Seq::<Seq<char>>::empty());
    while i < ls.len()
        invariant
            i <= ls@.len() == lsv.len(),
            forall|k: int| 0 <= k < ls@.len() ==> (#[trigger] ls@[k])@ == lsv[k],
            (cviews(out@), buf@, in_plot) == mem_fold(lsv, i as int),
        decreases ls.len() - i,
    {
        let tr = trimmed(&ls[i]);
        assert(ls@[i as int]@ == lsv[i as int]);
        if tr.len() == 0 {
            i += 1;
            continue;
        }
        let hdr = is_section_header(&tr);
        let ph = is_plot_hdr(&tr);
        let fh = is_facts_hdr(&tr);
        if hdr && ph && !fh {
            if in_plot {
                flush_plot_exec(&mut out, &buf);
                buf = Vec::new();
            }
            in_plot = true;
            i += 1;
            continue;
        }
        if hdr && (fh || (in_plot && !ph)) {
            if in_plot {
                flush_plot_exec(&mut out, &buf);
                buf = Vec::new();
            }
            in_plot = false;
            i += 1;
            continue;
        }
        let bul = is_bullet(&tr);
        if in_plot && !bul {
            if buf.len() > 0 {
                buf.push('\n');
            }
            append(&mut buf, &tr);
            i += 1;
            continue;
        }
        if in_plot {
            flush_plot_exec(&mut out, &buf);
            buf = Vec::new();
            in_plot = false;
        }
        if bul {
            let fact = trimmed(&strip_bullet_chars_exec(&tr));
            if fact.len() >= 4 {
                let ghost prev = out@;
                out.push(fact);
                assert(cviews(out@) =~= cviews(prev).push(bullet_fact(tr@)));
            }
        }
        i += 1;
    }
    if in_plot {
        flush_plot_exec(&mut out, &buf);
    }
    if out.len() >= 1 {
        return to_strings(&out);
    }
    let mut bullets: Vec<Vec<char>> = Vec::new();
    let mut k: usize = 0;
    assert(lsv.subrange(0, 0) =~= Seq::<Seq<char>>::empty());
    assert(cviews(bullets@) =~= Seq::<Seq<char>>::empty());
    while k < ls.len()
        invariant
            k <= ls@.len() == lsv.len(),
            forall|j: int| 0 <= j < ls@.len() ==> (#[trigger] ls@[j])@ == lsv[j],
            cviews(bullets@) == bullet_facts(lsv.subrange(0, k as int)),
        decreases ls.len() - k,
    {
        assert(lsv.subrange(0, k + 1).drop_last() =~= lsv.subrange(0, k as int));
        assert(ls@[k as int]@ == lsv[k as int]);
        let l = trimmed(&ls[k]);
        if l.len() > 0 && is_bullet(&l) {
            let fact = trimmed(&strip_bullet_chars_exec(&l));
            if fact.len() >= 4 {
                let ghost prev = bullets@;
                bullets.push(fact);
                assert(cviews(bullets@) =~= cviews(prev).push(bullet_fact(l@)));
            }
        }
        k += 1;
    }
    assert(lsv.subrange(0, lsv.len() as int) =~= lsv);
    if bullets.len() >= 2 {
        return to_strings(&bullets);
    }
    let ts = string_of(&t);
    let r = chunk_text(ts.as_str(), 400, 40);
    assert forall|j: int| 0 <= j < sviews(r@).len() implies sviews(r@)[j] == segment(t@, j, 400, 40) by {
        assert(r@[j]@ == segment(ts@, j, 400, 40));
    }
    r
}

/// The character vectors as strings.
pub fn to_strings(v: &Vec<Vec<char>>) -> (r: Vec<String>)
    ensures
        sviews(r@) == cviews(v@),
{
    let mut out: Vec<String> = Vec::new();
    let mut i: usize = 0;
    while i < v.len()
        invariant
            i <= v.len(),
            sviews(out@) == cviews(v@).subrange(0, i as int),
        decreases v.len() - i,
    {
        let st = string_of(&v[i]);
        assert(st@ == cviews(v@)[i as int]);
        let ghost prev = out@;
        out.push(st);
        assert(sviews(out@) =~= sviews(prev).push(st@));
        i += 1;
    }
    assert(cviews(v@).subrange(0, v.len() as int) =~= cviews(v@));
    out
}


pub open spec fn allowed_ok(allowed: Option<Seq<Seq<char>>>, nid: Seq<char>) -> bool {
    match allowed {
        None => true,
        Some(a) => a.contains(nid),
    }
}

/// Vector hits in order: allowed chapters only, each `(node, content)` once,
/// at most `limit`.
pub open spec fn hits_fold(hits: Seq<(Seq<char>, Seq<char>)>, allowed: Option<Seq<Seq<char>>>, limit: nat, n: int) -> Seq<(Seq<char>, Seq<char>)>
    decreases n,
{
    if n <= 0 {
        Seq::empty()
    } else {
        let o = hits_fold(hits, allowed, limit, n - 1);
        let h = hits[n - 1];
        if o.len() < limit && allowed_ok(allowed, h.0) && !o.contains(h) {
            o.push(h)
        } else {
            o
        }
    }
}

pub open spec fn allowed_filter(s: Seq<(Seq<char>, Seq<char>)>, allowed: Option<Seq<Seq<char>>>) -> Seq<(Seq<char>, Seq<char>)>
    decreases s.len(),
{
    if s.len() == 0 {
        s
    } else {
        let p = allowed_filter(s.drop_last(), allowed);
        if allowed_ok(allowed, s.last().0) { p.push(s.last()) } else { p }
    }
}

pub open spec fn retrieve_spec(
    hits: Seq<(Seq<char>, Seq<char>)>,
    rows: Seq<(Seq<char>, Seq<char>)>,
    query: Seq<char>,
    limit: nat,
    allowed: Option<Seq<Seq<char>>>,
) -> Seq<(Seq<char>, Seq<char>)> {
    if limit == 0 || trim(query).len() == 0 {
        Seq::empty()
    } else {
        let o = hits_fold(hits, allowed, limit, hits.len() as int);
        if o.len() > 0 {
            o
        } else {
            allowed_filter(rank_spec(rows, query, limit), allowed)
        }
    }
}

fn is_allowed(allowed: Option<&[String]>, nid: &String) -> (r: bool)
    ensures
        r == allowed_ok(match allowed { Some(a) => Some(sviews(a@)), None => None }, nid@),
{
    match allowed {
        None => true,
        Some(a) => {
            let mut i: usize = 0;
            while i < a.len()
                invariant
                    i <= a@.len(),
                    allowed == Some(a),
                    forall|j: int| 0 <= j < i ==> a@[j]@ != nid@,
                decreases a.len() - i,
            {
                if a[i] == *nid {
                    assert(sviews(a@)[i as int] == nid@);
                    assert(sviews(a@).contains(nid@));
                    return true;
                }
                i += 1;
            }
            assert(!sviews(a@).contains(nid@)) by {
                if sviews(a@).contains(nid@) {
                    let j = choose|j: int| 0 <= j < sviews(a@).len() && sviews(a@)[j] == nid@;
                    assert(a@[j]@ == nid@);
                }
            }
            false
        }
    }
}

fn has_pair(v: &Vec<(String, String)>, p: &(String, String)) -> (r: bool)
    ensures
        r == pviews(v@).contains((p.0@, p.1@)),
{
    let mut i: usize = 0;
    while i < v.len()
        invariant
            i <= v@.len(),
            forall|j: int| 0 <= j < i ==> pviews(v@)[j] != (p.0@, p.1@),
        decreases v.len() - i,
    {
        if v[i].0 == p.0 && v[i].1 == p.1 {
            assert(pviews(v@)[i as int] == (p.0@, p.1@));
            return true;
        }
        i += 1;
    }
    false
}

/// Chapter memory for a query: the vector-search hits first (allowed
/// chapters only, no repeats, at most `limit`); when none survive, the
/// keyword ranking of `rows`, restricted to the allowed chapters.
pub fn retrieve_memory(
    hits: &[(String, String)],
    rows: &[(String, String)],
    query: &str,
    limit: usize,
    allowed: Option<&[String]>,
) -> (r: Vec<(String, String)>)
    ensures
        pviews(r@) == retrieve_spec(pviews(hits@), pviews(rows@), query@, limit as nat,
            match allowed { Some(a) => Some(sviews(a@)), None => None }),
{
    let ghost al = match allowed { Some(a) => Some(sviews(a@)), None => None };
    let mut out: Vec<(String, String)> = Vec::new();
    if limit == 0 || crate::text::is_blank(&chars_of(query)) {
        assert(pviews(out@) =~= Seq::<(Seq<char>, Seq<char>)>::empty());
        return out;
    }
    let ghost hv = pviews(hits@);
    let mut i: usize = 0;
    assert(pviews(out@) =~= hits_fold(hv, al, limit as nat, 0));
    while i < hits.len()
        invariant
            i <= hits@.len(),
            hv == pviews(hits@),
            al == match allowed { Some(a) => Some(sviews(a@)), None => None::<Seq<Seq<char>>> },
            pviews(out@) == hits_fold(hv, al, limit as nat, i as int),
        decreases hits.len() - i,
    {
        let h = &hits[i];
        assert(hv[i as int] == (h.0@, h.1@));
        if out.len() < limit && is_allowed(allowed, &h.0) && !has_pair(&out, h) {
            let ghost prev = out@;
            out.push((h.0.clone(), h.1.clone()));
            assert(pviews(out@) =~= pviews(prev).push(hv[i as int]));
        }
        i += 1;
    }
    if out.len() > 0 {
        return out;
    }
    let ranked = rank_memory(rows, query, limit);
    let ghost rk = pviews(ranked@);
    let mut k: usize = 0;
    assert(rk.subrange(0, 0) =~= Seq::<(Seq<char>, Seq<char>)>::empty());
    while k < ranked.len()
        invariant
            k <= ranked@.len(),
            rk == pviews(ranked@),
            al == match allowed { Some(a) => Some(sviews(a@)), None => None::<Seq<Seq<char>>> },
            pviews(out@) == allowed_filter(rk.subrange(0, k as int), al),
        decreases ranked.len() - k,
    {
        assert(rk.subrange(0, k + 1).drop_last() =~= rk.subrange(0, k as int));
        let p = &ranked[k];
        assert(rk[k as int] == (p.0@, p.1@));
        if is_allowed(allowed, &p.0) {
            let ghost prev = out@;
            out.push((p.0.clone(), p.1.clone()));
            assert(pviews(out@) =~= pviews(prev).push(rk[k as int]));
        }
        k += 1;
    }
    assert(rk.subrange(0, rk.len() as int) =~= rk);
    out
}


/// The keyword ranking never returns more rows than it was given.
pub proof fn lemma_rank_len(rows: Seq<(Seq<char>, Seq<char>)>, query: Seq<char>, limit: nat)
    ensures
        rank_spec(rows, query, limit).len() <= rows.len(),
        rank_spec(rows, query, limit).len() <= limit,
{
    let terms = query_terms_spec(query);
    if !(terms.len() == 0 || limit == 0) {
        let sc = row_scores(rows, terms);
        lemma_ranked_range(sc, rows.len() as int);
    }
}

/// The first `n` characters of `s` (all of it when shorter).
pub open spec fn head(s: Seq<char>, n: nat) -> Seq<char> {
    if s.len() <= n { s } else { s.take(n as int) }
}

/// One retrieved fact as a prompt line.
pub open spec fn fact_line(f: (Seq<char>, Seq<char>)) -> Seq<char> {
    "- [memory:"@ + f.0 + "] "@ + crate::kb_context::truncate_spec(f.1, crate::kb_context::MEMORY_FACT_CAP as nat)
}

/// The fact lines that fit the memory block, taken in order; the first
/// line that would overflow it (counting one newline per line) ends the
/// block.
pub open spec fn fitting_lines(facts: Seq<(Seq<char>, Seq<char>)>, used: nat) -> Seq<Seq<char>>
    decreases facts.len(),
{
    if facts.len() == 0 {
        Seq::empty()
    } else {
        let line = fact_line(facts[0]);
        let add = line.len() + 1;
        if used + add > crate::kb_context::MEMORY_BLOCK_CAP {
            Seq::empty()
        } else {
            seq![line] + fitting_lines(facts.drop_first(), used + add)
        }
    }
}

/// The outline part of a refine context: each earlier chapter's label and
/// the head of its outline.
pub open spec fn prev_outlines(prev: Seq<TreeNode>, zh: bool) -> Seq<char>
    decreases prev.len(),
{
    if prev.len() == 0 {
        Seq::empty()
    } else {
        let c = prev.last();
        prev_outlines(prev.drop_last(), zh) + "## "@ + c.label@
            + (if zh { "\n大纲："@ } else { "\nOutline: "@ }) + head(c.outline@, 200) + "\n\n"@
    }
}

pub open spec fn node_ids(prev: Seq<TreeNode>) -> Seq<Seq<char>> {
    prev.map_values(|c: TreeNode| c.id@)
}

/// The context a refine pass reads of earlier chapters: their outlines,
/// then the memory facts retrieved for the query among those chapters
/// (see `retrieve_spec`) that fit the block.
pub open spec fn refine_memory_spec(
    prev: Seq<TreeNode>,
    hits: Seq<(Seq<char>, Seq<char>)>,
    rows: Seq<(Seq<char>, Seq<char>)>,
    query: Seq<char>,
    zh: bool,
) -> Seq<char> {
    let ranked = retrieve_spec(hits, rows, query, crate::kb_context::MEMORY_RETRIEVE_K as nat, Some(node_ids(prev)));
    let lines = fitting_lines(ranked, 0);
    let facts = if lines.len() == 0 {
        Seq::empty()
    } else if zh {
        "## 相关章节记忆（检索 top-k）\n"@ + join(lines, "\n"@) + "\n\n"@
    } else {
        "## Related chapter memory (retrieved top-k)\n"@ + join(lines, "\n"@) + "\n\n"@
    };
    prev_outlines(prev, zh) + facts
}

fn fact_lines_exec(ranked: &Vec<(String, String)>) -> (r: Vec<Vec<char>>)
    ensures
        vviews(r@) == fitting_lines(pviews(ranked@), 0),
{
    let mut out: Vec<Vec<char>> = Vec::new();
    let mut used: usize = 0;
    let mut i: usize = 0;
    assert(pviews(ranked@).skip(0) =~= pviews(ranked@));
    assert(vviews(out@) + fitting_lines(pviews(ranked@), 0) =~= fitting_lines(pviews(ranked@), 0));
    while i < ranked.len()
        invariant
            i <= ranked@.len(),
            used <= crate::kb_context::MEMORY_BLOCK_CAP,
            vviews(out@) + fitting_lines(pviews(ranked@).skip(i as int), used as nat)
                == fitting_lines(pviews(ranked@), 0),
        decreases ranked@.len() - i,
    {
        let ghost rest = pviews(ranked@).skip(i as int);
        assert(rest.drop_first() =~= pviews(ranked@).skip(i + 1));
        assert(rest[0] == (ranked@[i as int].0@, ranked@[i as int].1@));
        let mut line = chars_of("- [memory:");
        append_str(&mut line, ranked[i].0.as_str());
        append_str(&mut line, "] ");
        let snip = crate::kb_context::truncate_chars(ranked[i].1.as_str(), crate::kb_context::MEMORY_FACT_CAP);
        append_str(&mut line, snip.as_str());
        if line.len() >= crate::kb_context::MEMORY_BLOCK_CAP - used {
            assert(fitting_lines(rest, used as nat) =~= Seq::<Seq<char>>::empty());
            assert(vviews(out@) + Seq::<Seq<char>>::empty() =~= vviews(out@));
            return out;
        }
        let add = line.len() + 1;
        let ghost before = vviews(out@);
        used = used + add;
        out.push(line);
        assert(vviews(out@) =~= before.push(fact_line(rest[0])));
        assert(before + fitting_lines(rest, (used - add) as nat)
            =~= vviews(out@) + fitting_lines(pviews(ranked@).skip(i + 1), used as nat));
        i += 1;
    }
    assert(pviews(ranked@).skip(i as int) =~= Seq::<(Seq<char>, Seq<char>)>::empty());
    assert(vviews(out@) + Seq::<Seq<char>>::empty() =~= vviews(out@));
    out
}

fn prev_outlines_exec(prev: &[TreeNode], zh: bool) -> (r: Vec<char>)
    ensures
        r@ == prev_outlines(prev@, zh),
{
    let mut out: Vec<char> = Vec::new();
    let mut i: usize = 0;
    while i < prev.len()
        invariant
            i <= prev@.len(),
            out@ == prev_outlines(prev@.subrange(0, i as int), zh),
        decreases prev@.len() - i,
    {
        assert(prev@.subrange(0, i + 1).drop_last() =~= prev@.subrange(0, i as int));
        let c = &prev[i];
        append_str(&mut out, "## ");
        append_str(&mut out, c.label.as_str());
        append_str(&mut out, if zh { "\n大纲：" } else { "\nOutline: " });
        let o = chars_of(c.outline.as_str());
        let n: usize = if o.len() < 200 { o.len() } else { 200 };
        let h = slice(&o, 0, n);
        assert(h@ =~= head(c.outline@, 200));
        append(&mut out, &h);
        append_str(&mut out, "\n\n");
        i += 1;
    }
    assert(prev@.subrange(0, prev@.len() as int) =~= prev@);
    out
}

/// See `refine_memory_spec`. `hits` are the vector-search hits and `rows`
/// the stored memory of the earlier chapters.
pub fn build_refine_memory_context(
    prev: &[TreeNode],
    hits: &[(String, String)],
    rows: &[(String, String)],
    query: &str,
    zh: bool,
) -> (r: String)
    ensures
        r@ == refine_memory_spec(prev@, pviews(hits@), pviews(rows@), query@, zh),
{
    let mut ids: Vec<String> = Vec::new();
    let mut i: usize = 0;
    while i < prev.len()
        invariant
            i <= prev@.len(),
            sviews(ids@) =~= node_ids(prev@.subrange(0, i as int)),
        decreases prev@.len() - i,
    {
        let ghost before = sviews(ids@);
        ids.push(String::from_str(prev[i].id.as_str()));
        assert(prev@.subrange(0, i + 1) =~= prev@.subrange(0, i as int).push(prev@[i as int]));
        assert(sviews(ids@) =~= before.push(prev@[i as int].id@));
        i += 1;
    }
    assert(prev@.subrange(0, prev@.len() as int) =~= prev@);
    let ranked = retrieve_memory(hits, rows, query, crate::kb_context::MEMORY_RETRIEVE_K, Some(ids.as_slice()));
    let lines = fact_lines_exec(&ranked);
    let mut out = prev_outlines_exec(prev, zh);
    if lines.len() > 0 {
        append_str(&mut out, if zh { "## 相关章节记忆（检索 top-k）\n" } else { "## Related chapter memory (retrieved top-k)\n" });
        append(&mut out, &join_exec(&lines, "\n"));
        append_str(&mut out, "\n\n");
    }
    string_of(&out)
}

/// Terms without repeats, each at least two characters.
pub open spec fn good_terms(ts: Seq<Seq<char>>) -> bool {
    &&& ts.no_duplicates()
    &&& forall|i: int| 0 <= i < ts.len() ==> (#[trigger] ts[i]).len() >= 2
}

proof fn lemma_push_term_good(ts: Seq<Seq<char>>, t: Seq<char>)
    requires
        good_terms(ts),
    ensures
        good_terms(push_term(ts, t)),
{
    if t.len() >= 2 && !ts.contains(t) {
        let r = ts.push(t);
        assert forall|i: int, j: int| 0 <= i < r.len() && 0 <= j < r.len() && i != j implies r[i] != r[j] by {
            if i == ts.len() as int {
                assert(ts[j] == r[j]);
            } else if j == ts.len() as int {
                assert(ts[i] == r[i]);
            }
        }
    }
}

proof fn lemma_push_bigrams_good(ts: Seq<Seq<char>>, c: Seq<char>, m: int)
    requires
        good_terms(ts),
    ensures
        good_terms(push_bigrams(ts, c, m)),
    decreases m,
{
    if m > 0 {
        lemma_push_bigrams_good(ts, c, m - 1);
        lemma_push_term_good(push_bigrams(ts, c, m - 1), c.subrange(m - 1, m + 1));
    }
}

proof fn lemma_flush_good(ts: Seq<Seq<char>>, l: Seq<char>, c: Seq<char>)
    requires
        good_terms(ts),
    ensures
        good_terms(flush_latin(ts, l)),
        good_terms(flush_cjk(ts, c)),
{
    lemma_push_term_good(ts, str_lowercase(l));
    lemma_push_term_good(ts, c);
    if c.len() > 2 {
        lemma_push_bigrams_good(push_term(ts, c), c, c.len() - 1);
    }
}

proof fn lemma_qt_acc_good(s: Seq<char>)
    ensures
        good_terms(qt_acc(s).0),
    decreases s.len(),
{
    if s.len() > 0 {
        lemma_qt_acc_good(s.drop_last());
        let (t, l, c) = qt_acc(s.drop_last());
        lemma_flush_good(t, l, c);
        let t2 = if l.len() > 0 { flush_latin(t, l) } else { t };
        lemma_flush_good(t2, l, c);
    }
}

/// The keyword terms of any query are at most 48, without repeats, and
/// each at least two characters long.
pub proof fn query_terms_shape(s: Seq<char>)
    ensures
        query_terms_spec(s).len() <= 48,
        good_terms(query_terms_spec(s)),
{
    lemma_qt_acc_good(s);
    let (t, l, c) = qt_acc(s);
    lemma_flush_good(t, l, c);
    let t2 = if l.len() > 0 { flush_latin(t, l) } else { t };
    lemma_flush_good(t2, l, c);
    let t3 = if c.len() > 0 { flush_cjk(t2, c) } else { t2 };
    if t3.len() > 48 {
        let r = t3.subrange(0, 48);
        assert forall|i: int, j: int| 0 <= i < r.len() && 0 <= j < r.len() && i != j implies r[i] != r[j] by {
            assert(r[i] == t3[i] && r[j] == t3[j]);
        }
        assert forall|i: int| 0 <= i < r.len() implies (#[trigger] r[i]).len() >= 2 by {
            assert(r[i] == t3[i]);
        }
    }
}

proof fn lemma_first_lt_props(order: Seq<int>, sc: Seq<nat>, s: nat)
    ensures
        0 <= first_lt(order, sc, s) <= order.len(),
        forall|j: int| 0 <= j < first_lt(order, sc, s) ==> sc[#[trigger] order[j]] >= s,
        first_lt(order, sc, s) < order.len() ==> sc[order[first_lt(order, sc, s)]] < s,
    decreases order.len(),
{
    if order.len() > 0 && sc[order[0]] >= s {
        let t = order.drop_first();
        lemma_first_lt_props(t, sc, s);
        assert forall|j: int| 0 <= j < first_lt(order, sc, s) implies sc[#[trigger] order[j]] >= s by {
            if j > 0 {
                assert(order[j] == t[j - 1]);
            }
        }
        if first_lt(order, sc, s) < order.len() {
            assert(order[first_lt(order, sc, s)] == t[first_lt(t, sc, s)]);
        }
    }
}

/// Non-increasing scores along `o`.
pub open spec fn desc(o: Seq<int>, sc: Seq<nat>) -> bool {
    forall|i: int, j: int| 0 <= i < j < o.len() ==> sc[#[trigger] o[i]] >= sc[#[trigger] o[j]]
}

proof fn lemma_ranked_sorted(sc: Seq<nat>, n: int)
    requires
        0 <= n <= sc.len(),
    ensures
        desc(ranked(sc, n), sc),
        forall|j: int| 0 <= j < ranked(sc, n).len() ==> sc[#[trigger] ranked(sc, n)[j]] > 0,
    decreases n,
{
    if n > 0 {
        lemma_ranked_sorted(sc, n - 1);
        let o = ranked(sc, n - 1);
        if sc[n - 1] > 0 {
            let v = sc[n - 1];
            lemma_first_lt_props(o, sc, v);
            let p = first_lt(o, sc, v);
            let o2 = o.insert(p, n - 1);
            assert(o2 == ranked(sc, n));
            assert forall|i: int, j: int| 0 <= i < j < o2.len() implies sc[#[trigger] o2[i]] >= sc[#[trigger] o2[j]] by {
                if j < p {
                    assert(o2[i] == o[i] && o2[j] == o[j]);
                } else if j == p {
                    assert(o2[i] == o[i]);
                } else if i < p {
                    assert(o2[i] == o[i] && o2[j] == o[j - 1]);
                } else if i == p {
                    assert(o2[j] == o[j - 1]);
                    if j - 1 > p {
                        assert(sc[o[p]] >= sc[o[j - 1]]);
                    }
                } else {
                    assert(o2[i] == o[i - 1] && o2[j] == o[j - 1]);
                }
            }
            assert forall|j: int| 0 <= j < o2.len() implies sc[#[trigger] o2[j]] > 0 by {
                if j < p {
                    assert(o2[j] == o[j]);
                } else if j > p {
                    assert(o2[j] == o[j - 1]);
                }
            }
        }
    }
}

/// Ranking memory rows: nothing without query terms or with a zero limit;
/// otherwise at most `limit` rows, each a row of the input matching at
/// least one term, best score first.
#[verifier::spinoff_prover]
pub proof fn rank_memory_shape(rows: Seq<(Seq<char>, Seq<char>)>, query: Seq<char>, limit: nat)
    ensures
        (query_terms_spec(query).len() == 0 || limit == 0) ==> rank_spec(rows, query, limit).len() == 0,
        rank_spec(rows, query, limit).len() <= limit,
        forall|i: int| 0 <= i < rank_spec(rows, query, limit).len() ==> rows.contains(#[trigger] rank_spec(rows, query, limit)[i])
            && score_spec(rank_spec(rows, query, limit)[i].1, query_terms_spec(query)) > 0,
        forall|i: int, j: int| 0 <= i < j < rank_spec(rows, query, limit).len()
            ==> score_spec(#[trigger] rank_spec(rows, query, limit)[i].1, query_terms_spec(query))
                >= score_spec(#[trigger] rank_spec(rows, query, limit)[j].1, query_terms_spec(query)),
{
    let terms = query_terms_spec(query);
    let r = rank_spec(rows, query, limit);
    if terms.len() > 0 && limit > 0 {
        let sc = row_scores(rows, terms);
        let o = ranked(sc, rows.len() as int);
        lemma_ranked_range(sc, rows.len() as int);
        lemma_ranked_sorted(sc, rows.len() as int);
        let top = if o.len() > limit { o.subrange(0, limit as int) } else { o };
        assert(r == top.map_values(|i: int| rows[i]));
        assert forall|i: int| 0 <= i < r.len() implies rows.contains(#[trigger] r[i]) && score_spec(r[i].1, terms) > 0 by {
            assert(top[i] == o[i]);
            assert(r[i] == rows[o[i]]);
            assert(sc[o[i]] == score_spec(rows[o[i]].1, terms));
        }
        assert forall|i: int, j: int| 0 <= i < j < r.len() implies score_spec(#[trigger] r[i].1, terms) >= score_spec(#[trigger] r[j].1, terms) by {
            assert(top[i] == o[i] && top[j] == o[j]);
            assert(r[i] == rows[o[i]] && r[j] == rows[o[j]]);
            assert(sc[o[i]] >= sc[o[j]]);
        }
    }
}

proof fn lemma_hits_fold(hits: Seq<(Seq<char>, Seq<char>)>, allowed: Option<Seq<Seq<char>>>, limit: nat, n: int)
    requires
        0 <= n <= hits.len(),
    ensures
        hits_fold(hits, allowed, limit, n).len() <= limit,
        hits_fold(hits, allowed, limit, n).no_duplicates(),
        forall|i: int| 0 <= i < hits_fold(hits, allowed, limit, n).len() ==> {
            let h = #[trigger] hits_fold(hits, allowed, limit, n)[i];
            allowed_ok(allowed, h.0) && hits.contains(h)
        },
    decreases n,
{
    if n > 0 {
        lemma_hits_fold(hits, allowed, limit, n - 1);
        let o = hits_fold(hits, allowed, limit, n - 1);
        let h = hits[n - 1];
        if o.len() < limit && allowed_ok(allowed, h.0) && !o.contains(h) {
            let o2 = o.push(h);
            assert forall|i: int, j: int| 0 <= i < o2.len() && 0 <= j < o2.len() && i != j implies o2[i] != o2[j] by {
                if i == o.len() as int {
                    assert(o2[j] == o[j]);
                } else if j == o.len() as int {
                    assert(o2[i] == o[i]);
                } else {
                    assert(o2[i] == o[i] && o2[j] == o[j]);
                }
            }
            assert forall|i: int| 0 <= i < o2.len() implies {
                let g = #[trigger] o2[i];
                allowed_ok(allowed, g.0) && hits.contains(g)
            } by {
                if i < o.len() {
                    assert(o2[i] == o[i]);
                }
            }
        }
    }
}

proof fn lemma_allowed_filter(s: Seq<(Seq<char>, Seq<char>)>, allowed: Option<Seq<Seq<char>>>)
    ensures
        allowed_filter(s, allowed).len() <= s.len(),
        forall|i: int| 0 <= i < allowed_filter(s, allowed).len() ==> {
            let h = #[trigger] allowed_filter(s, allowed)[i];
            allowed_ok(allowed, h.0) && s.contains(h)
        },
    decreases s.len(),
{
    if s.len() > 0 {
        lemma_allowed_filter(s.drop_last(), allowed);
        let p = allowed_filter(s.drop_last(), allowed);
        assert forall|i: int| 0 <= i < allowed_filter(s, allowed).len() implies {
            let h = #[trigger] allowed_filter(s, allowed)[i];
            allowed_ok(allowed, h.0) && s.contains(h)
        } by {
            let h = allowed_filter(s, allowed)[i];
            if i < p.len() {
                assert(h == p[i]);
                let k = choose|k: int| 0 <= k < s.drop_last().len() && s.drop_last()[k] == h;
                assert(s[k] == h);
            } else {
                assert(h == s[s.len() - 1]);
            }
        }
    }
}

/// Retrieving chapter memory: nothing for a zero limit or a blank query;
/// otherwise at most `limit` entries, each from an allowed chapter and each
/// a vector hit or a stored row; the vector hits, when they are used, come
/// without repeats.
#[verifier::spinoff_prover]
pub proof fn retrieve_memory_shape(
    hits: Seq<(Seq<char>, Seq<char>)>,
    rows: Seq<(Seq<char>, Seq<char>)>,
    query: Seq<char>,
    limit: nat,
    allowed: Option<Seq<Seq<char>>>,
)
    ensures
        (limit == 0 || trim(query).len() == 0) ==> retrieve_spec(hits, rows, query, limit, allowed).len() == 0,
        retrieve_spec(hits, rows, query, limit, allowed).len() <= limit,
        forall|i: int| 0 <= i < retrieve_spec(hits, rows, query, limit, allowed).len() ==> {
            let h = #[trigger] retrieve_spec(hits, rows, query, limit, allowed)[i];
            allowed_ok(allowed, h.0) && (hits.contains(h) || rows.contains(h))
        },
        hits_fold(hits, allowed, limit, hits.len() as int).len() > 0 ==> retrieve_spec(hits, rows, query, limit, allowed).no_duplicates(),
{
    let r = retrieve_spec(hits, rows, query, limit, allowed);
    lemma_hits_fold(hits, allowed, limit, hits.len() as int);
    rank_memory_shape(rows, query, limit);
    let rk = rank_spec(rows, query, limit);
    lemma_allowed_filter(rk, allowed);
    if !(limit == 0 || trim(query).len() == 0) {
        let o = hits_fold(hits, allowed, limit, hits.len() as int);
        if o.len() == 0 {
            assert forall|i: int| 0 <= i < r.len() implies {
                let h = #[trigger] r[i];
                allowed_ok(allowed, h.0) && (hits.contains(h) || rows.contains(h))
            } by {
                let h = r[i];
                assert(h == allowed_filter(rk, allowed)[i]);
                let k = choose|k: int| 0 <= k < rk.len() && rk[k] == h;
                assert(rows.contains(rk[k]));
            }
        }
    }
}

pub(crate) proof fn lemma_ranked_distinct(sc: Seq<nat>, n: int)
    requires
        0 <= n <= sc.len(),
    ensures
        ranked(sc, n).no_duplicates(),
        forall|j: int| 0 <= j < ranked(sc, n).len() ==> 0 <= #[trigger] ranked(sc, n)[j] < n,
    decreases n,
{
    lemma_ranked_range(sc, n);
    if n > 0 {
        lemma_ranked_distinct(sc, n - 1);
        let o = ranked(sc, n - 1);
        if sc[n - 1] > 0 {
            lemma_first_lt_bound(o, sc, sc[n - 1]);
            let p = first_lt(o, sc, sc[n - 1]);
            let o2 = o.insert(p, n - 1);
            assert forall|a: int, b: int| 0 <= a < o2.len() && 0 <= b < o2.len() && a != b implies o2[a] != o2[b] by {
                if a == p {
                    if b < p { assert(o2[b] == o[b]); } else { assert(o2[b] == o[b - 1]); }
                } else if b == p {
                    if a < p { assert(o2[a] == o[a]); } else { assert(o2[a] == o[a - 1]); }
                } else {
                    let a1 = if a < p { a } else { a - 1 };
                    let b1 = if b < p { b } else { b - 1 };
                    assert(o2[a] == o[a1] && o2[b] == o[b1]);
                }
            }
        }
    }
}

proof fn lemma_push_term_keeps(t: Seq<Seq<char>>, w: Seq<char>)
    ensures
        forall|x: Seq<char>| t.contains(x) ==> push_term(t, w).contains(x),
        w.len() >= 2 ==> push_term(t, w).contains(w),
        push_term(t, w).len() <= t.len() + 1,
{
    if w.len() >= 2 && !t.contains(w) {
        let r = t.push(w);
        assert(r[t.len() as int] == w);
        assert forall|x: Seq<char>| t.contains(x) implies r.contains(x) by {
            let k = choose|k: int| 0 <= k < t.len() && t[k] == x;
            assert(r[k] == x);
        }
    }
}

proof fn lemma_push_bigrams_windows(t: Seq<Seq<char>>, c: Seq<char>, m: int)
    requires
        0 <= m <= c.len() - 1,
    ensures
        forall|x: Seq<char>| t.contains(x) ==> push_bigrams(t, c, m).contains(x),
        forall|j: int| 0 <= j < m ==> push_bigrams(t, c, m).contains(#[trigger] c.subrange(j, j + 2)),
        push_bigrams(t, c, m).len() <= t.len() + m,
    decreases m,
{
    if m > 0 {
        lemma_push_bigrams_windows(t, c, m - 1);
        let p = push_bigrams(t, c, m - 1);
        lemma_push_term_keeps(p, c.subrange(m - 1, m + 1));
    }
}

/// Every character is a CJK ideograph.
pub open spec fn all_cjk(s: Seq<char>) -> bool {
    forall|i: int| 0 <= i < s.len() ==> is_cjk(#[trigger] s[i])
}

proof fn lemma_qt_acc_all_cjk(s: Seq<char>)
    requires
        all_cjk(s),
    ensures
        qt_acc(s) == (Seq::<Seq<char>>::empty(), Seq::<char>::empty(), s),
    decreases s.len(),
{
    if s.len() > 0 {
        assert(all_cjk(s.drop_last()));
        lemma_qt_acc_all_cjk(s.drop_last());
        assert(is_cjk(s[s.len() - 1]));
        assert(s.drop_last().push(s.last()) =~= s);
    }
}

/// Terms found in a text make its score positive.
pub proof fn found_term_scores(content: Seq<char>, terms: Seq<Seq<char>>, w: Seq<char>)
    requires
        terms.contains(w),
        w.len() > 0,
        has_sub(str_lowercase(content), w),
    ensures
        score_spec(content, terms) > 0,
    decreases terms.len(),
{
    let hay = str_lowercase(content);
    if terms.last() != w {
        let k = choose|k: int| 0 <= k < terms.len() && terms[k] == w;
        assert(terms.drop_last()[k] == w);
        found_term_scores(content, terms.drop_last(), w);
    }
}

/// A query of CJK ideographs (three to 48 of them) keeps the whole run and
/// every two-character window of it among its terms, so a text holding any
/// such window (once lowercased) scores above zero.
pub proof fn cjk_query_keeps_windows(q: Seq<char>, content: Seq<char>, i: int)
    requires
        2 < q.len() <= 48,
        all_cjk(q),
    ensures
        query_terms_spec(q).contains(q),
        forall|j: int| 0 <= j < q.len() - 1 ==> query_terms_spec(q).contains(#[trigger] q.subrange(j, j + 2)),
        0 <= i < q.len() - 1 && has_sub(str_lowercase(content), q.subrange(i, i + 2)) ==> score_spec(content, query_terms_spec(q)) > 0,
{
    lemma_qt_acc_all_cjk(q);
    let t1 = push_term(Seq::<Seq<char>>::empty(), q);
    lemma_push_term_keeps(Seq::<Seq<char>>::empty(), q);
    lemma_push_bigrams_windows(t1, q, q.len() - 1);
    let t3 = flush_cjk(Seq::<Seq<char>>::empty(), q);
    assert(t3 == push_bigrams(t1, q, q.len() - 1));
    assert(t3.len() <= 48);
    assert(query_terms_spec(q) == t3);
    if 0 <= i < q.len() - 1 && has_sub(str_lowercase(content), q.subrange(i, i + 2)) {
        assert(t3.contains(q.subrange(i, i + 2)));
        found_term_scores(content, t3, q.subrange(i, i + 2));
    }
}

} // verus!
