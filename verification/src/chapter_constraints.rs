//! Beats a chapter must land: built from the outline, plot cards and cast,
//! checked against the written body by keyword overlap, and listed when
//! missing.
use vstd::prelude::*;
use crate::chapter_memory::{cviews, query_terms_chars, query_terms_spec, score_memory_chars, score_spec};
use crate::text::{
    append, append_decimal, append_str, chars_of, contains, decimal, eq_str, has_sub, is_cjk,
    is_digit, lines, lines_of, lowercase, slice, str_lowercase, string_of, take_chars, trim,
    trim_str, trimmed,
};

verus! {

/// A beat the chapter body must land.
#[derive(Debug, Clone)]
pub struct LandBeat {
    /// `outline` | `plot` | `character`
    pub kind: &'static str,
    pub title: String,
    pub text: String,
}

/// Outline-line prefix characters: list numbers and bullet marks.
pub open spec fn is_list_mark(c: char) -> bool {
    is_digit(c) || c == '.' || c == ')' || c == '、' || c == '．' || c == '）' || c == '-' || c == '•' || c == '*'
}

pub open spec fn strip_list_marks(s: Seq<char>) -> Seq<char>
    decreases s.len(),
{
    if s.len() > 0 && is_list_mark(s[0]) {
        strip_list_marks(s.drop_first())
    } else {
        s
    }
}

/// Sentence-ending punctuation that splits a one-paragraph outline.
pub open spec fn is_strong_punct(c: char) -> bool {
    "。；;！？!?\n"@.contains(c)
}

/// The pieces of `s` between strong punctuation marks.
pub open spec fn split_punct(s: Seq<char>) -> Seq<Seq<char>>
    decreases s.len(),
{
    if s.len() == 0 {
        seq![Seq::<char>::empty()]
    } else {
        let p = split_punct(s.drop_last());
        if is_strong_punct(s.last()) {
            p.push(Seq::<char>::empty())
        } else {
            p.update(p.len() - 1, p.last().push(s.last()))
        }
    }
}

/// Outline lines without list marks, trimmed, keeping those of four or more
/// characters.
pub open spec fn outline_lines(ls: Seq<Seq<char>>) -> Seq<Seq<char>>
    decreases ls.len(),
{
    if ls.len() == 0 {
        Seq::empty()
    } else {
        let p = outline_lines(ls.drop_last());
        let l = trim(strip_list_marks(trim(ls.last())));
        if l.len() >= 4 { p.push(l) } else { p }
    }
}

/// Punctuation pieces, trimmed, keeping those of six or more characters.
pub open spec fn long_pieces(ps: Seq<Seq<char>>) -> Seq<Seq<char>>
    decreases ps.len(),
{
    if ps.len() == 0 {
        Seq::empty()
    } else {
        let p = long_pieces(ps.drop_last());
        let l = trim(ps.last());
        if l.len() >= 6 { p.push(l) } else { p }
    }
}

pub open spec fn first_n(s: Seq<Seq<char>>, n: int) -> Seq<Seq<char>> {
    if s.len() > n { s.subrange(0, n) } else { s }
}

pub open spec fn outline_beats_spec(outline: Seq<char>) -> Seq<Seq<char>> {
    let t = trim(outline);
    let ls = outline_lines(lines(t));
    let ps = long_pieces(split_punct(t));
    if t.len() == 0 {
        Seq::empty()
    } else if ls.len() >= 2 {
        first_n(ls, 10)
    } else if ps.len() >= 2 {
        first_n(ps, 8)
    } else {
        seq![take_chars(t, 200)]
    }
}

pub open spec fn sviews(v: Seq<String>) -> Seq<Seq<char>> {
    v.map_values(|x: String| x@)
}

pub fn strip_list_marks_exec(s: &Vec<char>) -> (r: Vec<char>)
    ensures
        r@ == strip_list_marks(s@),
{
    let mut a: usize = 0;
    assert(s@.subrange(0, s.len() as int) =~= s@);
    while a < s.len() && (('0' <= s[a] && s[a] <= '9') || s[a] == '.' || s[a] == ')' || s[a] == '、'
        || s[a] == '．' || s[a] == '）' || s[a] == '-' || s[a] == '•' || s[a] == '*')
        invariant
            a <= s.len(),
            strip_list_marks(s@) == strip_list_marks(s@.subrange(a as int, s.len() as int)),
        decreases s.len() - a,
    {
        assert(s@.subrange(a as int, s.len() as int).drop_first() =~= s@.subrange(a + 1, s.len() as int));
        a += 1;
    }
    slice(s, a, s.len())
}

fn split_punct_exec(s: &Vec<char>) -> (r: Vec<Vec<char>>)
    ensures
        cviews(r@) == split_punct(s@),
{
    let punct = chars_of("。；;！？!?\n");
    let mut parts: Vec<Vec<char>> = Vec::new();
    let mut cur: Vec<char> = Vec::new();
    let mut i: usize = 0;
    while i < s.len()
        invariant
            i <= s.len(),
            punct@ == "。；;！？!?\n"@,
            cviews(parts@).push(cur@) == split_punct(s@.subrange(0, i as int)),
        decreases s.len() - i,
    {
        let ghost pre = s@.subrange(0, i as int);
        assert(s@.subrange(0, i + 1).drop_last() =~= pre);
        let ghost before = cviews(parts@).push(cur@);
        if crate::text::contains_char(&punct, s[i]) {
            let ghost old_parts = parts@;
            parts.push(cur);
            cur = Vec::new();
            assert(cviews(parts@).push(cur@) =~= before.push(Seq::<char>::empty()));
        } else {
            cur.push(s[i]);
            assert(cviews(parts@).push(cur@) =~= before.update(before.len() - 1, before.last().push(s@[i as int])));
        }
        i += 1;
    }
    assert(s@.subrange(0, s.len() as int) =~= s@);
    let ghost prev = parts@;
    parts.push(cur);
    assert(cviews(parts@) =~= cviews(prev).push(cur@));
    parts
}

fn to_strings_first(v: &Vec<Vec<char>>, n: usize) -> (r: Vec<String>)
    ensures
        sviews(r@) == first_n(cviews(v@), n as int),
{
    let m = if v.len() > n { n } else { v.len() };
    let mut out: Vec<String> = Vec::new();
    let mut i: usize = 0;
    while i < m
        invariant
            i <= m <= v.len(),
            m == (if v.len() > n { n } else { v.len() }),
            sviews(out@) == cviews(v@).subrange(0, i as int),
        decreases m - i,
    {
        let st = string_of(&v[i]);
        assert(st@ == cviews(v@)[i as int]);
        let ghost prev = out@;
        out.push(st);
        assert(sviews(out@) =~= sviews(prev).push(st@));
        i += 1;
    }
    assert(cviews(v@).subrange(0, v.len() as int) =~= cviews(v@));
    out
}

/// The outline split into ordered beats: its lines (list marks removed, at
/// least four characters; at most ten) when there are two or more, else its
/// sentences (at least six characters; at most eight) when there are two or
/// more, else the first 200 characters as one beat.
pub fn outline_beats(outline: &str) -> (r: Vec<String>)
    ensures
        sviews(r@) == outline_beats_spec(outline@),
{
    let t = trim_str(outline);
    if t.len() == 0 {
        let r: Vec<String> = Vec::new();
        assert(sviews(r@) =~= Seq::<Seq<char>>::empty());
        return r;
    }
    let ls = lines_of(&t);
    let ghost lsv = lines(t@);
    let mut kept: Vec<Vec<char>> = Vec::new();
    let mut i: usize = 0;
    assert(lsv.subrange(0, 0) =~= Seq::<Seq<char>>::empty());
    assert(cviews(kept@) =~= Seq::<Seq<char>>::empty());
    while i < ls.len()
        invariant
            i <= ls@.len() == lsv.len(),
            forall|k: int| 0 <= k < ls@.len() ==> (#[trigger] ls@[k])@ == lsv[k],
            cviews(kept@) == outline_lines(lsv.subrange(0, i as int)),
        decreases ls.len() - i,
    {
        assert(lsv.subrange(0, i + 1).drop_last() =~= lsv.subrange(0, i as int));
        assert(ls@[i as int]@ == lsv[i as int]);
        let l = trimmed(&strip_list_marks_exec(&trimmed(&ls[i])));
        if l.len() >= 4 {
            let ghost prev = kept@;
            kept.push(l);
            assert(cviews(kept@) =~= cviews(prev).push(l@));
        }
        i += 1;
    }
    assert(lsv.subrange(0, lsv.len() as int) =~= lsv);
    if kept.len() >= 2 {
        return to_strings_first(&kept, 10);
    }
    let ps = split_punct_exec(&t);
    let ghost psv = split_punct(t@);
    let mut pieces: Vec<Vec<char>> = Vec::new();
    let mut k: usize = 0;
    assert(psv.subrange(0, 0) =~= Seq::<Seq<char>>::empty());
    assert(cviews(pieces@) =~= Seq::<Seq<char>>::empty());
    while k < ps.len()
        invariant
            k <= ps@.len() == psv.len(),
            cviews(ps@) == psv,
            cviews(pieces@) == long_pieces(psv.subrange(0, k as int)),
        decreases ps.len() - k,
    {
        assert(psv.subrange(0, k + 1).drop_last() =~= psv.subrange(0, k as int));
        assert(ps@[k as int]@ == psv[k as int]);
        let l = trimmed(&ps[k]);
        if l.len() >= 6 {
            let ghost prev = pieces@;
            pieces.push(l);
            assert(cviews(pieces@) =~= cviews(prev).push(l@));
        }
        k += 1;
    }
    assert(psv.subrange(0, psv.len() as int) =~= psv);
    if pieces.len() >= 2 {
        return to_strings_first(&pieces, 8);
    }
    let n = if t.len() > 200 { 200 } else { t.len() };
    let head = slice(&t, 0, n);
    assert(t@.subrange(0, t.len() as int) =~= t@);
    let mut r: Vec<String> = Vec::new();
    r.push(string_of(&head));
    assert(sviews(r@) =~= seq![take_chars(t@, 200)]);
    r
}


pub const CONTRACT_EMPTY_ZH: &'static str = "【必须落地】（本章无额外剧情卡/大纲节拍，仍须合理推进。）\n";
pub const CONTRACT_EMPTY_EN: &'static str = "[Must land] (no extra plot/outline beats — still advance the chapter.)\n";
pub const CONTRACT_HEAD_ZH: &'static str = "【必须落地——正文中须实际发生或明确推进，禁止只点名】\n";
pub const CONTRACT_HEAD_EN: &'static str = "[Must land — must occur or clearly advance in the body; no name-dropping]\n";

/// The label of a beat kind in the contract.
pub open spec fn kind_tag(zh: bool, kind: Seq<char>) -> Seq<char> {
    if kind == "plot"@ {
        if zh { "剧情卡"@ } else { "plot"@ }
    } else if kind == "character"@ {
        if zh { "人物"@ } else { "cast"@ }
    } else {
        if zh { "大纲"@ } else { "outline"@ }
    }
}

/// `"{n}. [{tag}] {title} — {text}\n"`.
pub open spec fn contract_line(zh: bool, n: nat, b: LandBeat) -> Seq<char> {
    decimal(n) + ". ["@ + kind_tag(zh, b.kind@) + "] "@ + b.title@ + " — "@ + b.text@ + "\n"@
}

pub open spec fn contract_lines(zh: bool, beats: Seq<LandBeat>, k: int) -> Seq<char>
    decreases k,
{
    if k <= 0 {
        Seq::empty()
    } else {
        contract_lines(zh, beats, k - 1) + contract_line(zh, k as nat, beats[k - 1])
    }
}

pub open spec fn format_contract_spec(zh: bool, beats: Seq<LandBeat>) -> Seq<char> {
    if beats.len() == 0 {
        if zh { CONTRACT_EMPTY_ZH@ } else { CONTRACT_EMPTY_EN@ }
    } else {
        (if zh { CONTRACT_HEAD_ZH@ } else { CONTRACT_HEAD_EN@ }) + contract_lines(zh, beats, beats.len() as int)
    }
}

fn kind_tag_exec(zh: bool, kind: &str) -> (r: &'static str)
    ensures
        r@ == kind_tag(zh, kind@),
{
    let k = chars_of(kind);
    if eq_str(&k, "plot") {
        if zh { "剧情卡" } else { "plot" }
    } else if eq_str(&k, "character") {
        if zh { "人物" } else { "cast" }
    } else {
        if zh { "大纲" } else { "outline" }
    }
}

/// The "must land" block of a chapter prompt: a numbered line per beat with
/// its kind, title and text.
pub fn format_contract(zh: bool, beats: &[LandBeat]) -> (r: String)
    ensures
        r@ == format_contract_spec(zh, beats@),
{
    if beats.len() == 0 {
        return String::from_str(if zh { CONTRACT_EMPTY_ZH } else { CONTRACT_EMPTY_EN });
    }
    let mut out = chars_of(if zh { CONTRACT_HEAD_ZH } else { CONTRACT_HEAD_EN });
    let ghost head = out@;
    let mut i: usize = 0;
    while i < beats.len()
        invariant
            i <= beats@.len(),
            out@ == head + contract_lines(zh, beats@, i as int),
        decreases beats.len() - i,
    {
        let b = &beats[i];
        let ghost before = out@;
        append_decimal(&mut out, (i + 1) as u64);
        append_str(&mut out, ". [");
        append_str(&mut out, kind_tag_exec(zh, b.kind));
        append_str(&mut out, "] ");
        append(&mut out, &chars_of(b.title.as_str()));
        append_str(&mut out, " — ");
        append(&mut out, &chars_of(b.text.as_str()));
        append_str(&mut out, "\n");
        assert(out@ =~= before + contract_line(zh, (i + 1) as nat, beats@[i as int]));
        i += 1;
    }
    string_of(&out)
}

/// `c` keeps only CJK characters.
pub open spec fn cjk_only(s: Seq<char>) -> Seq<char>
    decreases s.len(),
{
    if s.len() == 0 {
        s
    } else if is_cjk(s.last()) {
        cjk_only(s.drop_last()).push(s.last())
    } else {
        cjk_only(s.drop_last())
    }
}

/// Some three-character window of `c` starting at or after `from` occurs in `hay`.
pub open spec fn some_trigram(hay: Seq<char>, c: Seq<char>, from: int) -> bool {
    exists|j: int| from <= j && j + 3 <= c.len() && #[trigger] has_sub(hay, c.subrange(j, j + 3))
}

pub open spec fn beat_landed_spec(body: Seq<char>, beat: LandBeat) -> bool {
    let hay = str_lowercase(body);
    if beat.kind@ == "character"@ {
        let name = trim(beat.title@);
        name.len() == 0 || has_sub(hay, str_lowercase(name)) || (take_chars(name, 2).len() >= 2
            && has_sub(hay, str_lowercase(take_chars(name, 2))))
    } else if beat.kind@ == "plot"@ {
        let title = trim(beat.title@);
        let cjk = cjk_only(beat.text@);
        let terms = query_terms_spec(beat.text@);
        if title.len() >= 2 && has_sub(hay, str_lowercase(title)) {
            true
        } else if cjk.len() < 3 {
            terms.len() > 0 && score_spec(body, terms) >= 1
        } else {
            some_trigram(hay, cjk, (cjk.len() / 4) as int)
        }
    } else {
        let terms = query_terms_spec(beat.text@);
        terms.len() == 0 || score_spec(body, terms) >= (if terms.len() >= 6 { 2nat } else { 1nat })
    }
}

/// Whether the body likely covers the beat: a cast member's name (or its
/// first two characters) appears; a plot card's title or a three-character
/// CJK run from the latter three quarters of its text appears; an outline
/// beat shares one keyword (two when it has six or more).
pub fn beat_landed(body: &str, beat: &LandBeat) -> (r: bool)
    ensures
        r == beat_landed_spec(body@, *beat),
{
    let bv = chars_of(body);
    let hay = lowercase(&bv);
    let kind = chars_of(beat.kind);
    if eq_str(&kind, "character") {
        let name = trim_str(beat.title.as_str());
        if name.len() == 0 {
            return true;
        }
        let name_l = lowercase(&name);
        if contains(&hay, &name_l) {
            return true;
        }
        let n = if name.len() > 2 { 2 } else { name.len() };
        let prefix = slice(&name, 0, n);
        assert(prefix@ == take_chars(name@, 2));
        return prefix.len() >= 2 && contains(&hay, &lowercase(&prefix));
    }
    if eq_str(&kind, "plot") {
        let title = trim_str(beat.title.as_str());
        if title.len() >= 2 && contains(&hay, &lowercase(&title)) {
            return true;
        }
        let tv = chars_of(beat.text.as_str());
        let mut cjk: Vec<char> = Vec::new();
        let mut i: usize = 0;
        while i < tv.len()
            invariant
                i <= tv.len(),
                cjk@ == cjk_only(tv@.subrange(0, i as int)),
            decreases tv.len() - i,
        {
            assert(tv@.subrange(0, i + 1).drop_last() =~= tv@.subrange(0, i as int));
            if '\u{4e00}' <= tv[i] && tv[i] <= '\u{9fff}' {
                cjk.push(tv[i]);
            }
            i += 1;
        }
        assert(tv@.subrange(0, tv.len() as int) =~= tv@);
        if cjk.len() < 3 {
            let terms = query_terms_chars(&tv);
            return terms.len() > 0 && score_memory_chars(&bv, &terms) >= 1;
        }
        let start = cjk.len() / 4;
        assert(beat_landed_spec(body@, *beat) == some_trigram(hay@, cjk@, start as int));
        let mut j = start;
        while j < cjk.len() && cjk.len() - j >= 3
            invariant
                start <= j <= cjk.len(),
                beat_landed_spec(body@, *beat) == some_trigram(hay@, cjk@, start as int),
                cjk@ == cjk_only(beat.text@),
                hay@ == str_lowercase(body@),
                start == cjk@.len() / 4,
                forall|m: int| start <= m < j ==> !#[trigger] has_sub(hay@, cjk@.subrange(m, m + 3)),
            decreases cjk.len() - j,
        {
            let w = slice(&cjk, j, j + 3);
            if contains(&hay, &w) {
                assert(has_sub(hay@, cjk@.subrange(j as int, j + 3)));
                return true;
            }
            j += 1;
        }
        assert(!some_trigram(hay@, cjk@, start as int)) by {
            if some_trigram(hay@, cjk@, start as int) {
                let m = choose|m: int| start <= m && m + 3 <= cjk@.len() && #[trigger] has_sub(hay@, cjk@.subrange(m, m + 3));
                assert(m < j);
            }
        }
        return false;
    }
    let terms = query_terms_chars(&chars_of(beat.text.as_str()));
    if terms.len() == 0 {
        return true;
    }
    let score = score_memory_chars(&bv, &terms);
    let need: usize = if terms.len() >= 6 { 2 } else { 1 };
    score >= need
}

/// The beats whose text the body does not land, in order.
pub open spec fn missing_spec(body: Seq<char>, beats: Seq<LandBeat>) -> Seq<LandBeat>
    decreases beats.len(),
{
    if beats.len() == 0 {
        Seq::empty()
    } else {
        let p = missing_spec(body, beats.drop_last());
        if beat_landed_spec(body, beats.last()) { p } else { p.push(beats.last()) }
    }
}

pub open spec fn derefs<'a>(v: Seq<&'a LandBeat>) -> Seq<LandBeat> {
    v.map_values(|b: &'a LandBeat| *b)
}

/// The beats the body does not land, in their original order.
pub fn missing_beats<'a>(body: &str, beats: &'a [LandBeat]) -> (r: Vec<&'a LandBeat>)
    ensures
        derefs(r@) == missing_spec(body@, beats@),
{
    let mut out: Vec<&'a LandBeat> = Vec::new();
    let mut i: usize = 0;
    assert(beats@.subrange(0, 0) =~= Seq::<LandBeat>::empty());
    assert(derefs(out@) =~= Seq::<LandBeat>::empty());
    while i < beats.len()
        invariant
            i <= beats@.len(),
            derefs(out@) == missing_spec(body@, beats@.subrange(0, i as int)),
        decreases beats.len() - i,
    {
        assert(beats@.subrange(0, i + 1).drop_last() =~= beats@.subrange(0, i as int));
        let b: &'a LandBeat = &beats[i];
        if !beat_landed(body, b) {
            let ghost prev = out@;
            out.push(b);
            assert(derefs(out@) =~= derefs(prev).push(*b));
        }
        i += 1;
    }
    assert(beats@.subrange(0, beats@.len() as int) =~= beats@);
    out
}

pub const MISSING_HEAD_ZH: &'static str = "【未落地项——须补写入正文】\n";
pub const MISSING_HEAD_EN: &'static str = "[Missing — weave into the body]\n";

/// `"{n}. {title} — {text}\n"`.
pub open spec fn missing_line(n: nat, b: LandBeat) -> Seq<char> {
    decimal(n) + ". "@ + b.title@ + " — "@ + b.text@ + "\n"@
}

pub open spec fn missing_lines(beats: Seq<LandBeat>, k: int) -> Seq<char>
    decreases k,
{
    if k <= 0 {
        Seq::empty()
    } else {
        missing_lines(beats, k - 1) + missing_line(k as nat, beats[k - 1])
    }
}

/// The list of beats still to weave into the body, numbered from 1.
pub fn format_missing(zh: bool, missing: &[&LandBeat]) -> (r: String)
    ensures
        r@ == (if zh { MISSING_HEAD_ZH@ } else { MISSING_HEAD_EN@ }) + missing_lines(derefs(missing@), missing@.len() as int),
{
    let mut out = chars_of(if zh { MISSING_HEAD_ZH } else { MISSING_HEAD_EN });
    let ghost head = out@;
    let ghost ms = derefs(missing@);
    let mut i: usize = 0;
    while i < missing.len()
        invariant
            i <= missing@.len(),
            ms == derefs(missing@),
            out@ == head + missing_lines(ms, i as int),
        decreases missing.len() - i,
    {
        let b: &LandBeat = missing[i];
        assert(*b == ms[i as int]);
        let ghost before = out@;
        append_decimal(&mut out, (i + 1) as u64);
        append_str(&mut out, ". ");
        append(&mut out, &chars_of(b.title.as_str()));
        append_str(&mut out, " — ");
        append(&mut out, &chars_of(b.text.as_str()));
        append_str(&mut out, "\n");
        assert(out@ =~= before + missing_line((i + 1) as nat, ms[i as int]));
        i += 1;
    }
    string_of(&out)
}

proof fn lemma_outline_lines_long(ls: Seq<Seq<char>>)
    ensures
        forall|i: int| 0 <= i < outline_lines(ls).len() ==> (#[trigger] outline_lines(ls)[i]).len() >= 4,
    decreases ls.len(),
{
    if ls.len() > 0 {
        lemma_outline_lines_long(ls.drop_last());
        let p = outline_lines(ls.drop_last());
        assert forall|i: int| 0 <= i < outline_lines(ls).len() implies (#[trigger] outline_lines(ls)[i]).len() >= 4 by {
            if i < p.len() {
                assert(outline_lines(ls)[i] == p[i]);
            }
        }
    }
}

proof fn lemma_long_pieces_long(ps: Seq<Seq<char>>)
    ensures
        forall|i: int| 0 <= i < long_pieces(ps).len() ==> (#[trigger] long_pieces(ps)[i]).len() >= 6,
    decreases ps.len(),
{
    if ps.len() > 0 {
        lemma_long_pieces_long(ps.drop_last());
        let p = long_pieces(ps.drop_last());
        assert forall|i: int| 0 <= i < long_pieces(ps).len() implies (#[trigger] long_pieces(ps)[i]).len() >= 6 by {
            if i < p.len() {
                assert(long_pieces(ps)[i] == p[i]);
            }
        }
    }
}

/// The beats of an outline: none exactly when the trimmed outline is empty,
/// at most ten, none empty, and a lone beat is the first 200 characters of
/// the trimmed outline.
pub proof fn outline_beats_shape(outline: Seq<char>)
    ensures
        (trim(outline).len() == 0) <==> (outline_beats_spec(outline).len() == 0),
        outline_beats_spec(outline).len() <= 10,
        forall|i: int| 0 <= i < outline_beats_spec(outline).len() ==> (#[trigger] outline_beats_spec(outline)[i]).len() > 0,
        outline_beats_spec(outline).len() == 1 ==> outline_beats_spec(outline)[0] == take_chars(trim(outline), 200),
{
    let t = trim(outline);
    let ls = outline_lines(lines(t));
    let ps = long_pieces(split_punct(t));
    lemma_outline_lines_long(lines(t));
    lemma_long_pieces_long(split_punct(t));
    let b = outline_beats_spec(outline);
    if t.len() > 0 {
        if ls.len() >= 2 {
            assert forall|i: int| 0 <= i < b.len() implies (#[trigger] b[i]).len() > 0 by {
                assert(b[i] == ls[i]);
            }
        } else if ps.len() >= 2 {
            assert forall|i: int| 0 <= i < b.len() implies (#[trigger] b[i]).len() > 0 by {
                assert(b[i] == ps[i]);
            }
        } else {
            assert(b[0] == take_chars(t, 200));
            assert(b[0].len() > 0);
        }
    }
}

proof fn lemma_contract_lines_push(zh: bool, beats: Seq<LandBeat>, b: LandBeat, k: int)
    requires
        0 <= k <= beats.len(),
    ensures
        contract_lines(zh, beats.push(b), k) == contract_lines(zh, beats, k),
    decreases k,
{
    if k > 0 {
        lemma_contract_lines_push(zh, beats, b, k - 1);
        assert(beats.push(b)[k - 1] == beats[k - 1]);
    }
}

/// Adding a beat to a non-empty contract adds exactly its numbered line at
/// the end and leaves the rest as it was.
pub proof fn contract_appends_one_line(zh: bool, beats: Seq<LandBeat>, b: LandBeat)
    requires
        beats.len() > 0,
    ensures
        format_contract_spec(zh, beats.push(b)) == format_contract_spec(zh, beats) + contract_line(zh, (beats.len() + 1) as nat, b),
{
    lemma_contract_lines_push(zh, beats, b, beats.len() as int);
    assert(beats.push(b)[beats.len() as int] == b);
}

/// A cast member counts as landed when the chapter names them by their
/// first two characters (a short given name), ignoring case, as well as by
/// their full name; so such a beat is never reported missing.
pub proof fn short_name_lands(body: Seq<char>, beat: LandBeat, beats: Seq<LandBeat>)
    requires
        beat.kind@ == "character"@,
        trim(beat.title@).len() >= 2,
        has_sub(str_lowercase(body), str_lowercase(trim(beat.title@).subrange(0, 2)))
            || has_sub(str_lowercase(body), str_lowercase(trim(beat.title@))),
    ensures
        beat_landed_spec(body, beat),
        missing_spec(body, beats.push(beat)) == missing_spec(body, beats),
{
    assert(take_chars(trim(beat.title@), 2) == trim(beat.title@).subrange(0, 2));
    assert(beats.push(beat).drop_last() =~= beats);
}

} // verus!
