//! Context budgets and knowledge retrieval for writing and outline prompts:
//! keyword recall, rule-based rerank, and capped card blocks.
use vstd::prelude::*;
use crate::chapter_memory::{
    lemma_rank_len, cviews, pviews, query_terms_chars, query_terms_spec, rank_memory, rank_spec, score_memory_chars,
    score_spec, sviews,
};
use crate::text::{
    append, append_str, chars_of, contains, contains_char, contains_str, has_sub, join, lines,
    lines_of, lowercase, slice, str_lowercase, string_of, take_chars, trim, trim_str, trimmed,
};

verus! {

/// Per knowledge-card extract cap (chars).
pub const KNOWLEDGE_CARD_EXTRACT_CAP: usize = 500;
/// Root-linked knowledge cards total budget.
pub const ROOT_KNOWLEDGE_TOTAL_CAP: usize = 2000;
/// Knowledge retrieval: top-k chunks (`search_knowledge`).
pub const CANON_RETRIEVE_K: usize = 5;
/// Recall pool before rule rerank (also at least `k * 4`).
pub const CANON_RECALL_N: usize = 20;
/// Knowledge retrieval: chars per chunk.
pub const CANON_CHUNK_CAP: usize = 400;
/// Chapter memory facts injected into refine/outline.
pub const MEMORY_RETRIEVE_K: usize = 6;
pub const MEMORY_FACT_CAP: usize = 300;
pub const MEMORY_BLOCK_CAP: usize = 2000;
/// Knowledge cards total in chapter_context.
pub const CHAPTER_KNOWLEDGE_TOTAL_CAP: usize = 2000;
/// Local MiniLM output width (`paraphrase-multilingual-MiniLM-L12-v2`).
pub const MINILM_DIMS: usize = 384;

/// The first `n` characters, with `…` appended when something was cut.
pub open spec fn truncate_spec(s: Seq<char>, n: nat) -> Seq<char> {
    if s.len() > n { s.subrange(0, n as int) + "…"@ } else { s }
}

pub fn truncate_chars_vec(s: &Vec<char>, n: usize) -> (r: Vec<char>)
    ensures
        r@ == truncate_spec(s@, n as nat),
{
    if s.len() > n {
        let mut t = slice(s, 0, n);
        append_str(&mut t, "…");
        t
    } else {
        s.clone()
    }
}

/// The first `n` characters of `s`, with `…` appended when something was cut.
pub fn truncate_chars(s: &str, n: usize) -> (r: String)
    ensures
        r@ == truncate_spec(s@, n as nat),
{
    string_of(&truncate_chars_vec(&chars_of(s), n))
}

pub open spec fn assembled_spec(s: Seq<char>) -> bool {
    let t = trim(s);
    ||| t.len() > 1200
    ||| has_sub(t, "【须考虑"@)
    ||| has_sub(t, "[Materials"@)
    ||| has_sub(t, "须考虑的材料"@)
    ||| has_sub(t, "Materials & expectations"@)
    ||| has_sub(t, "【根参考"@)
    ||| has_sub(t, "[Root reference"@)
    ||| has_sub(t, "## 根节点与全书设定"@)
    ||| has_sub(t, "## Root & novel setup"@)
    ||| has_sub(t, "## 当前章大纲"@)
    ||| has_sub(t, "## Current chapter outline"@)
}

/// The client pasted a whole assembled outline brief (long, or carrying one
/// of the brief's section headings).
pub fn looks_like_assembled_brief(s: &str) -> (r: bool)
    ensures
        r == assembled_spec(s@),
{
    let t = trim_str(s);
    t.len() > 1200 || contains_str(&t, "【须考虑") || contains_str(&t, "[Materials")
        || contains_str(&t, "须考虑的材料") || contains_str(&t, "Materials & expectations")
        || contains_str(&t, "【根参考") || contains_str(&t, "[Root reference")
        || contains_str(&t, "## 根节点与全书设定") || contains_str(&t, "## Root & novel setup")
        || contains_str(&t, "## 当前章大纲") || contains_str(&t, "## Current chapter outline")
}

pub open spec fn merge_expectation_spec(assembled: Seq<char>, brief: Seq<char>, zh: bool) -> Seq<char> {
    let e = trim(brief);
    if e.len() == 0 {
        assembled
    } else if assembled_spec(e) {
        e
    } else if zh {
        assembled + "\n\n【用户对本批的期望】\n"@ + e + "\n"@
    } else {
        assembled + "\n\n[User expectations for this batch]\n"@ + e + "\n"@
    }
}

/// The assembled materials with the user's short expectation appended; a
/// pasted full brief replaces them, and an empty one leaves them as they are.
pub fn merge_expectation_into_assembled(assembled: String, user_brief: &str, zh: bool) -> (r: String)
    ensures
        r@ == merge_expectation_spec(assembled@, user_brief@, zh),
{
    let e = trim_str(user_brief);
    if e.len() == 0 {
        return assembled;
    }
    let es = string_of(&e);
    if looks_like_assembled_brief(es.as_str()) {
        return es;
    }
    let mut out = chars_of(assembled.as_str());
    if zh {
        append_str(&mut out, "\n\n【用户对本批的期望】\n");
    } else {
        append_str(&mut out, "\n\n[User expectations for this batch]\n");
    }
    append(&mut out, &e);
    append_str(&mut out, "\n");
    string_of(&out)
}

pub open spec fn recall_pool_spec(k: nat) -> nat {
    let k4: nat = if k * 4 <= usize::MAX { k * 4 } else { usize::MAX as nat };
    let a: nat = if CANON_RECALL_N >= k4 { CANON_RECALL_N as nat } else { k4 };
    if a >= k { a } else { k }
}

/// Size of the keyword recall pool: at least 20 and at least `4k`.
pub fn recall_pool_size(k: usize) -> (r: usize)
    ensures
        r == recall_pool_spec(k as nat),
{
    let k4 = if k <= usize::MAX / 4 { k * 4 } else { usize::MAX };
    let a = if CANON_RECALL_N >= k4 { CANON_RECALL_N } else { k4 };
    if a >= k { a } else { k }
}


/// Strict lexicographic order of character sequences (the order of `String`
/// comparison: UTF-8 byte order is code point order).
pub open spec fn lex_lt(a: Seq<char>, b: Seq<char>) -> bool
    decreases a.len(),
{
    if b.len() == 0 {
        false
    } else if a.len() == 0 {
        true
    } else if a[0] < b[0] {
        true
    } else if a[0] > b[0] {
        false
    } else {
        lex_lt(a.drop_first(), b.drop_first())
    }
}

pub fn lex_lt_exec(a: &Vec<char>, b: &Vec<char>) -> (r: bool)
    ensures
        r == lex_lt(a@, b@),
{
    let mut i: usize = 0;
    assert(a@.subrange(0, a.len() as int) =~= a@);
    assert(b@.subrange(0, b.len() as int) =~= b@);
    while i < a.len() && i < b.len() && a[i] == b[i]
        invariant
            i <= a.len(),
            i <= b.len(),
            lex_lt(a@, b@) == lex_lt(a@.subrange(i as int, a.len() as int), b@.subrange(i as int, b.len() as int)),
        decreases a.len() - i,
    {
        assert(a@.subrange(i as int, a.len() as int).drop_first() =~= a@.subrange(i + 1, a.len() as int));
        assert(b@.subrange(i as int, b.len() as int).drop_first() =~= b@.subrange(i + 1, b.len() as int));
        i += 1;
    }
    if i == b.len() {
        false
    } else if i == a.len() {
        true
    } else {
        a[i] < b[i]
    }
}

/// `e` goes after `x` in (score descending, id ascending) order.
pub open spec fn after(e: (Seq<char>, nat), x: (Seq<char>, nat)) -> bool {
    e.1 < x.1 || (e.1 == x.1 && lex_lt(x.0, e.0))
}

pub open spec fn ins_pos(sorted: Seq<(Seq<char>, nat)>, x: (Seq<char>, nat)) -> int
    decreases sorted.len(),
{
    if sorted.len() == 0 {
        0
    } else if after(sorted[0], x) {
        0
    } else {
        1 + ins_pos(sorted.drop_first(), x)
    }
}

/// The first `n` items sorted by score (descending), then id (ascending);
/// a stable sort.
pub open spec fn sort_scored(items: Seq<(Seq<char>, nat)>, n: int) -> Seq<(Seq<char>, nat)>
    decreases n,
{
    if n <= 0 {
        Seq::empty()
    } else {
        let o = sort_scored(items, n - 1);
        o.insert(ins_pos(o, items[n - 1]), items[n - 1])
    }
}

proof fn lemma_ins_pos(sorted: Seq<(Seq<char>, nat)>, x: (Seq<char>, nat), p: int)
    requires
        0 <= p <= sorted.len(),
        forall|j: int| 0 <= j < p ==> !after(sorted[j], x),
        p < sorted.len() ==> after(sorted[p], x),
    ensures
        ins_pos(sorted, x) == p,
    decreases p,
{
    if p > 0 {
        lemma_ins_pos(sorted.drop_first(), x, p - 1);
    }
}

proof fn lemma_sort_len(items: Seq<(Seq<char>, nat)>, n: int)
    requires
        0 <= n,
    ensures
        sort_scored(items, n).len() == n,
        0 <= ins_pos(sort_scored(items, n), items[n]) <= n,
    decreases n,
{
    if n > 0 {
        lemma_sort_len(items, n - 1);
    }
    lemma_ins_pos_bound(sort_scored(items, n), items[n]);
}

proof fn lemma_ins_pos_bound(sorted: Seq<(Seq<char>, nat)>, x: (Seq<char>, nat))
    ensures
        0 <= ins_pos(sorted, x) <= sorted.len(),
    decreases sorted.len(),
{
    if sorted.len() > 0 {
        lemma_ins_pos_bound(sorted.drop_first(), x);
    }
}

pub open spec fn sc_views(v: Seq<(Vec<char>, usize)>) -> Seq<(Seq<char>, nat)> {
    v.map_values(|p: (Vec<char>, usize)| (p.0@, p.1 as nat))
}

/// Stable sort by score (descending), then id (ascending).
pub fn sort_by_score_then_id(items: &Vec<(Vec<char>, usize)>) -> (r: Vec<(Vec<char>, usize)>)
    ensures
        sc_views(r@) == sort_scored(sc_views(items@), items@.len() as int),
{
    let ghost iv = sc_views(items@);
    let mut out: Vec<(Vec<char>, usize)> = Vec::new();
    let mut i: usize = 0;
    assert(sc_views(out@) =~= Seq::<(Seq<char>, nat)>::empty());
    while i < items.len()
        invariant
            i <= items@.len(),
            iv == sc_views(items@),
            sc_views(out@) == sort_scored(iv, i as int),
        decreases items.len() - i,
    {
        let ghost o = sc_views(out@);
        let x = &items[i];
        assert(iv[i as int] == (x.0@, x.1 as nat));
        let mut p: usize = 0;
        while p < out.len() && !(out[p].1 < x.1 || (out[p].1 == x.1 && lex_lt_exec(&x.0, &out[p].0)))
            invariant
                p <= out@.len(),
                o == sc_views(out@),
                iv[i as int] == (x.0@, x.1 as nat),
                forall|j: int| 0 <= j < p ==> !after(o[j], iv[i as int]),
            decreases out.len() - p,
        {
            p += 1;
        }
        proof {
            lemma_ins_pos(o, iv[i as int], p as int);
        }
        out.insert(p, (x.0.clone(), x.1));
        assert(sc_views(out@) =~= o.insert(p as int, iv[i as int]));
        i += 1;
    }
    out
}

pub open spec fn head_line(content: Seq<char>) -> Seq<char> {
    if lines(content).len() > 0 { lines(content)[0] } else { Seq::empty() }
}

pub open spec fn is_chapter_head(head: Seq<char>) -> bool {
    head.contains('章') || (head.len() > 0 && head[0] == '【') || (head.len() > 0 && head[0] == '#')
}

/// Weight of the longer terms found in `hay`: one per term of two or more
/// characters, one more for three or more.
pub open spec fn extra_hits(hay: Seq<char>, terms: Seq<Seq<char>>) -> nat
    decreases terms.len(),
{
    if terms.len() == 0 {
        0
    } else {
        let t = terms.last();
        extra_hits(hay, terms.drop_last())
            + if t.len() >= 2 && has_sub(hay, t) { if t.len() >= 3 { 2nat } else { 1nat } } else { 0nat }
    }
}

/// Number of non-empty terms found in `head`.
pub open spec fn head_hits(head: Seq<char>, terms: Seq<Seq<char>>) -> nat
    decreases terms.len(),
{
    if terms.len() == 0 {
        0
    } else {
        head_hits(head, terms.drop_last()) + if terms.last().len() > 0 && has_sub(head, terms.last()) { 1nat } else { 0nat }
    }
}

/// Rerank score of a candidate: keyword hits, extra weight for longer
/// terms, and four per term found in a chapter-like first line.
pub open spec fn cand_score(query: Seq<char>, content: Seq<char>) -> nat {
    let terms = query_terms_spec(query);
    let hay = str_lowercase(content);
    let head = str_lowercase(head_line(content));
    score_spec(content, terms) + extra_hits(hay, terms)
        + if is_chapter_head(head) { 4 * head_hits(head, terms) } else { 0 }
}

pub open spec fn tviews(v: Seq<(String, String, String)>) -> Seq<(Seq<char>, Seq<char>, Seq<char>)> {
    v.map_values(|p: (String, String, String)| (p.0@, p.1@, p.2@))
}

pub open spec fn rerank_spec(query: Seq<char>, cands: Seq<(Seq<char>, Seq<char>, Seq<char>)>) -> Seq<(Seq<char>, nat)> {
    let items = Seq::new(cands.len(), |i: int| (cands[i].0, cand_score(query, cands[i].2)));
    sort_scored(items, cands.len() as int)
}

proof fn lemma_query_terms_len(s: Seq<char>)
    ensures
        query_terms_spec(s).len() <= 48,
{
}

fn cand_score_exec(terms: &Vec<Vec<char>>, content: &Vec<char>) -> (r: usize)
    requires
        terms@.len() <= 48,
    ensures
        r == score_spec(content@, cviews(terms@)) + extra_hits(str_lowercase(content@), cviews(terms@))
            + if is_chapter_head(str_lowercase(head_line(content@))) {
                4 * head_hits(str_lowercase(head_line(content@)), cviews(terms@))
            } else {
                0
            },
{
    let base = score_memory_chars(content, terms);
    let hay = lowercase(content);
    let ls = lines_of(content);
    let first: Vec<char> = if ls.len() > 0 { ls[0].clone() } else { Vec::new() };
    assert(first@ == head_line(content@));
    let head = lowercase(&first);
    let is_head = contains_char(&head, '章') || (head.len() > 0 && head[0] == '【') || (head.len() > 0 && head[0] == '#');
    let mut extra: usize = 0;
    let mut hh: usize = 0;
    let mut i: usize = 0;
    let ghost tv = cviews(terms@);
    assert(tv.subrange(0, 0) =~= Seq::<Seq<char>>::empty());
    while i < terms.len()
        invariant
            i <= terms@.len() <= 48,
            tv == cviews(terms@),
            hay@ == str_lowercase(content@),
            head@ == str_lowercase(head_line(content@)),
            extra == extra_hits(hay@, tv.subrange(0, i as int)),
            hh == head_hits(head@, tv.subrange(0, i as int)),
            extra <= 2 * i,
            hh <= i,
        decreases terms.len() - i,
    {
        assert(tv.subrange(0, i + 1).drop_last() =~= tv.subrange(0, i as int));
        let t = &terms[i];
        if t.len() >= 2 && contains(&hay, t) {
            extra += if t.len() >= 3 { 2 } else { 1 };
        }
        if t.len() > 0 && contains(&head, t) {
            hh += 1;
        }
        i += 1;
    }
    assert(tv.subrange(0, terms@.len() as int) =~= tv);
    base + extra + if is_head { 4 * hh } else { 0 }
}

/// Rule rerank of recall candidates `(source_id, title, content)`: each
/// candidate's `cand_score`, best first, ties by source id.
pub fn rerank_knowledge_candidates(query: &str, candidates: &[(String, String, String)]) -> (r: Vec<(String, usize)>)
    ensures
        r@.len() == candidates@.len(),
        forall|k: int| 0 <= k < r@.len() ==> (r@[k].0@, r@[k].1 as nat) == #[trigger] rerank_spec(query@, tviews(candidates@))[k],
{
    let terms = query_terms_chars(&chars_of(query));
    proof {
        lemma_query_terms_len(query@);
    }
    let ghost cv = tviews(candidates@);
    let ghost items = Seq::new(cv.len(), |i: int| (cv[i].0, cand_score(query@, cv[i].2)));
    let mut scored: Vec<(Vec<char>, usize)> = Vec::new();
    let mut i: usize = 0;
    while i < candidates.len()
        invariant
            i <= candidates@.len(),
            cv == tviews(candidates@),
            items == Seq::new(cv.len(), |i: int| (cv[i].0, cand_score(query@, cv[i].2))),
            cviews(terms@) == query_terms_spec(query@),
            terms@.len() <= 48,
            sc_views(scored@) == items.subrange(0, i as int),
        decreases candidates.len() - i,
    {
        let c = &candidates[i];
        assert(cv[i as int] == (c.0@, c.1@, c.2@));
        let sc = cand_score_exec(&terms, &chars_of(c.2.as_str()));
        let ghost prev = scored@;
        scored.push((chars_of(c.0.as_str()), sc));
        assert(sc_views(scored@) =~= sc_views(prev).push(items[i as int]));
        i += 1;
    }
    assert(items.subrange(0, items.len() as int) =~= items);
    let sorted = sort_by_score_then_id(&scored);
    proof {
        lemma_sort_len(items, items.len() as int);
    }
    let mut out: Vec<(String, usize)> = Vec::new();
    let mut k: usize = 0;
    while k < sorted.len()
        invariant
            k <= sorted@.len(),
            sc_views(sorted@) == sort_scored(items, items.len() as int),
            items.len() == cv.len() == candidates@.len(),
            cv == tviews(candidates@),
            items == Seq::new(cv.len(), |i: int| (cv[i].0, cand_score(query@, cv[i].2))),
            out@.len() == k,
            forall|j: int| 0 <= j < k ==> (out@[j].0@, out@[j].1 as nat) == #[trigger] rerank_spec(query@, cv)[j],
        decreases sorted.len() - k,
    {
        assert(sc_views(sorted@)[k as int] == (sorted@[k as int].0@, sorted@[k as int].1 as nat));
        out.push((string_of(&sorted[k].0), sorted[k].1));
        k += 1;
    }
    out
}


/// A card block: `- 「label」` (or `- “label”`) then the trimmed body cut to
/// the card's cap.
pub open spec fn card_block(zh: bool, label: Seq<char>, feat: Seq<char>, per: nat) -> Seq<char> {
    let snip = truncate_spec(trim(feat), per);
    if zh { "- 「"@ + label + "」\n"@ + snip } else { "- “"@ + label + "”\n"@ + snip }
}

/// Blocks kept so far, budget used (each block plus one separator), and
/// whether the budget stopped the list.
pub open spec fn cap_fold(cards: Seq<(Seq<char>, Seq<char>, nat)>, total: nat, zh: bool, n: int) -> (Seq<Seq<char>>, nat, bool)
    decreases n,
{
    if n <= 0 {
        (Seq::empty(), 0, false)
    } else {
        let (p, u, st) = cap_fold(cards, total, zh, n - 1);
        let c = cards[n - 1];
        let b = card_block(zh, c.0, c.1, c.2);
        if st || truncate_spec(trim(c.1), c.2).len() == 0 {
            (p, u, st)
        } else if u + b.len() + 1 > total {
            (p, u, true)
        } else {
            (p.push(b), u + b.len() + 1, false)
        }
    }
}

pub open spec fn card_views(v: Seq<(String, String, usize)>) -> Seq<(Seq<char>, Seq<char>, nat)> {
    v.map_values(|c: (String, String, usize)| (c.0@, c.1@, c.2 as nat))
}

pub open spec fn capped_spec(cards: Seq<(Seq<char>, Seq<char>, nat)>, total: nat, zh: bool) -> Seq<char> {
    join(cap_fold(cards, total, zh, cards.len() as int).0, "\n"@)
}

/// Knowledge card blocks `(label, body, per-card cap)` joined by newlines,
/// in order, until the next block would exceed the total budget; cards with
/// an empty body are skipped. The result never exceeds the budget.
pub fn format_knowledge_cards_capped_var(cards: &[(String, String, usize)], total: usize, zh: bool) -> (r: String)
    ensures
        r@ == capped_spec(card_views(cards@), total as nat, zh),
        r@.len() <= total,
{
    let ghost cv = card_views(cards@);
    let mut res: Vec<char> = Vec::new();
    let mut count: usize = 0;
    let mut used: usize = 0;
    let mut stopped = false;
    let mut i: usize = 0;
    let ghost mut parts: Seq<Seq<char>> = Seq::empty();
    while i < cards.len()
        invariant
            i <= cards@.len(),
            cv == card_views(cards@),
            (parts, used as nat, stopped) == cap_fold(cv, total as nat, zh, i as int),
            res@ == join(parts, "\n"@),
            count == parts.len(),
            count <= i,
            res@.len() <= used <= total,
        decreases cards.len() - i,
    {
        let c = &cards[i];
        assert(cv[i as int] == (c.0@, c.1@, c.2 as nat));
        if !stopped {
            let snip = truncate_chars_vec(&trim_str(c.1.as_str()), c.2);
            if snip.len() > 0 {
                let mut block: Vec<char> = Vec::new();
                if zh {
                    append_str(&mut block, "- 「");
                    append(&mut block, &chars_of(c.0.as_str()));
                    append_str(&mut block, "」\n");
                } else {
                    append_str(&mut block, "- “");
                    append(&mut block, &chars_of(c.0.as_str()));
                    append_str(&mut block, "”\n");
                }
                append(&mut block, &snip);
                assert(block@ == card_block(zh, c.0@, c.1@, c.2 as nat));
                if block.len() >= total - used {
                    stopped = true;
                } else {
                    let add = block.len() + 1;
                    let ghost old_parts = parts;
                    proof {
                        parts = parts.push(block@);
                        assert(parts.drop_last() =~= old_parts);
                    }
                    if count > 0 {
                        res.push('\n');
                        append(&mut res, &block);
                    } else {
                        res = block;
                    }
                    proof {
                        reveal_strlit("\n");
                    }
                    assert(res@ =~= join(parts, "\n"@));
                    count += 1;
                    used = used + add;
                }
            }
        }
        i += 1;
    }
    string_of(&res)
}

/// Knowledge card blocks `(label, body)` with one cap for every card (see
/// `format_knowledge_cards_capped_var`).
pub fn format_knowledge_cards_capped(cards: &[(String, String)], per_card: usize, total: usize, zh: bool) -> (r: String)
    ensures
        r@ == capped_spec(Seq::new(cards@.len(), |i: int| (cards@[i].0@, cards@[i].1@, per_card as nat)), total as nat, zh),
        r@.len() <= total,
{
    let mut v: Vec<(String, String, usize)> = Vec::new();
    let mut i: usize = 0;
    while i < cards.len()
        invariant
            i <= cards@.len(),
            card_views(v@) == Seq::new(i as nat, |j: int| (cards@[j].0@, cards@[j].1@, per_card as nat)),
        decreases cards.len() - i,
    {
        let ghost prev = v@;
        let l = cards[i].0.clone();
        let b = cards[i].1.clone();
        assert(l@ == cards@[i as int].0@ && b@ == cards@[i as int].1@);
        v.push((l, b, per_card));
        assert(card_views(v@) =~= card_views(prev).push((cards@[i as int].0@, cards@[i as int].1@, per_card as nat)));
        assert(card_views(v@) =~= Seq::new((i + 1) as nat, |j: int| (cards@[j].0@, cards@[j].1@, per_card as nat)));
        i += 1;
    }
    format_knowledge_cards_capped_var(v.as_slice(), total, zh)
}

/// The local multilingual MiniLM embedding model handle.
#[derive(Clone, Default)]
pub struct MiniLmEmbedding;

impl MiniLmEmbedding {
    /// A handle on the local model.
    pub fn new() -> (r: Self)
        ensures
            r == MiniLmEmbedding,
    {
        MiniLmEmbedding
    }
}


/// Index of the first entry with key `id`.
pub open spec fn key_index(m: Seq<(Seq<char>, nat)>, id: Seq<char>) -> Option<int>
    decreases m.len(),
{
    if m.len() == 0 {
        None
    } else if m[0].0 == id {
        Some(0)
    } else {
        match key_index(m.drop_first(), id) {
            Some(j) => Some(j + 1),
            None => None,
        }
    }
}

/// `b` added to the score of `id` (a new entry when absent).
pub open spec fn add_score(m: Seq<(Seq<char>, nat)>, id: Seq<char>, b: nat) -> Seq<(Seq<char>, nat)> {
    match key_index(m, id) {
        Some(j) => m.update(j, (id, m[j].1 + b)),
        None => m.push((id, b)),
    }
}

/// Ten points for each keyword-recalled id.
pub open spec fn add_recall(m: Seq<(Seq<char>, nat)>, ranked: Seq<(Seq<char>, Seq<char>)>, n: int) -> Seq<(Seq<char>, nat)>
    decreases n,
{
    if n <= 0 { m } else { add_score(add_recall(m, ranked, n - 1), ranked[n - 1].0, 10) }
}

/// The positive bonuses added.
pub open spec fn add_bonus(m: Seq<(Seq<char>, nat)>, bonus: Seq<(Seq<char>, nat)>, n: int) -> Seq<(Seq<char>, nat)>
    decreases n,
{
    if n <= 0 {
        m
    } else {
        let p = add_bonus(m, bonus, n - 1);
        if bonus[n - 1].1 > 0 { add_score(p, bonus[n - 1].0, bonus[n - 1].1) } else { p }
    }
}

pub open spec fn bonus_sum(bonus: Seq<(Seq<char>, nat)>) -> nat
    decreases bonus.len(),
{
    if bonus.len() == 0 { 0 } else { bonus_sum(bonus.drop_last()) + bonus.last().1 }
}

/// Index of the first row with source id `id`.
pub open spec fn find_row(rows: Seq<(Seq<char>, Seq<char>, Seq<char>)>, id: Seq<char>) -> Option<int>
    decreases rows.len(),
{
    if rows.len() == 0 {
        None
    } else if rows[0].0 == id {
        Some(0)
    } else {
        match find_row(rows.drop_first(), id) {
            Some(j) => Some(j + 1),
            None => None,
        }
    }
}

/// Rows of the recalled ids, in recall order.
pub open spec fn recall_candidates(rows: Seq<(Seq<char>, Seq<char>, Seq<char>)>, ids: Seq<(Seq<char>, nat)>, n: int) -> Seq<(Seq<char>, Seq<char>, Seq<char>)>
    decreases n,
{
    if n <= 0 {
        Seq::empty()
    } else {
        let p = recall_candidates(rows, ids, n - 1);
        match find_row(rows, ids[n - 1].0) {
            Some(j) => p.push(rows[j]),
            None => p,
        }
    }
}

/// Keyword hits with their book titles (empty when the row is unknown).
pub open spec fn keyword_candidates(rows: Seq<(Seq<char>, Seq<char>, Seq<char>)>, hits: Seq<(Seq<char>, Seq<char>)>, n: int) -> Seq<(Seq<char>, Seq<char>, Seq<char>)>
    decreases n,
{
    if n <= 0 {
        Seq::empty()
    } else {
        let p = keyword_candidates(rows, hits, n - 1);
        let h = hits[n - 1];
        match find_row(rows, h.0) {
            Some(j) => p.push((h.0, rows[j].1, rows[j].2)),
            None => p.push((h.0, Seq::<char>::empty(), h.1)),
        }
    }
}

/// Reranked ids mapped back to their candidates.
pub open spec fn reranked_rows(cands: Seq<(Seq<char>, Seq<char>, Seq<char>)>, rr: Seq<(Seq<char>, nat)>, n: int) -> Seq<(Seq<char>, Seq<char>, Seq<char>)>
    decreases n,
{
    if n <= 0 {
        Seq::empty()
    } else {
        let p = reranked_rows(cands, rr, n - 1);
        match find_row(cands, rr[n - 1].0) {
            Some(j) => p.push(cands[j]),
            None => p,
        }
    }
}

pub open spec fn first_k<A>(s: Seq<A>, k: nat) -> Seq<A> {
    if s.len() > k { s.subrange(0, k as int) } else { s }
}

/// Contents cut to the chunk cap.
pub open spec fn cut_contents(s: Seq<(Seq<char>, Seq<char>, Seq<char>)>, cap: nat) -> Seq<(Seq<char>, Seq<char>, Seq<char>)> {
    s.map_values(|t: (Seq<char>, Seq<char>, Seq<char>)| (t.0, t.1, truncate_spec(t.2, cap)))
}

pub open spec fn all_zero(rr: Seq<(Seq<char>, nat)>) -> bool {
    forall|j: int| 0 <= j < rr.len() ==> rr[j].1 == 0
}

pub open spec fn retrieve_kb_spec(
    rows: Seq<(Seq<char>, Seq<char>, Seq<char>)>,
    query: Seq<char>,
    k: nat,
    cap: nat,
    bonus: Seq<(Seq<char>, nat)>,
) -> Seq<(Seq<char>, Seq<char>, Seq<char>)> {
    let pool = recall_pool_spec(k);
    let kw = rows.map_values(|r: (Seq<char>, Seq<char>, Seq<char>)| (r.0, r.2));
    let recalled = rank_spec(kw, query, pool);
    let m = add_bonus(add_recall(Seq::empty(), recalled, recalled.len() as int), bonus, bonus.len() as int);
    let sorted = first_k(sort_scored(m, m.len() as int), pool);
    let cands = recall_candidates(rows, sorted, sorted.len() as int);
    let rr = rerank_spec(query, cands);
    if rows.len() == 0 || k == 0 {
        Seq::empty()
    } else if cands.len() == 0 {
        let hits = rank_spec(kw, query, k);
        cut_contents(first_k(keyword_candidates(rows, hits, hits.len() as int), k), cap)
    } else if all_zero(rr) {
        cut_contents(first_k(cands, k), cap)
    } else {
        let top = first_k(rr, k);
        cut_contents(reranked_rows(cands, top, top.len() as int), cap)
    }
}

pub open spec fn bonus_views(v: Seq<(String, usize)>) -> Seq<(Seq<char>, nat)> {
    v.map_values(|p: (String, usize)| (p.0@, p.1 as nat))
}

fn key_index_exec(m: &Vec<(Vec<char>, usize)>, id: &Vec<char>) -> (r: Option<usize>)
    ensures
        r matches Some(i) ==> key_index(sc_views(m@), id@) == Some(i as int) && i < m@.len(),
        r is None ==> key_index(sc_views(m@), id@) is None,
{
    let ghost mv = sc_views(m@);
    let mut i: usize = 0;
    assert(mv.subrange(0, mv.len() as int) =~= mv);
    while i < m.len()
        invariant
            i <= m@.len(),
            mv == sc_views(m@),
            key_index(mv, id@) == match key_index(mv.subrange(i as int, mv.len() as int), id@) {
                Some(j) => Some(j + i),
                None => None::<int>,
            },
        decreases m.len() - i,
    {
        assert(mv.subrange(i as int, mv.len() as int).drop_first() =~= mv.subrange(i + 1, mv.len() as int));
        if crate::text::eq(&m[i].0, id) {
            return Some(i);
        }
        i += 1;
    }
    None
}

fn add_score_exec(m: &mut Vec<(Vec<char>, usize)>, id: &Vec<char>, b: usize, Ghost(bound): Ghost<nat>)
    requires
        forall|j: int| 0 <= j < old(m)@.len() ==> old(m)@[j].1 + b <= bound,
        b <= bound <= usize::MAX,
    ensures
        sc_views(final(m)@) == add_score(sc_views(old(m)@), id@, b as nat),
        forall|j: int| 0 <= j < final(m)@.len() ==> final(m)@[j].1 <= bound,
{
    let found = key_index_exec(m, id);
    match found {
        Some(j) => {
            let ghost prev = m@;
            assert(key_index(sc_views(prev), id@) == Some(j as int));
            let cur = m[j].1;
            let idc = slice(id, 0, id.len());
            assert(id@.subrange(0, id@.len() as int) =~= id@);
            m.set(j, (idc, cur + b));
            assert(sc_views(m@) =~= sc_views(prev).update(j as int, (id@, (prev[j as int].1 + b) as nat)));
        }
        None => {
            let ghost prev = m@;
            let idc = slice(id, 0, id.len());
            assert(id@.subrange(0, id@.len() as int) =~= id@);
            m.push((idc, b));
            assert(key_index(sc_views(prev), id@) is None);
            assert(sc_views(m@) =~= sc_views(prev).push((id@, b as nat)));
        }
    }
}

fn find_row_exec(rows: &[(String, String, String)], id: &Vec<char>) -> (r: Option<usize>)
    ensures
        r matches Some(i) ==> find_row(tviews(rows@), id@) == Some(i as int) && i < rows@.len(),
        r is None ==> find_row(tviews(rows@), id@) is None,
{
    let ghost rv = tviews(rows@);
    let mut i: usize = 0;
    assert(rv.subrange(0, rv.len() as int) =~= rv);
    while i < rows.len()
        invariant
            i <= rows@.len(),
            rv == tviews(rows@),
            find_row(rv, id@) == match find_row(rv.subrange(i as int, rv.len() as int), id@) {
                Some(j) => Some(j + i),
                None => None::<int>,
            },
        decreases rows.len() - i,
    {
        assert(rv.subrange(i as int, rv.len() as int).drop_first() =~= rv.subrange(i + 1, rv.len() as int));
        assert(rv[i as int].0 == rows@[i as int].0@);
        if crate::text::eq(&chars_of(rows[i].0.as_str()), id) {
            return Some(i);
        }
        i += 1;
    }
    None
}

proof fn lemma_sort_elems(items: Seq<(Seq<char>, nat)>, n: int)
    requires
        0 <= n <= items.len(),
    ensures
        forall|j: int| 0 <= j < sort_scored(items, n).len() ==> #[trigger] items.contains(sort_scored(items, n)[j]),
        sort_scored(items, n).len() == n,
    decreases n,
{
    if n > 0 {
        lemma_sort_elems(items, n - 1);
        let o = sort_scored(items, n - 1);
        lemma_ins_pos_bound(o, items[n - 1]);
        let p = ins_pos(o, items[n - 1]);
        assert forall|j: int| 0 <= j < sort_scored(items, n).len() implies #[trigger] items.contains(sort_scored(items, n)[j]) by {
            if j < p {
                assert(sort_scored(items, n)[j] == o[j]);
            } else if j == p {
                assert(items[n - 1] == sort_scored(items, n)[j]);
            } else {
                assert(sort_scored(items, n)[j] == o[j - 1]);
            }
        }
    }
}

fn cut_all(v: Vec<(String, String, Vec<char>)>, k: usize, cap: usize) -> (r: Vec<(String, String, String)>)
    ensures
        tviews(r@) == cut_contents(first_k(v@.map_values(|t: (String, String, Vec<char>)| (t.0@, t.1@, t.2@)), k as nat), cap as nat),
{
    let ghost vv = v@.map_values(|t: (String, String, Vec<char>)| (t.0@, t.1@, t.2@));
    let ghost want = cut_contents(first_k(vv, k as nat), cap as nat);
    let n = if v.len() > k { k } else { v.len() };
    let mut out: Vec<(String, String, String)> = Vec::new();
    let mut i: usize = 0;
    while i < n
        invariant
            i <= n <= v@.len(),
            n == want.len(),
            vv == v@.map_values(|t: (String, String, Vec<char>)| (t.0@, t.1@, t.2@)),
            want == cut_contents(first_k(vv, k as nat), cap as nat),
            tviews(out@) == want.subrange(0, i as int),
        decreases n - i,
    {
        let t = &v[i];
        let c = string_of(&truncate_chars_vec(&t.2, cap));
        let ghost prev = out@;
        out.push((t.0.clone(), t.1.clone(), c));
        assert(tviews(out@) =~= tviews(prev).push(want[i as int]));
        assert(want.subrange(0, i + 1) =~= want.subrange(0, i as int).push(want[i as int]));
        i += 1;
    }
    assert(want.subrange(0, n as int) =~= want);
    out
}


pub open spec fn opt_bonus(b: Option<&[(String, usize)]>) -> Seq<(Seq<char>, nat)> {
    match b {
        Some(v) => bonus_views(v@),
        None => Seq::empty(),
    }
}

pub open spec fn kw_of(rows: Seq<(Seq<char>, Seq<char>, Seq<char>)>) -> Seq<(Seq<char>, Seq<char>)> {
    rows.map_values(|r: (Seq<char>, Seq<char>, Seq<char>)| (r.0, r.2))
}

pub open spec fn t3views(v: Seq<(String, String, Vec<char>)>) -> Seq<(Seq<char>, Seq<char>, Seq<char>)> {
    v.map_values(|t: (String, String, Vec<char>)| (t.0@, t.1@, t.2@))
}

proof fn lemma_bonus_sum_prefix(b: Seq<(Seq<char>, nat)>, i: int)
    requires
        0 <= i < b.len(),
    ensures
        bonus_sum(b.subrange(0, i + 1)) == bonus_sum(b.subrange(0, i)) + b[i].1,
        bonus_sum(b.subrange(0, i + 1)) <= bonus_sum(b),
    decreases b.len() - i,
{
    assert(b.subrange(0, i + 1).drop_last() =~= b.subrange(0, i));
    if i + 1 < b.len() {
        lemma_bonus_sum_prefix(b, i + 1);
    } else {
        assert(b.subrange(0, i + 1) =~= b);
    }
}

/// Triples with the content as characters.
fn as_char_triples(v: &Vec<(String, String, String)>) -> (r: Vec<(String, String, Vec<char>)>)
    ensures
        t3views(r@) == tviews(v@),
{
    let mut out: Vec<(String, String, Vec<char>)> = Vec::new();
    let mut i: usize = 0;
    while i < v.len()
        invariant
            i <= v@.len(),
            t3views(out@) == tviews(v@).subrange(0, i as int),
        decreases v.len() - i,
    {
        let a = v[i].0.clone();
        let b = v[i].1.clone();
        let c = chars_of(v[i].2.as_str());
        let ghost prev = out@;
        out.push((a, b, c));
        assert(t3views(out@) =~= t3views(prev).push(tviews(v@)[i as int]));
        i += 1;
    }
    assert(tviews(v@).subrange(0, v@.len() as int) =~= tviews(v@));
    out
}

/// Knowledge passages for a query over `(source_id, book_title, content)`
/// rows: keyword recall (10 points per hit, plus any positive recall bonus),
/// the best recalled ids, reranked by `cand_score`; the top `k`, contents
/// cut to `chunk_cap` characters. When every rerank score is zero the recall
/// order is kept; when nothing is recalled, the keyword hits themselves.
pub fn retrieve_knowledge_from_rows(
    rows: &[(String, String, String)],
    query: &str,
    k: usize,
    chunk_cap: usize,
    recall_bonus: Option<&[(String, usize)]>,
) -> (r: Vec<(String, String, String)>)
    requires
        10 * rows@.len() + bonus_sum(opt_bonus(recall_bonus)) <= usize::MAX,
    ensures
        tviews(r@) == retrieve_kb_spec(tviews(rows@), query@, k as nat, chunk_cap as nat, opt_bonus(recall_bonus)),
{
    let ghost rv = tviews(rows@);
    let ghost bv = opt_bonus(recall_bonus);
    if rows.len() == 0 || k == 0 {
        let e: Vec<(String, String, String)> = Vec::new();
        assert(tviews(e@) =~= Seq::<(Seq<char>, Seq<char>, Seq<char>)>::empty());
        return e;
    }
    let pool = recall_pool_size(k);
    let mut kw: Vec<(String, String)> = Vec::new();
    let mut i: usize = 0;
    while i < rows.len()
        invariant
            i <= rows@.len(),
            rv == tviews(rows@),
            pviews(kw@) == kw_of(rv).subrange(0, i as int),
        decreases rows.len() - i,
    {
        let a = rows[i].0.clone();
        let c = rows[i].2.clone();
        let ghost prev = kw@;
        kw.push((a, c));
        assert(pviews(kw@) =~= pviews(prev).push(kw_of(rv)[i as int]));
        i += 1;
    }
    assert(kw_of(rv).subrange(0, rows@.len() as int) =~= kw_of(rv));
    let recalled = rank_memory(kw.as_slice(), query, pool);
    let ghost rec = pviews(recalled@);
    proof {
        lemma_rank_len(kw_of(rv), query@, pool as nat);
    }
    let mut m: Vec<(Vec<char>, usize)> = Vec::new();
    let mut j: usize = 0;
    assert(sc_views(m@) =~= Seq::<(Seq<char>, nat)>::empty());
    while j < recalled.len()
        invariant
            j <= recalled@.len() <= rows@.len(),
            rec == pviews(recalled@),
            10 * rows@.len() + bonus_sum(bv) <= usize::MAX,
            sc_views(m@) == add_recall(Seq::empty(), rec, j as int),
            forall|q: int| 0 <= q < m@.len() ==> m@[q].1 <= 10 * j,
        decreases recalled.len() - j,
    {
        let id = chars_of(recalled[j].0.as_str());
        assert(id@ == rec[j as int].0);
        add_score_exec(&mut m, &id, 10, Ghost((10 * (j + 1)) as nat));
        j += 1;
    }
    let ghost m1 = sc_views(m@);
    match recall_bonus {
        Some(bs) => {
            let mut q: usize = 0;
            assert(bv.subrange(0, 0) =~= Seq::<(Seq<char>, nat)>::empty());
            while q < bs.len()
                invariant
                    q <= bs@.len(),
                    bv == bonus_views(bs@),
                    recall_bonus == Some(bs),
                    recalled@.len() <= rows@.len(),
                    10 * rows@.len() + bonus_sum(bv) <= usize::MAX,
                    sc_views(m@) == add_bonus(m1, bv, q as int),
                    forall|x: int| 0 <= x < m@.len() ==> m@[x].1 <= 10 * recalled@.len() + bonus_sum(bv.subrange(0, q as int)),
                decreases bs.len() - q,
            {
                proof {
                    lemma_bonus_sum_prefix(bv, q as int);
                }
                let id = chars_of(bs[q].0.as_str());
                let b = bs[q].1;
                assert(bv[q as int] == (id@, b as nat));
                if b > 0 {
                    add_score_exec(&mut m, &id, b, Ghost((10 * recalled@.len() + bonus_sum(bv.subrange(0, q + 1))) as nat));
                }
                q += 1;
            }
            assert(bv.subrange(0, bs@.len() as int) =~= bv);
        }
        None => {
            assert(add_bonus(m1, bv, 0) == m1);
        }
    }
    let sorted = sort_by_score_then_id(&m);
    let ghost srt = sc_views(sorted@);
    proof {
        lemma_sort_elems(sc_views(m@), m@.len() as int);
    }
    let take = if sorted.len() > pool { pool } else { sorted.len() };
    let ghost top = first_k(srt, pool as nat);
    let mut cands: Vec<(String, String, String)> = Vec::new();
    let mut t: usize = 0;
    assert(tviews(cands@) =~= Seq::<(Seq<char>, Seq<char>, Seq<char>)>::empty());
    while t < take
        invariant
            t <= take <= sorted@.len(),
            take == top.len(),
            srt == sc_views(sorted@),
            top == first_k(srt, pool as nat),
            rv == tviews(rows@),
            tviews(cands@) == recall_candidates(rv, top, t as int),
        decreases take - t,
    {
        assert(top[t as int] == srt[t as int]);
        assert(srt[t as int].0 == sorted@[t as int].0@);
        match find_row_exec(rows, &sorted[t].0) {
            Some(x) => {
                let ghost prev = cands@;
                cands.push((rows[x].0.clone(), rows[x].1.clone(), rows[x].2.clone()));
                assert(tviews(cands@) =~= tviews(prev).push(rv[x as int]));
            }
            None => {}
        }
        t += 1;
    }
    let ghost cv = tviews(cands@);
    if cands.len() == 0 {
        let hits = rank_memory(kw.as_slice(), query, k);
        let ghost hv = pviews(hits@);
        let mut fb: Vec<(String, String, String)> = Vec::new();
        let mut h: usize = 0;
        assert(tviews(fb@) =~= Seq::<(Seq<char>, Seq<char>, Seq<char>)>::empty());
        while h < hits.len()
            invariant
                h <= hits@.len(),
                hv == pviews(hits@),
                rv == tviews(rows@),
                tviews(fb@) == keyword_candidates(rv, hv, h as int),
            decreases hits.len() - h,
        {
            let id = chars_of(hits[h].0.as_str());
            assert(hv[h as int] == (hits@[h as int].0@, hits@[h as int].1@));
            let ghost prev = fb@;
            match find_row_exec(rows, &id) {
                Some(x) => {
                    fb.push((hits[h].0.clone(), rows[x].1.clone(), rows[x].2.clone()));
                    assert(tviews(fb@) =~= tviews(prev).push((hv[h as int].0, rv[x as int].1, rv[x as int].2)));
                }
                None => {
                    fb.push((hits[h].0.clone(), String::new(), hits[h].1.clone()));
                    assert(tviews(fb@) =~= tviews(prev).push((hv[h as int].0, Seq::<char>::empty(), hv[h as int].1)));
                }
            }
            h += 1;
        }
        let tri = as_char_triples(&fb);
        return cut_all(tri, k, chunk_cap);
    }
    let rr = rerank_knowledge_candidates(query, cands.as_slice());
    let ghost rrs = rerank_spec(query@, cv);
    let mut allz = true;
    let mut z: usize = 0;
    while z < rr.len()
        invariant
            z <= rr@.len(),
            rr@.len() == cv.len(),
            forall|x: int| 0 <= x < rr@.len() ==> (rr@[x].0@, rr@[x].1 as nat) == #[trigger] rrs[x],
            allz == forall|x: int| 0 <= x < z ==> rrs[x].1 == 0,
        decreases rr.len() - z,
    {
        assert((rr@[z as int].0@, rr@[z as int].1 as nat) == rrs[z as int]);
        if rr[z].1 != 0 {
            allz = false;
        }
        z += 1;
    }
    proof {
        lemma_sort_len(Seq::new(cv.len(), |i: int| (cv[i].0, cand_score(query@, cv[i].2))), cv.len() as int);
    }
    if allz {
        let tri = as_char_triples(&cands);
        return cut_all(tri, k, chunk_cap);
    }
    let ghost topr = first_k(rrs, k as nat);
    let tk = if rr.len() > k { k } else { rr.len() };
    let mut sel: Vec<(String, String, String)> = Vec::new();
    let mut w: usize = 0;
    assert(tviews(sel@) =~= Seq::<(Seq<char>, Seq<char>, Seq<char>)>::empty());
    while w < tk
        invariant
            w <= tk <= rr@.len(),
            rr@.len() == rrs.len(),
            tk == topr.len(),
            topr == first_k(rrs, k as nat),
            forall|x: int| 0 <= x < rr@.len() ==> (rr@[x].0@, rr@[x].1 as nat) == #[trigger] rrs[x],
            cv == tviews(cands@),
            tviews(sel@) == reranked_rows(cv, topr, w as int),
        decreases tk - w,
    {
        assert((rr@[w as int].0@, rr@[w as int].1 as nat) == rrs[w as int]);
        assert(topr[w as int] == rrs[w as int]);
        let id = chars_of(rr[w].0.as_str());
        match find_row_exec(cands.as_slice(), &id) {
            Some(x) => {
                let ghost prev = sel@;
                sel.push((cands[x].0.clone(), cands[x].1.clone(), cands[x].2.clone()));
                assert(tviews(sel@) =~= tviews(prev).push(cv[x as int]));
            }
            None => {}
        }
        w += 1;
    }
    let tri = as_char_triples(&sel);
    let n = tri.len();
    cut_all(tri, n, chunk_cap)
}

pub proof fn lemma_lex_irrefl(a: Seq<char>)
    ensures
        !lex_lt(a, a),
    decreases a.len(),
{
    if a.len() > 0 {
        lemma_lex_irrefl(a.drop_first());
    }
}

pub proof fn lemma_lex_trans(a: Seq<char>, b: Seq<char>, c: Seq<char>)
    requires
        lex_lt(a, b),
        lex_lt(b, c),
    ensures
        lex_lt(a, c),
    decreases a.len(),
{
    if a.len() > 0 && a[0] == b[0] && b[0] == c[0] {
        lemma_lex_trans(a.drop_first(), b.drop_first(), c.drop_first());
    }
}

/// In (score descending, id ascending) order: `e` may come before `x`.
pub open spec fn in_order(s: Seq<(Seq<char>, nat)>) -> bool {
    forall|i: int, j: int| 0 <= i < j < s.len() ==> !after(#[trigger] s[i], #[trigger] s[j])
}

proof fn lemma_ins_props(o: Seq<(Seq<char>, nat)>, x: (Seq<char>, nat))
    ensures
        0 <= ins_pos(o, x) <= o.len(),
        forall|j: int| 0 <= j < ins_pos(o, x) ==> !after(#[trigger] o[j], x),
        ins_pos(o, x) < o.len() ==> after(o[ins_pos(o, x)], x),
    decreases o.len(),
{
    if o.len() > 0 && !after(o[0], x) {
        let t = o.drop_first();
        lemma_ins_props(t, x);
        assert forall|j: int| 0 <= j < ins_pos(o, x) implies !after(#[trigger] o[j], x) by {
            if j > 0 {
                assert(o[j] == t[j - 1]);
            }
        }
        if ins_pos(o, x) < o.len() {
            assert(o[ins_pos(o, x)] == t[ins_pos(t, x)]);
        }
    }
}

proof fn lemma_sort_scored(items: Seq<(Seq<char>, nat)>, n: int)
    requires
        0 <= n <= items.len(),
    ensures
        sort_scored(items, n).to_multiset() == items.take(n).to_multiset(),
        in_order(sort_scored(items, n)),
    decreases n,
{
    broadcast use vstd::seq_lib::to_multiset_insert, vstd::seq_lib::to_multiset_build;
    if n == 0 {
        assert(items.take(0) =~= Seq::<(Seq<char>, nat)>::empty());
    } else {
        lemma_sort_scored(items, n - 1);
        let o = sort_scored(items, n - 1);
        let x = items[n - 1];
        lemma_ins_props(o, x);
        let p = ins_pos(o, x);
        let o2 = o.insert(p, x);
        assert(items.take(n) =~= items.take(n - 1).push(x));
        assert(o2.to_multiset() == o.to_multiset().insert(x));
        assert forall|i: int, j: int| 0 <= i < j < o2.len() implies !after(#[trigger] o2[i], #[trigger] o2[j]) by {
            if j < p {
                assert(o2[i] == o[i] && o2[j] == o[j]);
            } else if j == p {
                assert(o2[i] == o[i] && o2[j] == x);
            } else if i < p {
                assert(o2[i] == o[i] && o2[j] == o[j - 1]);
            } else if i == p {
                assert(o2[i] == x && o2[j] == o[j - 1]);
                let y = o[j - 1];
                let q = o[p];
                lemma_lex_irrefl(x.0);
                if j - 1 > p {
                    assert(!after(q, y));
                }
                if after(x, y) && y.1 == x.1 {
                    if j - 1 > p {
                        lemma_lex_trans(y.0, x.0, q.0);
                    } else {
                        lemma_lex_trans(y.0, x.0, y.0);
                        lemma_lex_irrefl(y.0);
                    }
                }
            } else {
                assert(o2[i] == o[i - 1] && o2[j] == o[j - 1]);
            }
        }
    }
}

/// Reranked knowledge candidates are the candidates themselves (as id and
/// score), each exactly once, ordered by score descending and, for equal
/// scores, by id ascending.
pub proof fn rerank_is_sorted_permutation(query: Seq<char>, cands: Seq<(Seq<char>, Seq<char>, Seq<char>)>)
    ensures
        rerank_spec(query, cands).to_multiset()
            == Seq::new(cands.len(), |i: int| (cands[i].0, cand_score(query, cands[i].2))).to_multiset(),
        in_order(rerank_spec(query, cands)),
{
    let items = Seq::new(cands.len(), |i: int| (cands[i].0, cand_score(query, cands[i].2)));
    lemma_sort_scored(items, cands.len() as int);
    assert(items.take(cands.len() as int) =~= items);
}

proof fn lemma_find_row(rows: Seq<(Seq<char>, Seq<char>, Seq<char>)>, id: Seq<char>)
    ensures
        match find_row(rows, id) {
            Some(j) => 0 <= j < rows.len() && rows[j].0 == id,
            None => forall|j: int| 0 <= j < rows.len() ==> (#[trigger] rows[j]).0 != id,
        },
    decreases rows.len(),
{
    if rows.len() > 0 && rows[0].0 != id {
        let t = rows.drop_first();
        lemma_find_row(t, id);
        if find_row(t, id) is None {
            assert forall|j: int| 0 <= j < rows.len() implies (#[trigger] rows[j]).0 != id by {
                if j > 0 {
                    assert(rows[j] == t[j - 1]);
                }
            }
        }
    }
}

/// Some element of `s` is `t`.
pub open spec fn is_one_of(s: Seq<(Seq<char>, Seq<char>, Seq<char>)>, t: (Seq<char>, Seq<char>, Seq<char>)) -> bool {
    exists|j: int| 0 <= j < s.len() && #[trigger] s[j] == t
}

proof fn lemma_recall_candidates(rows: Seq<(Seq<char>, Seq<char>, Seq<char>)>, ids: Seq<(Seq<char>, nat)>, n: int)
    requires
        0 <= n <= ids.len(),
    ensures
        recall_candidates(rows, ids, n).len() <= n,
        forall|i: int| 0 <= i < recall_candidates(rows, ids, n).len() ==> is_one_of(rows, #[trigger] recall_candidates(rows, ids, n)[i]),
    decreases n,
{
    if n > 0 {
        lemma_recall_candidates(rows, ids, n - 1);
        lemma_find_row(rows, ids[n - 1].0);
        let p = recall_candidates(rows, ids, n - 1);
        let c = recall_candidates(rows, ids, n);
        assert forall|i: int| 0 <= i < c.len() implies is_one_of(rows, #[trigger] c[i]) by {
            if i < p.len() {
                assert(c[i] == p[i]);
            } else {
                let j = find_row(rows, ids[n - 1].0)->Some_0;
                assert(c[i] == rows[j]);
            }
        }
    }
}

proof fn lemma_reranked_rows(cands: Seq<(Seq<char>, Seq<char>, Seq<char>)>, rr: Seq<(Seq<char>, nat)>, n: int)
    requires
        0 <= n <= rr.len(),
    ensures
        reranked_rows(cands, rr, n).len() <= n,
        forall|i: int| 0 <= i < reranked_rows(cands, rr, n).len() ==> is_one_of(cands, #[trigger] reranked_rows(cands, rr, n)[i]),
    decreases n,
{
    if n > 0 {
        lemma_reranked_rows(cands, rr, n - 1);
        lemma_find_row(cands, rr[n - 1].0);
        let p = reranked_rows(cands, rr, n - 1);
        let c = reranked_rows(cands, rr, n);
        assert forall|i: int| 0 <= i < c.len() implies is_one_of(cands, #[trigger] c[i]) by {
            if i < p.len() {
                assert(c[i] == p[i]);
            } else {
                let j = find_row(cands, rr[n - 1].0)->Some_0;
                assert(c[i] == cands[j]);
            }
        }
    }
}

proof fn lemma_keyword_candidates(rows: Seq<(Seq<char>, Seq<char>, Seq<char>)>, hits: Seq<(Seq<char>, Seq<char>)>, n: int)
    requires
        0 <= n <= hits.len(),
        forall|i: int| 0 <= i < hits.len() ==> rows.map_values(|r: (Seq<char>, Seq<char>, Seq<char>)| (r.0, r.2)).contains(#[trigger] hits[i]),
    ensures
        keyword_candidates(rows, hits, n).len() == n,
        forall|i: int| 0 <= i < n ==> is_one_of(rows, #[trigger] keyword_candidates(rows, hits, n)[i]),
    decreases n,
{
    if n > 0 {
        lemma_keyword_candidates(rows, hits, n - 1);
        let h = hits[n - 1];
        lemma_find_row(rows, h.0);
        let kw = rows.map_values(|r: (Seq<char>, Seq<char>, Seq<char>)| (r.0, r.2));
        assert(kw.contains(h));
        let m = choose|m: int| 0 <= m < kw.len() && kw[m] == h;
        assert(rows[m].0 == h.0);
        let j = find_row(rows, h.0)->Some_0;
        let p = keyword_candidates(rows, hits, n - 1);
        let c = keyword_candidates(rows, hits, n);
        assert forall|i: int| 0 <= i < n implies is_one_of(rows, #[trigger] c[i]) by {
            if i < n - 1 {
                assert(c[i] == p[i]);
            } else {
                assert(c[i] == rows[j]);
            }
        }
    }
}

proof fn lemma_first_k_cut(s: Seq<(Seq<char>, Seq<char>, Seq<char>)>, rows: Seq<(Seq<char>, Seq<char>, Seq<char>)>, k: nat, cap: nat)
    requires
        forall|i: int| 0 <= i < s.len() ==> is_one_of(rows, #[trigger] s[i]),
    ensures
        cut_contents(first_k(s, k), cap).len() <= k,
        forall|i: int| 0 <= i < cut_contents(first_k(s, k), cap).len() ==>
            #[trigger] row_passage(rows, cut_contents(first_k(s, k), cap)[i], cap),
{
    let f = first_k(s, k);
    assert forall|i: int| 0 <= i < cut_contents(f, cap).len() implies #[trigger] row_passage(rows, cut_contents(f, cap)[i], cap) by {
        assert(f[i] == s[i]);
        let j = choose|j: int| 0 <= j < rows.len() && #[trigger] rows[j] == s[i];
        assert(cut_contents(f, cap)[i] == (rows[j].0, rows[j].1, truncate_spec(rows[j].2, cap)));
    }
}

/// `t` is a row's id and book title with its content cut to `cap`.
pub open spec fn row_passage(rows: Seq<(Seq<char>, Seq<char>, Seq<char>)>, t: (Seq<char>, Seq<char>, Seq<char>), cap: nat) -> bool {
    exists|j: int| 0 <= j < rows.len() && t == (#[trigger] rows[j].0, rows[j].1, truncate_spec(rows[j].2, cap))
}

/// Knowledge retrieval gives nothing without rows or with `k` zero, and
/// otherwise at most `k` passages, each a row's id and book title with the
/// row's content cut to the chunk cap.
#[verifier::spinoff_prover]
pub proof fn retrieve_knowledge_shape(
    rows: Seq<(Seq<char>, Seq<char>, Seq<char>)>,
    query: Seq<char>,
    k: nat,
    cap: nat,
    bonus: Seq<(Seq<char>, nat)>,
)
    ensures
        (rows.len() == 0 || k == 0) ==> retrieve_kb_spec(rows, query, k, cap, bonus).len() == 0,
        retrieve_kb_spec(rows, query, k, cap, bonus).len() <= k,
        forall|i: int| 0 <= i < retrieve_kb_spec(rows, query, k, cap, bonus).len() ==>
            #[trigger] row_passage(rows, retrieve_kb_spec(rows, query, k, cap, bonus)[i], cap),
{
    let pool = recall_pool_spec(k);
    let kw = rows.map_values(|r: (Seq<char>, Seq<char>, Seq<char>)| (r.0, r.2));
    let recalled = rank_spec(kw, query, pool);
    let m = add_bonus(add_recall(Seq::empty(), recalled, recalled.len() as int), bonus, bonus.len() as int);
    let sorted = first_k(sort_scored(m, m.len() as int), pool);
    let cands = recall_candidates(rows, sorted, sorted.len() as int);
    let rr = rerank_spec(query, cands);
    if rows.len() > 0 && k > 0 {
        lemma_recall_candidates(rows, sorted, sorted.len() as int);
        if cands.len() == 0 {
            let hits = rank_spec(kw, query, k);
            crate::chapter_memory::rank_memory_shape(kw, query, k);
            lemma_keyword_candidates(rows, hits, hits.len() as int);
            lemma_first_k_cut(keyword_candidates(rows, hits, hits.len() as int), rows, k, cap);
        } else if all_zero(rr) {
            lemma_first_k_cut(cands, rows, k, cap);
        } else {
            let top = first_k(rr, k);
            lemma_reranked_rows(cands, top, top.len() as int);
            let rs = reranked_rows(cands, top, top.len() as int);
            assert forall|i: int| 0 <= i < rs.len() implies is_one_of(rows, #[trigger] rs[i]) by {
                let j = choose|j: int| 0 <= j < cands.len() && #[trigger] cands[j] == rs[i];
                assert(is_one_of(rows, cands[j]));
            }
            lemma_first_k_cut(rs, rows, rs.len(), cap);
            assert(first_k(rs, rs.len()) =~= rs);
        }
    }
}

/// A card whose cut snippet is empty adds nothing.
pub open spec fn blank_card(c: (Seq<char>, Seq<char>, nat)) -> bool {
    truncate_spec(trim(c.1), c.2).len() == 0
}

/// The blocks of the non-blank cards among the first `m`.
pub open spec fn fit_blocks(cards: Seq<(Seq<char>, Seq<char>, nat)>, zh: bool, m: int) -> Seq<Seq<char>>
    decreases m,
{
    if m <= 0 {
        Seq::empty()
    } else {
        let p = fit_blocks(cards, zh, m - 1);
        let c = cards[m - 1];
        if blank_card(c) { p } else { p.push(card_block(zh, c.0, c.1, c.2)) }
    }
}

/// The characters those blocks take, one separator each.
pub open spec fn fit_used(cards: Seq<(Seq<char>, Seq<char>, nat)>, zh: bool, m: int) -> nat
    decreases m,
{
    if m <= 0 {
        0
    } else {
        let u = fit_used(cards, zh, m - 1);
        let c = cards[m - 1];
        if blank_card(c) { u } else { u + card_block(zh, c.0, c.1, c.2).len() + 1 }
    }
}

proof fn lemma_cap_fold_prefix(cards: Seq<(Seq<char>, Seq<char>, nat)>, total: nat, zh: bool, n: int) -> (m: int)
    requires
        0 <= n <= cards.len(),
    ensures
        0 <= m <= n,
        cap_fold(cards, total, zh, n).0 == fit_blocks(cards, zh, m),
        cap_fold(cards, total, zh, n).1 == fit_used(cards, zh, m),
        fit_used(cards, zh, m) <= total,
        cap_fold(cards, total, zh, n).2 <==> m < n,
        m < n ==> !blank_card(cards[m])
            && fit_used(cards, zh, m) + card_block(zh, cards[m].0, cards[m].1, cards[m].2).len() + 1 > total,
    decreases n,
{
    if n == 0 {
        0
    } else {
        let m0 = lemma_cap_fold_prefix(cards, total, zh, n - 1);
        let (p, u, st) = cap_fold(cards, total, zh, n - 1);
        let c = cards[n - 1];
        let b = card_block(zh, c.0, c.1, c.2);
        if st {
            m0
        } else if blank_card(c) {
            n
        } else if u + b.len() + 1 > total {
            n - 1
        } else {
            n
        }
    }
}

/// The capped knowledge block is the longest prefix of the non-blank cards
/// whose blocks fit the budget, in card order: it holds the blocks of the
/// non-blank cards among the first `m` (together within `total`), and when
/// `m` stops short of the end, the next card is non-blank and its block
/// would overrun the budget.
pub proof fn capped_is_longest_fitting_prefix(cards: Seq<(Seq<char>, Seq<char>, nat)>, total: nat, zh: bool)
    ensures
        exists|m: int| 0 <= m <= cards.len()
            && capped_spec(cards, total, zh) == join(#[trigger] fit_blocks(cards, zh, m), "\n"@)
            && fit_used(cards, zh, m) <= total
            && (m < cards.len() ==> !blank_card(cards[m])
                && fit_used(cards, zh, m) + card_block(zh, cards[m].0, cards[m].1, cards[m].2).len() + 1 > total),
{
    let m = lemma_cap_fold_prefix(cards, total, zh, cards.len() as int);
    assert(capped_spec(cards, total, zh) == join(fit_blocks(cards, zh, m), "\n"@));
}

/// No two entries share a key.
pub open spec fn keys_distinct(m: Seq<(Seq<char>, nat)>) -> bool {
    forall|i: int, j: int| 0 <= i < j < m.len() ==> (#[trigger] m[i]).0 != (#[trigger] m[j]).0
}

/// No two passages share an id.
pub open spec fn ids_distinct(s: Seq<(Seq<char>, Seq<char>, Seq<char>)>) -> bool {
    forall|i: int, j: int| 0 <= i < j < s.len() ==> (#[trigger] s[i]).0 != (#[trigger] s[j]).0
}

proof fn lemma_key_index(m: Seq<(Seq<char>, nat)>, id: Seq<char>)
    ensures
        match key_index(m, id) {
            Some(j) => 0 <= j < m.len() && m[j].0 == id,
            None => forall|j: int| 0 <= j < m.len() ==> (#[trigger] m[j]).0 != id,
        },
    decreases m.len(),
{
    if m.len() > 0 && m[0].0 != id {
        let t = m.drop_first();
        lemma_key_index(t, id);
        if key_index(t, id) is None {
            assert forall|j: int| 0 <= j < m.len() implies (#[trigger] m[j]).0 != id by {
                if j > 0 {
                    assert(m[j] == t[j - 1]);
                }
            }
        }
    }
}

proof fn lemma_add_score_keys(m: Seq<(Seq<char>, nat)>, id: Seq<char>, b: nat)
    requires
        keys_distinct(m),
    ensures
        keys_distinct(add_score(m, id, b)),
{
    lemma_key_index(m, id);
    let r = add_score(m, id, b);
    match key_index(m, id) {
        Some(k) => {
            assert forall|i: int, j: int| 0 <= i < j < r.len() implies (#[trigger] r[i]).0 != (#[trigger] r[j]).0 by {
                assert(r[i].0 == m[i].0 && r[j].0 == m[j].0);
            }
        },
        None => {
            assert forall|i: int, j: int| 0 <= i < j < r.len() implies (#[trigger] r[i]).0 != (#[trigger] r[j]).0 by {
                if j == m.len() {
                    assert(r[i] == m[i]);
                } else {
                    assert(r[i] == m[i] && r[j] == m[j]);
                }
            }
        },
    }
}

proof fn lemma_recall_bonus_keys(recalled: Seq<(Seq<char>, Seq<char>)>, n: int, bonus: Seq<(Seq<char>, nat)>, nb: int)
    requires
        0 <= n <= recalled.len(),
        0 <= nb <= bonus.len(),
    ensures
        keys_distinct(add_recall(Seq::empty(), recalled, n)),
        keys_distinct(add_bonus(add_recall(Seq::empty(), recalled, n), bonus, nb)),
    decreases n + nb,
{
    if nb > 0 {
        lemma_recall_bonus_keys(recalled, n, bonus, nb - 1);
        let p = add_bonus(add_recall(Seq::empty(), recalled, n), bonus, nb - 1);
        if bonus[nb - 1].1 > 0 {
            lemma_add_score_keys(p, bonus[nb - 1].0, bonus[nb - 1].1);
        }
    } else if n > 0 {
        lemma_recall_bonus_keys(recalled, n - 1, bonus, 0);
        lemma_add_score_keys(add_recall(Seq::empty(), recalled, n - 1), recalled[n - 1].0, 10);
    }
}

proof fn lemma_same_multiset_keys(a: Seq<(Seq<char>, nat)>, b: Seq<(Seq<char>, nat)>)
    requires
        keys_distinct(a),
        a.to_multiset() == b.to_multiset(),
    ensures
        keys_distinct(b),
        forall|i: int| 0 <= i < b.len() ==> a.contains(#[trigger] b[i]),
{
    broadcast use vstd::seq_lib::to_multiset_contains;
    assert(a.no_duplicates()) by {
        assert forall|i: int, j: int| 0 <= i < a.len() && 0 <= j < a.len() && i != j implies a[i] != a[j] by {
            if i < j {
                assert(a[i].0 != a[j].0);
            } else {
                assert(a[j].0 != a[i].0);
            }
        }
    }
    a.lemma_multiset_has_no_duplicates();
    b.lemma_multiset_has_no_duplicates_conv();
    assert forall|i: int| 0 <= i < b.len() implies a.contains(#[trigger] b[i]) by {
        assert(b.to_multiset().count(b[i]) > 0);
        assert(a.to_multiset().count(b[i]) > 0);
    }
    assert forall|i: int, j: int| 0 <= i < j < b.len() implies (#[trigger] b[i]).0 != (#[trigger] b[j]).0 by {
        assert(a.contains(b[i]) && a.contains(b[j]));
        let x = choose|x: int| 0 <= x < a.len() && a[x] == b[i];
        let y = choose|y: int| 0 <= y < a.len() && a[y] == b[j];
        assert(b[i] != b[j]);
        if x < y {
            assert(a[x].0 != a[y].0);
        } else if y < x {
            assert(a[y].0 != a[x].0);
        }
    }
}

proof fn lemma_reranked_is_recall(cands: Seq<(Seq<char>, Seq<char>, Seq<char>)>, rr: Seq<(Seq<char>, nat)>, n: int)
    ensures
        reranked_rows(cands, rr, n) == recall_candidates(cands, rr, n),
    decreases n,
{
    if n > 0 {
        lemma_reranked_is_recall(cands, rr, n - 1);
    }
}

proof fn lemma_recall_ids(rows: Seq<(Seq<char>, Seq<char>, Seq<char>)>, ids: Seq<(Seq<char>, nat)>, n: int)
    requires
        0 <= n <= ids.len(),
        keys_distinct(ids),
    ensures
        ids_distinct(recall_candidates(rows, ids, n)),
        forall|i: int| 0 <= i < recall_candidates(rows, ids, n).len() ==>
            exists|j: int| 0 <= j < n && #[trigger] ids[j].0 == (#[trigger] recall_candidates(rows, ids, n)[i]).0,
    decreases n,
{
    if n > 0 {
        lemma_recall_ids(rows, ids, n - 1);
        lemma_find_row(rows, ids[n - 1].0);
        let p = recall_candidates(rows, ids, n - 1);
        let c = recall_candidates(rows, ids, n);
        assert forall|i: int| 0 <= i < c.len() implies exists|j: int| 0 <= j < n && #[trigger] ids[j].0 == (#[trigger] c[i]).0 by {
            if i < p.len() {
                assert(c[i] == p[i]);
                let j = choose|j: int| 0 <= j < n - 1 && #[trigger] ids[j].0 == p[i].0;
                assert(ids[j].0 == c[i].0);
            } else {
                assert(ids[n - 1].0 == c[i].0);
            }
        }
        assert forall|a: int, b: int| 0 <= a < b < c.len() implies (#[trigger] c[a]).0 != (#[trigger] c[b]).0 by {
            assert(c[a] == p[a]);
            let j = choose|j: int| 0 <= j < n - 1 && #[trigger] ids[j].0 == p[a].0;
            if b < p.len() {
                assert(c[b] == p[b]);
            } else {
                assert(c[b].0 == ids[n - 1].0);
                assert(ids[j].0 != ids[n - 1].0);
            }
        }
    }
}

proof fn lemma_first_k_keys(m: Seq<(Seq<char>, nat)>, k: nat)
    requires
        keys_distinct(m),
    ensures
        keys_distinct(first_k(m, k)),
{
    let f = first_k(m, k);
    assert forall|i: int, j: int| 0 <= i < j < f.len() implies (#[trigger] f[i]).0 != (#[trigger] f[j]).0 by {
        assert(f[i] == m[i] && f[j] == m[j]);
    }
}

proof fn lemma_first_k_cut_ids(s: Seq<(Seq<char>, Seq<char>, Seq<char>)>, k: nat, cap: nat)
    requires
        ids_distinct(s),
    ensures
        ids_distinct(cut_contents(first_k(s, k), cap)),
{
    let f = first_k(s, k);
    let c = cut_contents(f, cap);
    assert forall|i: int, j: int| 0 <= i < j < c.len() implies (#[trigger] c[i]).0 != (#[trigger] c[j]).0 by {
        assert(f[i] == s[i] && f[j] == s[j]);
        assert(c[i].0 == f[i].0 && c[j].0 == f[j].0);
    }
}

proof fn lemma_keyword_ids(rows: Seq<(Seq<char>, Seq<char>, Seq<char>)>, hits: Seq<(Seq<char>, Seq<char>)>, n: int)
    requires
        0 <= n <= hits.len(),
        forall|i: int, j: int| 0 <= i < j < hits.len() ==> (#[trigger] hits[i]).0 != (#[trigger] hits[j]).0,
    ensures
        ids_distinct(keyword_candidates(rows, hits, n)),
        keyword_candidates(rows, hits, n).len() == n,
        forall|i: int| 0 <= i < n ==> (#[trigger] keyword_candidates(rows, hits, n)[i]).0 == hits[i].0,
    decreases n,
{
    if n > 0 {
        lemma_keyword_ids(rows, hits, n - 1);
        lemma_find_row(rows, hits[n - 1].0);
        let p = keyword_candidates(rows, hits, n - 1);
        let c = keyword_candidates(rows, hits, n);
        assert forall|i: int| 0 <= i < n implies (#[trigger] c[i]).0 == hits[i].0 by {
            if i < n - 1 {
                assert(c[i] == p[i]);
            }
        }
        assert forall|a: int, b: int| 0 <= a < b < c.len() implies (#[trigger] c[a]).0 != (#[trigger] c[b]).0 by {
            assert(c[a].0 == hits[a].0 && c[b].0 == hits[b].0);
        }
    }
}

/// With distinct row ids, the passages knowledge retrieval returns have
/// distinct ids.
#[verifier::spinoff_prover]
#[verifier::rlimit(40)]
pub proof fn retrieve_knowledge_distinct(
    rows: Seq<(Seq<char>, Seq<char>, Seq<char>)>,
    query: Seq<char>,
    k: nat,
    cap: nat,
    bonus: Seq<(Seq<char>, nat)>,
)
    requires
        ids_distinct(rows),
    ensures
        ids_distinct(retrieve_kb_spec(rows, query, k, cap, bonus)),
{
    let pool = recall_pool_spec(k);
    let kw = rows.map_values(|r: (Seq<char>, Seq<char>, Seq<char>)| (r.0, r.2));
    let recalled = rank_spec(kw, query, pool);
    let m = add_bonus(add_recall(Seq::empty(), recalled, recalled.len() as int), bonus, bonus.len() as int);
    let srt = sort_scored(m, m.len() as int);
    let sorted = first_k(srt, pool);
    let cands = recall_candidates(rows, sorted, sorted.len() as int);
    let rr = rerank_spec(query, cands);
    if rows.len() == 0 || k == 0 {
        assert(retrieve_kb_spec(rows, query, k, cap, bonus) =~= Seq::<(Seq<char>, Seq<char>, Seq<char>)>::empty());
    } else {
        lemma_recall_bonus_keys(recalled, recalled.len() as int, bonus, bonus.len() as int);
        lemma_sort_scored(m, m.len() as int);
        assert(m.take(m.len() as int) =~= m);
        lemma_same_multiset_keys(m, srt);
        lemma_first_k_keys(srt, pool);
        lemma_recall_ids(rows, sorted, sorted.len() as int);
        if cands.len() == 0 {
            let terms = query_terms_spec(query);
            let hits = rank_spec(kw, query, k);
            if terms.len() > 0 {
                let sc = crate::chapter_memory::row_scores(kw, terms);
                let o = crate::chapter_memory::ranked(sc, kw.len() as int);
                crate::chapter_memory::lemma_ranked_distinct(sc, kw.len() as int);
                let top = if o.len() > k { o.subrange(0, k as int) } else { o };
                assert(hits == top.map_values(|i: int| kw[i]));
                assert forall|i: int, j: int| 0 <= i < j < hits.len() implies (#[trigger] hits[i]).0 != (#[trigger] hits[j]).0 by {
                    assert(top[i] == o[i] && top[j] == o[j]);
                    assert(o[i] != o[j]);
                    assert(hits[i].0 == rows[o[i]].0 && hits[j].0 == rows[o[j]].0);
                    if o[i] < o[j] {
                        assert(rows[o[i]].0 != rows[o[j]].0);
                    } else {
                        assert(rows[o[j]].0 != rows[o[i]].0);
                    }
                }
            }
            lemma_keyword_ids(rows, hits, hits.len() as int);
            lemma_first_k_cut_ids(keyword_candidates(rows, hits, hits.len() as int), k, cap);
        } else if all_zero(rr) {
            lemma_first_k_cut_ids(cands, k, cap);
        } else {
            let items = Seq::new(cands.len(), |i: int| (cands[i].0, cand_score(query, cands[i].2)));
            assert forall|i: int, j: int| 0 <= i < j < items.len() implies (#[trigger] items[i]).0 != (#[trigger] items[j]).0 by {
                assert(items[i].0 == cands[i].0 && items[j].0 == cands[j].0);
            }
            lemma_sort_scored(items, items.len() as int);
            assert(items.take(items.len() as int) =~= items);
            lemma_same_multiset_keys(items, rr);
            let top = first_k(rr, k);
            lemma_first_k_keys(rr, k);
            lemma_reranked_is_recall(cands, top, top.len() as int);
            lemma_recall_ids(cands, top, top.len() as int);
            let rs = reranked_rows(cands, top, top.len() as int);
            lemma_first_k_cut_ids(rs, rs.len(), cap);
            assert(first_k(rs, rs.len()) =~= rs);
        }
    }
}

} // verus!
