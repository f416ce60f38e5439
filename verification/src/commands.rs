//! Rules behind the app's commands: word and chapter targets read from user
//! text, chapter numbers in labels, settings helpers.
use vstd::prelude::*;
use vstd::string::StringSliceAdditionalSpecFns;
use crate::text::{
    all_digits, append, append_decimal, append_str, chars_of, contains_char, contains_str, decimal,
    digits_value, eq, first_index_of, find_char, find_from, has_sub, is_digit, is_ws, is_ws_exec,
    lowercase, nat_view, non_ws_count, non_ws_count_exec, number_runs, number_runs_exec,
    occurs_at, parse_u32, parse_u32_spec, slice, starts_with, starts_with_str, str_lowercase,
    string_of, trim, trim_start, trim_str, trimmed, trimmed_start, first_occurrence, find_str, ends_with,
    ascii_upper_seq, join, join_exec, lines, lines_of, vviews,
};

verus! {

/// Rough prompt size: a quarter of the UTF-8 bytes of both parts.
pub fn estimate_prompt_tokens(system: &str, user: &str) -> (r: u32)
    requires
        system.spec_bytes().len() + user.spec_bytes().len() <= usize::MAX,
    ensures
        r == ((system.spec_bytes().len() + user.spec_bytes().len()) / 4) as u32,
{
    ((system.len() + user.len()) / 4) as u32
}

pub open spec fn mask_key_spec(k: Seq<char>) -> Seq<char> {
    if k.len() <= 8 {
        Seq::new(k.len(), |i: int| '*')
    } else {
        k.subrange(0, 3) + "****"@ + k.subrange(k.len() - 4, k.len() as int)
    }
}

/// An API key as shown in settings: short keys fully starred, longer ones as
/// the first three and last four characters around `****`.
pub fn mask_key(key: &str) -> (r: String)
    ensures
        r@ == mask_key_spec(key@),
{
    let k = chars_of(key);
    let mut out: Vec<char> = Vec::new();
    if k.len() <= 8 {
        let mut i: usize = 0;
        while i < k.len()
            invariant
                i <= k.len(),
                out@ == Seq::new(i as nat, |j: int| '*'),
            decreases k.len() - i,
        {
            out.push('*');
            i += 1;
            assert(out@ =~= Seq::new(i as nat, |j: int| '*'));
        }
    } else {
        out = slice(&k, 0, 3);
        append_str(&mut out, "****");
        append(&mut out, &slice(&k, k.len() - 4, k.len()));
    }
    string_of(&out)
}

/// Stores an incoming key unless it is absent, blank, or a masked copy (holds `*`).
pub fn apply_optional_key(target: &mut String, incoming: Option<String>)
    ensures
        match incoming {
            Some(k) if trim(k@).len() > 0 && !trim(k@).contains('*') => final(target)@ == trim(k@),
            _ => final(target)@ == old(target)@,
        },
{
    match incoming {
        Some(k) => {
            let t = trim_str(k.as_str());
            if t.len() == 0 || contains_char(&t, '*') {
                return;
            }
            *target = string_of(&t);
        }
        None => {}
    }
}

/// The preferred model when one is set, else the fallback (both trimmed).
pub fn task_model(preferred: &str, fallback: &str) -> (r: String)
    ensures
        r@ == crate::global_chat::task_model_spec(preferred@, fallback@),
{
    crate::global_chat::task_model(preferred, fallback)
}

/// A chat-panel model choice overrides the setting when it is not blank.
pub fn apply_chat_model_override(target: &mut String, model: Option<&str>)
    ensures
        match model {
            Some(m) if trim(m@).len() > 0 => final(target)@ == trim(m@),
            _ => final(target)@ == old(target)@,
        },
{
    match model {
        Some(m) => {
            let t = trim_str(m);
            if t.len() > 0 {
                *target = string_of(&t);
            }
        }
        None => {}
    }
}

/// The model every chat-like task uses: the chat-panel model, else the
/// default model.
pub fn llm_model(chat_model: &str, default_model: &str) -> (r: String)
    ensures
        r@ == crate::global_chat::task_model_spec(chat_model@, default_model@),
{
    task_model(chat_model, default_model)
}

/// The model that writes image prompts: the image model, else the chat
/// model of `llm_model`.
pub fn image_prompt_model(image_model: &str, chat_model: &str, default_model: &str) -> (r: String)
    ensures
        r@ == crate::global_chat::task_model_spec(
            image_model@,
            crate::global_chat::task_model_spec(chat_model@, default_model@),
        ),
{
    let chat = llm_model(chat_model, default_model);
    task_model(image_model, chat.as_str())
}

/// A knowledge source is a web address when, trimmed and ASCII-lowercased,
/// it starts with `http://` or `https://`.
pub fn is_http_source(path: &str) -> (r: bool)
    ensures
        r == (starts_with(crate::text::ascii_lower_seq(trim(path@)), "http://"@)
            || starts_with(crate::text::ascii_lower_seq(trim(path@)), "https://"@)),
{
    let p = crate::global_chat::ascii_lowercase(&trim_str(path));
    starts_with_str(&p, "http://") || starts_with_str(&p, "https://")
}

/// Non-whitespace characters of a chapter body (the app's word count).
pub fn count_words(text: &str) -> (r: u32)
    ensures
        r == non_ws_count(text@) as u32,
{
    let n = non_ws_count_exec(&chars_of(text));
    n as u32
}

/// Allowed deviation from the per-chapter word target.
pub const WORD_COUNT_TOLERANCE: u32 = 60;

pub open spec fn max_u32(a: u32, b: u32) -> u32 {
    if a >= b { a } else { b }
}

pub open spec fn normalize_word_range_spec(min: u32, max: u32) -> (u32, u32) {
    if min == 0 && max == 0 {
        (2000, 3000)
    } else if max < min {
        (max_u32(max, 1), min)
    } else {
        (max_u32(min, 1), max_u32(max, max_u32(min, 1)))
    }
}

/// A usable per-chapter word range: `0..0` becomes the default 2000–3000,
/// swapped bounds are put in order, and the minimum is at least 1.
pub fn normalize_word_range(min: u32, max: u32) -> (r: (u32, u32))
    ensures
        r == normalize_word_range_spec(min, max),
        1 <= r.0 <= r.1,
{
    if min == 0 && max == 0 {
        (2000, 3000)
    } else if max < min {
        (if max >= 1 { max } else { 1 }, min)
    } else {
        let lo = if min >= 1 { min } else { 1 };
        (lo, if max >= lo { max } else { lo })
    }
}

/// Normalizing a range twice changes nothing.
pub proof fn normalize_word_range_idempotent(min: u32, max: u32)
    ensures
        normalize_word_range_spec(normalize_word_range_spec(min, max).0, normalize_word_range_spec(min, max).1)
            == normalize_word_range_spec(min, max),
{
}

pub open spec fn tolerance_bounds_spec(wmin: u32, wmax: u32) -> (u32, u32) {
    (
        if wmin >= WORD_COUNT_TOLERANCE { (wmin - WORD_COUNT_TOLERANCE) as u32 } else { 0 },
        if wmax + WORD_COUNT_TOLERANCE <= u32::MAX { (wmax + WORD_COUNT_TOLERANCE) as u32 } else { u32::MAX },
    )
}

/// The accepted word band: the target widened by the tolerance on both sides
/// (saturating).
pub fn word_tolerance_bounds(wmin: u32, wmax: u32) -> (r: (u32, u32))
    ensures
        r == tolerance_bounds_spec(wmin, wmax),
{
    (
        if wmin >= WORD_COUNT_TOLERANCE { wmin - WORD_COUNT_TOLERANCE } else { 0 },
        if wmax <= u32::MAX - WORD_COUNT_TOLERANCE { wmax + WORD_COUNT_TOLERANCE } else { u32::MAX },
    )
}

/// The word count lies in the target range widened by the tolerance.
pub fn word_count_ok(words: u32, wmin: u32, wmax: u32) -> (r: bool)
    ensures
        r == (tolerance_bounds_spec(wmin, wmax).0 <= words <= tolerance_bounds_spec(wmin, wmax).1),
        r == (wmin - WORD_COUNT_TOLERANCE <= words && words <= wmax + WORD_COUNT_TOLERANCE),
{
    let (lo, hi) = word_tolerance_bounds(wmin, wmax);
    words >= lo && words <= hi
}

pub open spec fn pace_spec(wmin0: u32, wmax0: u32) -> (u32, u32, u32) {
    let (wmin, wmax) = normalize_word_range_spec(wmin0, wmax0);
    let sum: int = if wmin + wmax <= u32::MAX { wmin + wmax } else { u32::MAX as int };
    let mid: int = sum / 2;
    let q: int = mid / 320;
    let n: int = if q < 4 { 4 } else if q > 10 { 10 } else { q };
    let lo: int = if n - 1 >= 4 { n - 1 } else { 4 };
    let hi: int = if n + 1 <= 10 { n + 1 } else { 10 };
    let per: int = if mid / n >= 180 { mid / n } else { 180 };
    (lo as u32, hi as u32, per as u32)
}

/// Number of detailed-outline beats `(lo, hi)` and words per beat for a
/// chapter target: about one beat per 320 words of the middle of the range,
/// between 4 and 10 beats, at least 180 words each.
pub fn detailed_outline_pace(wmin: u32, wmax: u32) -> (r: (u32, u32, u32))
    ensures
        r == pace_spec(wmin, wmax),
        4 <= r.0 <= r.1 <= 10,
        r.2 >= 180,
{
    let (wmin, wmax) = normalize_word_range(wmin, wmax);
    let sum = if wmin <= u32::MAX - wmax { wmin + wmax } else { u32::MAX };
    let mid = sum / 2;
    let q = mid / 320;
    let n = if q < 4 { 4 } else if q > 10 { 10 } else { q };
    let lo = if n - 1 >= 4 { n - 1 } else { 4 };
    let hi = if n + 1 <= 10 { n + 1 } else { 10 };
    let per = if mid / n >= 180 { mid / n } else { 180 };
    (lo, hi, per)
}

/// Feedback on a written chapter's length.
pub struct LengthFeedback {
    pub ok: bool,
    pub word_count: u32,
    pub word_count_min: u32,
    pub word_count_max: u32,
    pub in_band: bool,
    pub ai_guidance: &'static str,
}

pub const GUIDE_IN_BAND: &'static str = "字数已在允许区间，禁止再为篇幅改正文。";
pub const GUIDE_TOO_LONG: &'static str = "偏长：只删冗一次后交卷，禁止整章重写。";
pub const GUIDE_TOO_SHORT: &'static str = "偏短：只补关键场面一次后交卷，禁止整章重写。";

/// Whether a chapter's length is in the tolerated band, and the one-line
/// instruction the model gets (stop, trim once, or extend once).
pub fn chapter_length_feedback(words: u32, wmin: u32, wmax: u32) -> (r: LengthFeedback)
    ensures
        (r.word_count_min, r.word_count_max) == normalize_word_range_spec(wmin, wmax),
        r.ok,
        r.word_count == words,
        r.in_band == (tolerance_bounds_spec(r.word_count_min, r.word_count_max).0 <= words
            <= tolerance_bounds_spec(r.word_count_min, r.word_count_max).1),
        r.ai_guidance@ == (if r.in_band {
            GUIDE_IN_BAND@
        } else if words > tolerance_bounds_spec(r.word_count_min, r.word_count_max).1 {
            GUIDE_TOO_LONG@
        } else {
            GUIDE_TOO_SHORT@
        }),
{
    let (wmin, wmax) = normalize_word_range(wmin, wmax);
    let in_band = word_count_ok(words, wmin, wmax);
    let hi = if wmax <= u32::MAX - WORD_COUNT_TOLERANCE { wmax + WORD_COUNT_TOLERANCE } else { u32::MAX };
    let note = if in_band {
        GUIDE_IN_BAND
    } else if words > hi {
        GUIDE_TOO_LONG
    } else {
        GUIDE_TOO_SHORT
    };
    LengthFeedback { ok: true, word_count: words, word_count_min: wmin, word_count_max: wmax, in_band, ai_guidance: note }
}

pub open spec fn mentions_words_spec(text: Seq<char>, lower: Seq<char>) -> bool {
    ||| text.contains('字')
    ||| has_sub(lower, "word"@)
    ||| has_sub(lower, "字数"@)
    ||| has_sub(text, "每章"@)
    ||| has_sub(lower, "per chapter"@)
    ||| has_sub(lower, "chapter length"@)
    ||| has_sub(lower, "target"@)
}

pub open spec fn mentions_range_spec(text: Seq<char>, lower: Seq<char>) -> bool {
    ||| text.contains('–')
    ||| text.contains('-')
    ||| text.contains('—')
    ||| text.contains('~')
    ||| text.contains('到')
    ||| text.contains('至')
    ||| has_sub(lower, " to "@)
}

pub open spec fn word_target_spec(text: Seq<char>) -> Option<(u32, u32)> {
    let lower = str_lowercase(text);
    let nums = number_runs(text, 3, 5, 500, 20000);
    if nums.len() == 0 || !mentions_words_spec(text, lower) {
        None
    } else if nums.len() >= 2 && mentions_range_spec(text, lower) {
        Some(normalize_word_range_spec(nums[0] as u32, nums[1] as u32))
    } else {
        Some((nums.last() as u32, nums.last() as u32))
    }
}

/// A per-chapter word target read from the user's words: the numbers of
/// 3 to 5 digits between 500 and 20000, when the text talks about words or
/// chapter length; two of them with a range word make a range, otherwise the
/// last one is the target.
pub fn parse_word_target_from_text(text: &str) -> (r: Option<(u32, u32)>)
    ensures
        r == word_target_spec(text@),
{
    let t = chars_of(text);
    let lower = lowercase(&t);
    let nums = number_runs_exec(&t, 3, 5, 500, 20000);
    if nums.len() == 0 {
        return None;
    }
    let mentions = contains_char(&t, '字') || contains_str(&lower, "word") || contains_str(&lower, "字数")
        || contains_str(&t, "每章") || contains_str(&lower, "per chapter")
        || contains_str(&lower, "chapter length") || contains_str(&lower, "target");
    if !mentions {
        return None;
    }
    if nums.len() >= 2 && (contains_char(&t, '–') || contains_char(&t, '-') || contains_char(&t, '—')
        || contains_char(&t, '~') || contains_char(&t, '到') || contains_char(&t, '至')
        || contains_str(&lower, " to "))
    {
        assert(nat_view(nums@)[0] == nums@[0] as nat);
        assert(nat_view(nums@)[1] == nums@[1] as nat);
        return Some(normalize_word_range(nums[0], nums[1]));
    }
    let n = nums[nums.len() - 1];
    assert(nat_view(nums@).last() == n as nat);
    Some((n, n))
}

/// A planned chapter count kept between 1 and 500.
pub fn normalize_chapter_count(n: u32) -> (r: u32)
    ensures
        r == (if n < 1 { 1 } else if n > 500 { 500 } else { n }),
{
    if n < 1 { 1 } else if n > 500 { 500 } else { n }
}

pub open spec fn count_hint_spec(text: Seq<char>, lower: Seq<char>) -> bool {
    ||| has_sub(text, "一共"@)
    ||| has_sub(text, "总共"@)
    ||| has_sub(text, "全书"@)
    ||| has_sub(text, "整本"@)
    ||| (has_sub(text, "计划"@) && has_sub(text, "章"@))
    ||| (has_sub(text, "预计"@) && has_sub(text, "章"@))
    ||| has_sub(lower, "total chapters"@)
    ||| has_sub(lower, "chapter count"@)
    ||| has_sub(lower, "chapters total"@)
    ||| (has_sub(lower, "chapters"@) && (has_sub(lower, "total"@) || has_sub(lower, "about"@) || has_sub(lower, "plan"@)))
}

/// The first element of `s` that lies in `[lo, hi]`.
pub open spec fn first_in(s: Seq<nat>, lo: nat, hi: nat) -> Option<nat>
    decreases s.len(),
{
    if s.len() == 0 {
        None
    } else if lo <= s[0] <= hi {
        Some(s[0])
    } else {
        first_in(s.drop_first(), lo, hi)
    }
}

pub open spec fn chapter_count_spec(text: Seq<char>) -> Option<u32> {
    let nums = number_runs(text, 1, usize::MAX as nat, 1, 500);
    if !count_hint_spec(text, str_lowercase(text)) {
        None
    } else {
        match first_in(nums, 1, 200) {
            Some(n) => Some(n as u32),
            None => if nums.len() > 0 { Some(nums[0] as u32) } else { None },
        }
    }
}

/// The planned number of chapters named in the user's words ("一共20章",
/// "plan about 25 chapters total"): the first number from 1 to 200, else the
/// first from 1 to 500.
pub fn parse_chapter_count_from_text(text: &str) -> (r: Option<u32>)
    ensures
        r == chapter_count_spec(text@),
{
    let t = chars_of(text);
    let lower = lowercase(&t);
    let hint = contains_str(&t, "一共") || contains_str(&t, "总共") || contains_str(&t, "全书")
        || contains_str(&t, "整本") || (contains_str(&t, "计划") && contains_str(&t, "章"))
        || (contains_str(&t, "预计") && contains_str(&t, "章"))
        || contains_str(&lower, "total chapters") || contains_str(&lower, "chapter count")
        || contains_str(&lower, "chapters total")
        || (contains_str(&lower, "chapters") && (contains_str(&lower, "total")
            || contains_str(&lower, "about") || contains_str(&lower, "plan")));
    if !hint {
        return None;
    }
    let nums = number_runs_exec(&t, 1, usize::MAX, 1, 500);
    let ghost ns = nat_view(nums@);
    assert(ns.subrange(0, ns.len() as int) =~= ns);
    let mut i: usize = 0;
    while i < nums.len()
        invariant
            i <= nums.len(),
            ns == nat_view(nums@),
            t@ == text@,
            ns == number_runs(text@, 1, usize::MAX as nat, 1, 500),
            count_hint_spec(text@, str_lowercase(text@)),
            first_in(ns, 1, 200) == first_in(ns.subrange(i as int, ns.len() as int), 1, 200),
        decreases nums.len() - i,
    {
        let ghost rest = ns.subrange(i as int, ns.len() as int);
        assert(rest.drop_first() =~= ns.subrange(i + 1, ns.len() as int));
        assert(rest[0] == nums@[i as int] as nat);
        if 1 <= nums[i] && nums[i] <= 200 {
            return Some(nums[i]);
        }
        i += 1;
    }
    if nums.len() > 0 {
        assert(ns[0] == nums@[0] as nat);
        Some(nums[0])
    } else {
        None
    }
}

/// The numbers of 1 to 3 digits between 1 and 500 in `text`, in order.
pub fn extract_small_chapter_nums(text: &str) -> (r: Vec<u32>)
    ensures
        nat_view(r@) == number_runs(text@, 1, 3, 1, 500),
{
    number_runs_exec(&chars_of(text), 1, 3, 1, 500)
}

pub open spec fn trim_genres(s: Seq<Seq<char>>) -> Seq<Seq<char>>
    decreases s.len(),
{
    if s.len() == 0 {
        s
    } else {
        let p = trim_genres(s.drop_last());
        let g = trim(s.last());
        if g.len() == 0 || p.contains(g) { p } else { p.push(g) }
    }
}

pub open spec fn string_views(v: Seq<String>) -> Seq<Seq<char>> {
    v.map_values(|s: String| s@)
}

/// Genres of a knowledge source: the user's then the source's, trimmed, blank
/// ones dropped, each kept once in first-seen order.
pub fn merge_knowledge_genres(user: Vec<String>, from_src: Vec<String>) -> (r: Vec<String>)
    requires
        user@.len() + from_src@.len() <= usize::MAX,
    ensures
        string_views(r@) == trim_genres(string_views(user@) + string_views(from_src@)),
{
    let ghost all = string_views(user@) + string_views(from_src@);
    let mut out: Vec<String> = Vec::new();
    let mut outv: Vec<Vec<char>> = Vec::new();
    let mut i: usize = 0;
    let n = user.len() + from_src.len();
    assert(all.subrange(0, 0) =~= Seq::<Seq<char>>::empty());
    assert(string_views(out@) =~= Seq::<Seq<char>>::empty());
    while i < n
        invariant
            n == user.len() + from_src.len() == all.len(),
            all == string_views(user@) + string_views(from_src@),
            i <= n,
            string_views(out@) == trim_genres(all.subrange(0, i as int)),
            outv@.len() == out@.len(),
            forall|j: int| 0 <= j < outv@.len() ==> (#[trigger] outv@[j])@ == out@[j]@,
        decreases n - i,
    {
        let g: &String = if i < user.len() { &user[i] } else { &from_src[i - user.len()] };
        assert(g@ == all[i as int]);
        let t = trim_str(g.as_str());
        assert(all.subrange(0, i + 1).drop_last() =~= all.subrange(0, i as int));
        if t.len() > 0 {
            let mut found = false;
            let mut k: usize = 0;
            while k < outv.len()
                invariant
                    k <= outv@.len(),
                    outv@.len() == out@.len(),
                    forall|j: int| 0 <= j < outv@.len() ==> (#[trigger] outv@[j])@ == out@[j]@,
                    !found ==> forall|j: int| 0 <= j < k ==> out@[j]@ != t@,
                    found ==> string_views(out@).contains(t@),
                decreases outv.len() - k,
            {
                if !found && eq(&outv[k], &t) {
                    found = true;
                    assert(string_views(out@)[k as int] == t@);
                }
                k += 1;
            }
            if !found {
                assert(!string_views(out@).contains(t@)) by {
                    if string_views(out@).contains(t@) {
                        let j = choose|j: int| 0 <= j < string_views(out@).len() && string_views(out@)[j] == t@;
                        assert(out@[j]@ == t@);
                    }
                }
                let s = string_of(&t);
                let ghost prev = out@;
                out.push(s);
                assert(string_views(out@) =~= string_views(prev).push(t@));
                outv.push(t);
            }
        }
        i += 1;
    }
    assert(all.subrange(0, n as int) =~= all);
    out
}


pub open spec fn cn_digit_spec(c: char) -> Option<u32> {
    if c == '零' || c == '〇' { Some(0u32) }
    else if c == '一' || c == '壹' { Some(1u32) }
    else if c == '二' || c == '两' || c == '兩' || c == '贰' { Some(2u32) }
    else if c == '三' || c == '叁' { Some(3u32) }
    else if c == '四' || c == '肆' { Some(4u32) }
    else if c == '五' || c == '伍' { Some(5u32) }
    else if c == '六' || c == '陆' || c == '陸' { Some(6u32) }
    else if c == '七' || c == '柒' { Some(7u32) }
    else if c == '八' || c == '捌' { Some(8u32) }
    else if c == '九' || c == '玖' { Some(9u32) }
    else { None }
}

/// Value of a Chinese digit character (common and financial forms).
pub fn cn_digit(ch: char) -> (r: Option<u32>)
    ensures
        r == cn_digit_spec(ch),
{
    if ch == '零' || ch == '〇' { Some(0) }
    else if ch == '一' || ch == '壹' { Some(1) }
    else if ch == '二' || ch == '两' || ch == '兩' || ch == '贰' { Some(2) }
    else if ch == '三' || ch == '叁' { Some(3) }
    else if ch == '四' || ch == '肆' { Some(4) }
    else if ch == '五' || ch == '伍' { Some(5) }
    else if ch == '六' || ch == '陆' || ch == '陸' { Some(6) }
    else if ch == '七' || ch == '柒' { Some(7) }
    else if ch == '八' || ch == '捌' { Some(8) }
    else if ch == '九' || ch == '玖' { Some(9) }
    else { None }
}

pub open spec fn is_cn_num_char_spec(c: char) -> bool {
    cn_digit_spec(c) is Some || c == '十' || c == '百'
}

/// A Chinese digit, `十` or `百`.
pub fn is_cn_num_char(ch: char) -> (r: bool)
    ensures
        r == is_cn_num_char_spec(ch),
{
    cn_digit(ch).is_some() || ch == '十' || ch == '百'
}

/// The Chinese numeral characters of `s`, in order.
pub open spec fn cn_chars(s: Seq<char>) -> Seq<char>
    decreases s.len(),
{
    if s.len() == 0 {
        s
    } else if is_cn_num_char_spec(s.last()) {
        cn_chars(s.drop_last()).push(s.last())
    } else {
        cn_chars(s.drop_last())
    }
}

pub open spec fn sat(x: int) -> nat {
    if x <= u32::MAX { x as nat } else { u32::MAX as nat }
}

/// The value read by scanning numeral characters `c` from `i` with total `n`.
pub open spec fn cn_scan(c: Seq<char>, i: int, n: nat) -> Option<nat>
    decreases c.len() - i,
{
    if i < 0 || i >= c.len() {
        Some(n)
    } else if c[i] == '百' {
        cn_scan(c, i + 1, sat((if n == 0 { 1int } else { n as int }) * 100))
    } else if c[i] == '十' {
        cn_scan(c, i + 1, sat((if n == 0 { 1int } else { n as int }) * 10))
    } else {
        match cn_digit_spec(c[i]) {
            None => None,
            Some(v) => if v == 0 {
                cn_scan(c, i + 1, n)
            } else if i + 1 < c.len() && c[i + 1] == '百' {
                cn_scan(c, i + 2, sat(n + v * 100))
            } else if i + 1 < c.len() && c[i + 1] == '十' {
                cn_scan(c, i + 2, sat(n + v * 10))
            } else {
                cn_scan(c, i + 1, sat(n + v))
            },
        }
    }
}

pub open spec fn chinese_numeral_spec(s: Seq<char>) -> Option<u32> {
    let c = cn_chars(s);
    if c.len() == 0 {
        None
    } else {
        match cn_scan(c, 0, 0) {
            Some(n) => if 1 <= n <= 500 { Some(n as u32) } else { None },
            None => None,
        }
    }
}

/// A chapter number written in Chinese numerals (一…九十九, 一百…), read from
/// the numeral characters of `s`; only 1 to 500 is accepted.
pub fn parse_chinese_numeral(s: &str) -> (r: Option<u32>)
    ensures
        r == chinese_numeral_spec(s@),
{
    let sv = chars_of(s);
    let mut chars: Vec<char> = Vec::new();
    let mut k: usize = 0;
    while k < sv.len()
        invariant
            k <= sv.len(),
            sv@ == s@,
            chars@ == cn_chars(sv@.subrange(0, k as int)),
        decreases sv.len() - k,
    {
        assert(sv@.subrange(0, k + 1).drop_last() =~= sv@.subrange(0, k as int));
        if is_cn_num_char(sv[k]) {
            chars.push(sv[k]);
        }
        k += 1;
    }
    assert(sv@.subrange(0, sv.len() as int) =~= sv@);
    if chars.len() == 0 {
        return None;
    }
    let mut n: u32 = 0;
    let mut i: usize = 0;
    while i < chars.len()
        invariant
            i <= chars.len() + 1,
            chars@ == cn_chars(s@),
            chars.len() > 0,
            cn_scan(chars@, 0, 0) == cn_scan(chars@, i as int, n as nat),
        decreases chars.len() + 1 - i,
    {
        let c = chars[i];
        if c == '百' {
            let b: u32 = if n == 0 { 1 } else { n };
            n = if b <= 42949672 { b * 100 } else { 4294967295 };
            i += 1;
            continue;
        }
        if c == '十' {
            let b: u32 = if n == 0 { 1 } else { n };
            n = if b <= 429496729 { b * 10 } else { 4294967295 };
            i += 1;
            continue;
        }
        let v = match cn_digit(c) {
            Some(v) => v,
            None => {
                return None;
            }
        };
        if v == 0 {
            i += 1;
            continue;
        }
        if i + 1 < chars.len() && chars[i + 1] == '百' {
            n = if n <= 4294967295 - v * 100 { n + v * 100 } else { 4294967295 };
            i += 2;
            continue;
        }
        if i + 1 < chars.len() && chars[i + 1] == '十' {
            n = if n <= 4294967295 - v * 10 { n + v * 10 } else { 4294967295 };
            i += 2;
            continue;
        }
        n = if n <= 4294967295 - v { n + v } else { 4294967295 };
        i += 1;
    }
    if 1 <= n && n <= 500 {
        Some(n)
    } else {
        None
    }
}

pub open spec fn chapter_token_spec(tok: Seq<char>) -> Option<u32> {
    let t = trim(tok);
    if t.len() == 0 {
        None
    } else {
        match parse_u32_spec(t) {
            Some(n) => if 1 <= n <= 500 { Some(n as u32) } else { None },
            None => chinese_numeral_spec(t),
        }
    }
}

/// A chapter number token: decimal (1–500), else Chinese numerals.
pub fn parse_chapter_num_token(tok: &str) -> (r: Option<u32>)
    ensures
        r == chapter_token_spec(tok@),
{
    let t = trim_str(tok);
    if t.len() == 0 {
        return None;
    }
    match parse_u32(&t) {
        Some(n) => {
            if 1 <= n && n <= 500 { Some(n) } else { None }
        }
        None => {
            let ts = string_of(&t);
            parse_chinese_numeral(ts.as_str())
        }
    }
}

/// Scan after `第`: whether `章` was reached, the numeral characters read
/// (whitespace skipped), and where the unread remainder starts.
pub open spec fn scan_after_di(rest: Seq<char>, k: int, body: Seq<char>, remi: int) -> (bool, Seq<char>, int)
    decreases rest.len() - k,
{
    if k < 0 || k >= rest.len() {
        (false, body, remi)
    } else if rest[k] == '章' {
        (true, body, remi)
    } else if is_ws(rest[k]) {
        scan_after_di(rest, k + 1, body, remi)
    } else if is_digit(rest[k]) || is_cn_num_char_spec(rest[k]) {
        scan_after_di(rest, k + 1, body.push(rest[k]), k + 1)
    } else {
        (false, body, k)
    }
}

/// Digits of `s` after skipping leading whitespace, `.` and `#`, up to the
/// first other character.
pub open spec fn english_body(s: Seq<char>, k: int, body: Seq<char>) -> Seq<char>
    decreases s.len() - k,
{
    if k < 0 || k >= s.len() {
        body
    } else if is_digit(s[k]) {
        english_body(s, k + 1, body.push(s[k]))
    } else if body.len() == 0 && (is_ws(s[k]) || s[k] == '.' || s[k] == '#') {
        english_body(s, k + 1, body)
    } else {
        body
    }
}

/// The part of label parsing that reads `第N章`, `第N` and `第N · …`:
/// `Some(answer)` when it decides, `None` to try the other forms.
pub open spec fn label_di_part(label: Seq<char>) -> Option<Option<u32>> {
    match first_index_of(label, '第') {
        None => None,
        Some(i) => {
            let rest = label.subrange(i + 1, label.len() as int);
            let (hit, body, remi) = scan_after_di(rest, 0, Seq::<char>::empty(), 0);
            if hit {
                Some(chapter_token_spec(body))
            } else {
                let rem = trim_start(rest.subrange(remi, rest.len() as int));
                if body.len() > 0 && (rem.len() == 0 || rem[0] == '·' || rem[0] == '・' || rem[0] == '—') {
                    Some(chapter_token_spec(body))
                } else {
                    None
                }
            }
        }
    }
}

pub open spec fn label_zhang_part(label: Seq<char>) -> Option<u32> {
    match first_index_of(label, '章') {
        None => None,
        Some(j) => {
            let head = trim(label.subrange(0, j));
            if !head.contains('到') && !head.contains('至') && !head.contains('-') {
                chapter_token_spec(head)
            } else {
                None
            }
        }
    }
}

pub open spec fn label_english_part(label: Seq<char>) -> Option<u32> {
    let lower = str_lowercase(label);
    match first_occurrence(lower, "chapter"@) {
        None => None,
        Some(i) => {
            let rest = trim_start(lower.subrange(i + 7, lower.len() as int));
            chapter_token_spec(english_body(rest, 0, Seq::<char>::empty()))
        }
    }
}

pub open spec fn chapter_number_spec(label: Seq<char>) -> Option<u32> {
    match label_di_part(label) {
        Some(ans) => ans,
        None => match label_zhang_part(label) {
            Some(n) => Some(n),
            None => label_english_part(label),
        },
    }
}

fn label_di_part_exec(label: &Vec<char>) -> (r: Option<Option<u32>>)
    ensures
        r == label_di_part(label@),
{
    let i = match find_char(label, '第', 0) {
        Some(i) => i,
        None => {
            assert(label@.subrange(0, label.len() as int) =~= label@);
            return None;
        }
    };
    assert(label@.subrange(0, label.len() as int) =~= label@);
    let rest = slice(label, i + 1, label.len());
    let mut body: Vec<char> = Vec::new();
    let mut remi: usize = 0;
    let mut k: usize = 0;
    let mut stop = false;
    while k < rest.len() && !stop
        invariant
            k <= rest.len(),
            remi <= rest.len(),
            rest@ == label@.subrange(i + 1, label.len() as int),
            first_index_of(label@, '第') == Some(i as int),
            !stop ==> scan_after_di(rest@, 0, Seq::<char>::empty(), 0) == scan_after_di(rest@, k as int, body@, remi as int),
            stop ==> scan_after_di(rest@, 0, Seq::<char>::empty(), 0) == (false, body@, remi as int),
        decreases rest.len() - k, if stop { 0int } else { 1int },
    {
        let ch = rest[k];
        if ch == '章' {
            let bs = string_of(&body);
            return Some(parse_chapter_num_token(bs.as_str()));
        }
        if is_ws_exec(ch) {
            k += 1;
        } else if ('0' <= ch && ch <= '9') || is_cn_num_char(ch) {
            body.push(ch);
            k += 1;
            remi = k;
        } else {
            remi = k;
            stop = true;
        }
    }
    let tail = slice(&rest, remi, rest.len());
    let rem = trimmed_start(&tail);
    if body.len() > 0 && (rem.len() == 0 || rem[0] == '·' || rem[0] == '・' || rem[0] == '—') {
        let bs = string_of(&body);
        return Some(parse_chapter_num_token(bs.as_str()));
    }
    None
}

/// The chapter number in a chapter label: `第N章`, `第N`, `第N · 标题`,
/// `N章` (not in a range such as `第一到第十章`), or `Chapter N`.
pub fn chapter_number_from_label(label: &str) -> (r: Option<u32>)
    ensures
        r == chapter_number_spec(label@),
{
    let lv = chars_of(label);
    match label_di_part_exec(&lv) {
        Some(ans) => {
            return ans;
        }
        None => {}
    }
    assert(lv@.subrange(0, lv.len() as int) =~= lv@);
    match find_char(&lv, '章', 0) {
        Some(j) => {
            let head = trimmed(&slice(&lv, 0, j));
            if !contains_char(&head, '到') && !contains_char(&head, '至') && !contains_char(&head, '-') {
                let hs = string_of(&head);
                match parse_chapter_num_token(hs.as_str()) {
                    Some(n) => {
                        return Some(n);
                    }
                    None => {}
                }
            }
        }
        None => {}
    }
    let lower = lowercase(&lv);
    assert(lv@ == label@);
    let found = find_str(&lower, "chapter");
    match found {
        Some(i) => {
            proof {
                reveal_strlit("chapter");
            }
            assert("chapter"@.len() == 7);
            assert(occurs_at(lower@, "chapter"@, i as int));
            assert(i + 7 <= lower@.len());
            let ll = lower.len();
            let start: usize = i + 7;
            let rest = trimmed_start(&slice(&lower, start, lower.len()));
            let mut body: Vec<char> = Vec::new();
            let mut k: usize = 0;
            let mut stop = false;
            while k < rest.len() && !stop
                invariant
                    k <= rest.len(),
                    !stop ==> english_body(rest@, 0, Seq::<char>::empty()) == english_body(rest@, k as int, body@),
                    stop ==> english_body(rest@, 0, Seq::<char>::empty()) == body@,
                decreases rest.len() - k, if stop { 0int } else { 1int },
            {
                let ch = rest[k];
                if '0' <= ch && ch <= '9' {
                    body.push(ch);
                    k += 1;
                } else if body.len() == 0 && (is_ws_exec(ch) || ch == '.' || ch == '#') {
                    k += 1;
                } else {
                    stop = true;
                }
            }
            let bs = string_of(&body);
            parse_chapter_num_token(bs.as_str())
        }
        None => None,
    }
}

/// Label written to the tree for chapter `n`: `第n章` when blank, kept when it
/// already names chapter `n`, else `第n章 · label`.
pub fn normalize_chapter_label(n: u32, label: &str) -> (r: String)
    ensures
        r@ == (if trim(label@).len() == 0 {
            "第"@ + decimal(n as nat) + "章"@
        } else if chapter_number_spec(trim(label@)) == Some(n) {
            trim(label@)
        } else {
            "第"@ + decimal(n as nat) + "章 · "@ + trim(label@)
        }),
{
    let t = trim_str(label);
    let mut out = chars_of("第");
    append_decimal(&mut out, n as u64);
    if t.len() == 0 {
        append_str(&mut out, "章");
        return string_of(&out);
    }
    let ts = string_of(&t);
    if chapter_number_from_label(ts.as_str()) == Some(n) {
        return ts;
    }
    append_str(&mut out, "章 · ");
    append(&mut out, &t);
    string_of(&out)
}


/// Index of the first whitespace character.
pub open spec fn first_ws(s: Seq<char>) -> Option<int>
    decreases s.len(),
{
    if s.len() == 0 {
        None
    } else if is_ws(s[0]) {
        Some(0)
    } else {
        match first_ws(s.drop_first()) {
            Some(k) => Some(k + 1),
            None => None,
        }
    }
}

/// The first whitespace-separated token of a trimmed, non-empty string.
pub open spec fn first_token(a: Seq<char>) -> Seq<char> {
    match first_ws(a) {
        Some(j) => a.subrange(0, j),
        None => a,
    }
}

proof fn lemma_first_ws(s: Seq<char>, k: int)
    requires
        0 <= k <= s.len(),
        forall|j: int| 0 <= j < k ==> !is_ws(s[j]),
        k < s.len() ==> is_ws(s[k]),
    ensures
        first_ws(s) == (if k < s.len() { Some(k) } else { None::<int> }),
        first_token(s) == s.subrange(0, k),
    decreases k,
{
    if k > 0 {
        lemma_first_ws(s.drop_first(), k - 1);
    }
    if k == s.len() {
        assert(s.subrange(0, k) =~= s);
    }
}

pub open spec fn chapter_ref_spec(args: Seq<char>) -> Option<u32> {
    let a = trim(args);
    if a.len() == 0 {
        None
    } else if chapter_number_spec(a) is Some {
        chapter_number_spec(a)
    } else {
        let tok = first_token(a);
        let alt = if ends_with(tok, "章"@) { "第"@ + tok } else { "第"@ + tok + "章"@ };
        if chapter_number_spec(tok) is Some {
            chapter_number_spec(tok)
        } else if chapter_number_spec(alt) is Some {
            chapter_number_spec(alt)
        } else if chapter_token_spec(tok) is Some {
            chapter_token_spec(tok)
        } else {
            let ns = number_runs(a, 1, 3, 1, 500);
            if ns.len() > 0 { Some(ns[0] as u32) } else { None }
        }
    }
}

/// The chapter a command argument refers to: `3`, `第三章`, `第三章 · 夜`,
/// `一`, or a number found in the text.
pub fn parse_chapter_ref(args: &str) -> (r: Option<u32>)
    ensures
        r == chapter_ref_spec(args@),
{
    let a = trim_str(args);
    if a.len() == 0 {
        return None;
    }
    let as_ = string_of(&a);
    let n0 = chapter_number_from_label(as_.as_str());
    if n0.is_some() {
        return n0;
    }
    let mut k: usize = 0;
    while k < a.len() && !is_ws_exec(a[k])
        invariant
            k <= a.len(),
            forall|j: int| 0 <= j < k ==> !is_ws(a@[j]),
        decreases a.len() - k,
    {
        k += 1;
    }
    proof {
        lemma_first_ws(a@, k as int);
    }
    let tok = slice(&a, 0, k);
    let toks = string_of(&tok);
    let n1 = chapter_number_from_label(toks.as_str());
    if n1.is_some() {
        return n1;
    }
    let mut alt = chars_of("第");
    append(&mut alt, &tok);
    let ends = crate::text::ends_with_str(&tok, "章");
    if !ends {
        append_str(&mut alt, "章");
    }
    let alts = string_of(&alt);
    let n2 = chapter_number_from_label(alts.as_str());
    if n2.is_some() {
        return n2;
    }
    let n3 = parse_chapter_num_token(toks.as_str());
    if n3.is_some() {
        return n3;
    }
    let ns = number_runs_exec(&a, 1, 3, 1, 500);
    if ns.len() > 0 {
        assert(nat_view(ns@)[0] == ns@[0] as nat);
        Some(ns[0])
    } else {
        None
    }
}

/// How far the index of a knowledge book has come.
pub struct KnowledgeIndexStatus {
    pub book_id: String,
    pub chunk_count: i64,
    pub embedding_count: i64,
}

/// One message of a worldview chat.
pub struct ChatTurn {
    pub role: String,
    pub content: String,
}

/// A character sheet: its image prompt and where the image was saved.
pub struct CharacterSheetResult {
    pub prompt: String,
    pub image_path: String,
}

/// `s` trimmed; when it opens with a code fence, without the opening fence
/// line and a closing ``` line, trimmed again.
pub open spec fn strip_fence_spec(s: Seq<char>) -> Seq<char> {
    let t = trim(s);
    if !starts_with(t, "```"@) {
        t
    } else {
        let ls = lines(t);
        let a = if ls.len() > 0 && starts_with(ls[0], "```"@) { ls.drop_first() } else { ls };
        let b = if a.len() > 0 && trim(a.last()) == "```"@ { a.drop_last() } else { a };
        trim(join(b, "\n"@))
    }
}

/// The reply without an outer Markdown code fence.
pub fn strip_outer_md_fence(s: &str) -> (r: String)
    ensures
        r@ == strip_fence_spec(s@),
{
    let t = trim_str(s);
    if !crate::text::starts_with_str(&t, "```") {
        return string_of(&t);
    }
    let ls = lines_of(&t);
    let ghost lv = lines(t@);
    assert(vviews(ls@) =~= lv);
    let mut parts: Vec<Vec<char>> = Vec::new();
    let start: usize = if ls.len() > 0 && crate::text::starts_with_str(&ls[0], "```") { 1 } else { 0 };
    let ghost a = if lv.len() > 0 && starts_with(lv[0], "```"@) { lv.drop_first() } else { lv };
    let mut end: usize = ls.len();
    if end > start {
        let last = trimmed(&ls[end - 1]);
        if crate::text::eq_str(&last, "```") {
            end = end - 1;
        }
    }
    let ghost b = if a.len() > 0 && trim(a.last()) == "```"@ { a.drop_last() } else { a };
    assert(a =~= lv.subrange(start as int, lv.len() as int));
    if ls.len() > start {
        assert(a.last() == lv[ls.len() - 1]);
    }
    assert(b =~= lv.subrange(start as int, end as int));
    let mut k: usize = start;
    while k < end
        invariant
            start <= k <= end <= ls.len(),
            lv == vviews(ls@),
            vviews(parts@) == lv.subrange(start as int, k as int),
        decreases end - k,
    {
        let ghost before = vviews(parts@);
        let mut c: Vec<char> = Vec::new();
        append(&mut c, &ls[k]);
        assert(c@ =~= lv[k as int]);
        parts.push(c);
        assert(vviews(parts@) =~= before.push(lv[k as int]));
        k += 1;
        assert(vviews(parts@) =~= lv.subrange(start as int, k as int));
    }
    let j = join_exec(&parts, "\n");
    string_of(&trimmed(&j))
}

/// The first line of `t`, or nothing.
pub open spec fn first_line(t: Seq<char>) -> Seq<char> {
    if lines(t).len() > 0 { lines(t)[0] } else { Seq::empty() }
}

/// Whether the lore check answered that the text agrees with the canon.
pub open spec fn lore_ok_spec(t: Seq<char>) -> bool {
    starts_with(ascii_upper_seq(trim(first_line(t))), "LORE_OK"@)
}

/// A corrected text is taken when the check did not answer `LORE_OK` and
/// the correction keeps more than half of the original's length.
pub open spec fn lore_patch_spec(original: Seq<char>, out: Seq<char>) -> Option<Seq<char>> {
    let t = strip_fence_spec(out);
    if lore_ok_spec(t) {
        None
    } else if trim(t).len() > trim(original).len() / 2 {
        Some(t)
    } else {
        None
    }
}

fn ascii_uppercase(s: &Vec<char>) -> (r: Vec<char>)
    ensures
        r@ == ascii_upper_seq(s@),
{
    let mut r: Vec<char> = Vec::new();
    let mut i: usize = 0;
    while i < s.len()
        invariant
            i <= s.len(),
            r@ == ascii_upper_seq(s@.subrange(0, i as int)),
        decreases s.len() - i,
    {
        let c = s[i];
        let u = if 'a' <= c && c <= 'z' { ((c as u8) - 32) as char } else { c };
        r.push(u);
        i += 1;
        assert(r@ =~= ascii_upper_seq(s@.subrange(0, i as int)));
    }
    assert(s@.subrange(0, s.len() as int) =~= s@);
    r
}

/// What the lore check's reply does to the original text: the corrected
/// text, or nothing (see `lore_patch_spec`).
pub fn lore_verify_accepts_patch(original: &str, out: &str) -> (r: Option<String>)
    ensures
        match r {
            Some(t) => lore_patch_spec(original@, out@) == Some(t@),
            None => lore_patch_spec(original@, out@) is None,
        },
{
    let t = strip_outer_md_fence(out);
    let tv = chars_of(t.as_str());
    let ls = lines_of(&tv);
    let head: Vec<char> = if ls.len() > 0 { trimmed(&ls[0]) } else { Vec::new() };
    let up = ascii_uppercase(&head);
    if crate::text::starts_with_str(&up, "LORE_OK") {
        return None;
    }
    let tl = trim_str(t.as_str()).len();
    let ol = trim_str(original).len();
    if tl > ol / 2 {
        Some(t)
    } else {
        None
    }
}

/// A Chinese digit from one to nine.
pub open spec fn cn_unit(c: char, v: u32) -> bool {
    cn_digit_spec(c) == Some(v) && 1 <= v <= 9
}

/// A lone digit, a digit with `十` and a digit with `百` read as the digit,
/// ten times it and a hundred times it (accepted when at most 500).
pub proof fn chinese_numeral_units(e: char, b: u32)
    requires
        cn_unit(e, b),
    ensures
        chinese_numeral_spec(seq![e]) == Some(b),
        chinese_numeral_spec(seq![e, '十']) == Some((10 * b) as u32),
        chinese_numeral_spec(seq![e, '百']) == (if b <= 5 { Some((100 * b) as u32) } else { None::<u32> }),
{
    reveal_with_fuel(cn_chars, 3);
    reveal_with_fuel(cn_scan, 3);
    assert(cn_chars(seq![e]) =~= seq![e]) by {
        assert(seq![e].drop_last() =~= Seq::<char>::empty());
    }
    assert(cn_chars(seq![e, '十']) =~= seq![e, '十']) by {
        assert(seq![e, '十'].drop_last() =~= seq![e]);
        assert(seq![e].drop_last() =~= Seq::<char>::empty());
    }
    assert(cn_chars(seq![e, '百']) =~= seq![e, '百']) by {
        assert(seq![e, '百'].drop_last() =~= seq![e]);
        assert(seq![e].drop_last() =~= Seq::<char>::empty());
    }
    assert(cn_scan(seq![e], 0, 0) == Some(b as nat));
    assert(cn_scan(seq![e, '十'], 0, 0) == Some((10 * b) as nat));
    assert(cn_scan(seq![e, '百'], 0, 0) == Some((100 * b) as nat));
}

/// Reading numerals is positional and additive: `d百e十f` is
/// `100·d + 10·e + f`, `e十f` is `10·e + f` and `十f` is `10 + f`, for digits
/// `d`, `e` from one to nine and `f` from zero to nine (accepted when at most
/// 500).
pub proof fn chinese_numeral_adds_places(d: char, a: u32, e: char, b: u32, f: char, g: u32)
    requires
        cn_unit(d, a),
        cn_unit(e, b),
        cn_digit_spec(f) == Some(g),
    ensures
        chinese_numeral_spec(seq![d, '百', e, '十', f])
            == (if 100 * a + 10 * b + g <= 500 { Some((100 * a + 10 * b + g) as u32) } else { None::<u32> }),
        chinese_numeral_spec(seq![e, '十', f]) == Some((10 * b + g) as u32),
        chinese_numeral_spec(seq!['十', f]) == Some((10 + g) as u32),
{
    let s5 = seq![d, '百', e, '十', f];
    let s3 = seq![e, '十', f];
    let s2 = seq!['十', f];
    assert(g <= 9);
    reveal_with_fuel(cn_chars, 6);
    assert(s5.drop_last().drop_last().drop_last().drop_last().drop_last() =~= Seq::<char>::empty());
    assert(cn_chars(s5) =~= s5) by {
        assert(s5.drop_last() =~= seq![d, '百', e, '十']);
        assert(s5.drop_last().drop_last() =~= seq![d, '百', e]);
        assert(s5.drop_last().drop_last().drop_last() =~= seq![d, '百']);
        assert(s5.drop_last().drop_last().drop_last().drop_last() =~= seq![d]);
    }
    assert(cn_chars(s3) =~= s3) by {
        assert(s3.drop_last() =~= seq![e, '十']);
        assert(s3.drop_last().drop_last() =~= seq![e]);
        assert(s3.drop_last().drop_last().drop_last() =~= Seq::<char>::empty());
    }
    assert(cn_chars(s2) =~= s2) by {
        assert(s2.drop_last() =~= seq!['十']);
        assert(s2.drop_last().drop_last() =~= Seq::<char>::empty());
    }
    reveal_with_fuel(cn_scan, 6);
    assert(cn_scan(s5, 0, 0) == Some((100 * a + 10 * b + g) as nat));
    assert(cn_scan(s3, 0, 0) == Some((10 * b + g) as nat));
    assert(cn_scan(s2, 0, 0) == Some((10 + g) as nat));
}

/// Without a range word, the per-chapter target is the last qualifying
/// number the user wrote (a number of 3 to 5 digits between 500 and 20000),
/// so a change from an old length to a new one takes the new one; with
/// nothing about words or no such number there is no target.
pub proof fn word_target_is_last_number(text: Seq<char>)
    ensures
        ({
            let nums = number_runs(text, 3, 5, 500, 20000);
            let lower = str_lowercase(text);
            &&& (nums.len() == 0 || !mentions_words_spec(text, lower)) ==> word_target_spec(text) is None
            &&& (nums.len() > 0 && mentions_words_spec(text, lower) && !(nums.len() >= 2 && mentions_range_spec(text, lower)))
                ==> word_target_spec(text) == Some((nums[nums.len() - 1] as u32, nums[nums.len() - 1] as u32))
            &&& (nums.len() >= 2 && mentions_words_spec(text, lower) && mentions_range_spec(text, lower))
                ==> word_target_spec(text) == Some((
                    (if nums[0] <= nums[1] { nums[0] } else { nums[1] }) as u32,
                    (if nums[0] <= nums[1] { nums[1] } else { nums[0] }) as u32,
                ))
        }),
{
    let nums = number_runs(text, 3, 5, 500, 20000);
    if nums.len() >= 2 {
        crate::text::lemma_number_runs_bounds(text, 3, 5, 500, 20000);
        assert(500 <= nums[0] <= 20000 && 500 <= nums[1] <= 20000);
    }
}

} // verus!
