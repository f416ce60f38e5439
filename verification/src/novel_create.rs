//! What a create-novel chat turns into a new novel: the transcript the
//! model reads, the plan read from its draft, and the fallback used when
//! the user forces creation without a draft.
use vstd::prelude::*;
use crate::commands::{chapter_count_spec as text_count_spec, parse_chapter_count_from_text};
use crate::json::{as_str_spec, as_u64_spec, get_spec, json_get, Json};
use crate::plan_json::{chapter_count_from_json, chapter_count_spec as json_count_spec};
use crate::text::{append_str, chars_of, join, join_exec, string_of, vviews};

verus! {

/// One chat line as the model reads it: `role: content`.
pub open spec fn transcript_line(m: (Seq<char>, Seq<char>)) -> Seq<char> {
    m.0 + ": "@ + m.1
}

pub open spec fn message_views(ms: Seq<(String, String)>) -> Seq<(Seq<char>, Seq<char>)> {
    ms.map_values(|m: (String, String)| (m.0@, m.1@))
}

/// The whole chat, one `role: content` line per message.
pub fn create_transcript(messages: &Vec<(String, String)>) -> (r: String)
    ensures
        r@ == join(message_views(messages@).map_values(|m: (Seq<char>, Seq<char>)| transcript_line(m)), "\n"@),
{
    let mut lines: Vec<Vec<char>> = Vec::new();
    let mut i: usize = 0;
    while i < messages.len()
        invariant
            i <= messages@.len(),
            vviews(lines@) =~= message_views(messages@.subrange(0, i as int)).map_values(
                |m: (Seq<char>, Seq<char>)| transcript_line(m),
            ),
        decreases messages@.len() - i,
    {
        let mut line = chars_of(messages[i].0.as_str());
        append_str(&mut line, ": ");
        append_str(&mut line, messages[i].1.as_str());
        let ghost before = vviews(lines@);
        lines.push(line);
        proof {
            assert(messages@.subrange(0, i + 1) =~= messages@.subrange(0, i as int).push(messages@[i as int]));
            assert(vviews(lines@) =~= before.push(transcript_line((messages@[i as int].0@, messages@[i as int].1@))));
        }
        i += 1;
    }
    assert(messages@.subrange(0, messages@.len() as int) =~= messages@);
    string_of(&join_exec(&lines, "\n"))
}

/// The last of the user's messages that names a chapter count, and that count.
pub open spec fn last_count_mention(texts: Seq<Seq<char>>) -> Option<u32>
    decreases texts.len(),
{
    if texts.len() == 0 {
        None
    } else {
        match text_count_spec(texts.last()) {
            Some(n) => Some(n),
            None => last_count_mention(texts.drop_last()),
        }
    }
}

pub open spec fn str_views(v: Seq<String>) -> Seq<Seq<char>> {
    v.map_values(|s: String| s@)
}

/// The chapter count the user's messages name, the latest mention first.
pub fn user_chapter_count(user_texts: &Vec<String>) -> (r: Option<u32>)
    ensures
        r == last_count_mention(str_views(user_texts@)),
{
    let mut i: usize = user_texts.len();
    assert(user_texts@.subrange(0, i as int) =~= user_texts@);
    while i > 0
        invariant
            i <= user_texts@.len(),
            last_count_mention(str_views(user_texts@)) == last_count_mention(str_views(user_texts@.subrange(0, i as int))),
        decreases i,
    {
        let ghost pre = str_views(user_texts@.subrange(0, i as int));
        assert(pre.drop_last() =~= str_views(user_texts@.subrange(0, i - 1)));
        match parse_chapter_count_from_text(user_texts[i - 1].as_str()) {
            Some(n) => {
                return Some(n);
            },
            None => {},
        }
        i -= 1;
    }
    None
}

/// The novel a create-chat draft describes.
pub struct NovelDraft {
    pub title: String,
    pub synopsis: String,
    pub knowledge_strategy: String,
    pub word_count_min: u32,
    pub word_count_max: u32,
    pub chapter_count: u32,
}

pub open spec fn str_or(v: Json, key: Seq<char>, dflt: Seq<char>) -> Seq<char> {
    match get_spec(v, key) {
        Some(x) => match as_str_spec(x) {
            Some(s) => s,
            None => dflt,
        },
        None => dflt,
    }
}

pub open spec fn u64_or(v: Json, key: Seq<char>, dflt: u64) -> u64 {
    match get_spec(v, key) {
        Some(x) => match as_u64_spec(x) {
            Some(n) => n,
            None => dflt,
        },
        None => dflt,
    }
}

fn str_field(v: &Json, key: &str, dflt: &str) -> (r: String)
    ensures
        r@ == str_or(*v, key@, dflt@),
{
    match json_get(v, key) {
        Some(Json::Str(s)) => s.clone(),
        _ => String::from_str(dflt),
    }
}

fn u64_field(v: &Json, key: &str, dflt: u64) -> (r: u64)
    ensures
        r == u64_or(*v, key@, dflt),
{
    match json_get(v, key) {
        Some(Json::Num(n)) => match n.as_u64 {
            Some(k) => k,
            None => dflt,
        },
        _ => dflt,
    }
}

/// The plan read from a draft: its title (else `untitled`), synopsis and
/// knowledge strategy (else empty), word bounds (else 2000 and 3000, cut to
/// 32 bits), and chapter count: the draft's, else the user's latest
/// mention, else 20.
pub fn draft_plan(draft: &Json, user_texts: &Vec<String>, untitled: &str) -> (r: NovelDraft)
    ensures
        r.title@ == str_or(*draft, "title"@, untitled@),
        r.synopsis@ == str_or(*draft, "synopsis"@, ""@),
        r.knowledge_strategy@ == str_or(*draft, "knowledge_strategy"@, ""@),
        r.word_count_min == u64_or(*draft, "word_count_min"@, 2000) as u32,
        r.word_count_max == u64_or(*draft, "word_count_max"@, 3000) as u32,
        r.chapter_count == (match json_count_spec(*draft) {
            Some(n) => n,
            None => match last_count_mention(str_views(user_texts@)) {
                Some(n) => n,
                None => 20,
            },
        }),
{
    let wmin = u64_field(draft, "word_count_min", 2000);
    let wmax = u64_field(draft, "word_count_max", 3000);
    let chapter_count = match chapter_count_from_json(draft) {
        Some(n) => n,
        None => match user_chapter_count(user_texts) {
            Some(n) => n,
            None => 20,
        },
    };
    NovelDraft {
        title: str_field(draft, "title", untitled),
        synopsis: str_field(draft, "synopsis", ""),
        knowledge_strategy: str_field(draft, "knowledge_strategy", ""),
        word_count_min: #[verifier::truncate] (wmin as u32),
        word_count_max: #[verifier::truncate] (wmax as u32),
        chapter_count,
    }
}

/// The title of a novel created without a draft: the first 24 characters
/// of the user's last message, else `fallback`.
pub open spec fn forced_title_spec(user_texts: Seq<Seq<char>>, fallback: Seq<char>) -> Seq<char> {
    if user_texts.len() == 0 {
        fallback
    } else {
        let l = user_texts.last();
        let t = if l.len() <= 24 { l } else { l.take(24) };
        if t.len() == 0 { fallback } else { t }
    }
}

/// See `forced_title_spec`.
pub fn forced_novel_title(user_texts: &Vec<String>, fallback: &str) -> (r: String)
    ensures
        r@ == forced_title_spec(str_views(user_texts@), fallback@),
{
    if user_texts.len() == 0 {
        return String::from_str(fallback);
    }
    let last = chars_of(user_texts[user_texts.len() - 1].as_str());
    let n: usize = if last.len() < 24 { last.len() } else { 24 };
    let t = crate::text::slice(&last, 0, n);
    assert(last@.len() > 24 ==> t@ =~= last@.take(24));
    assert(last@.len() <= 24 ==> t@ =~= last@);
    if t.len() == 0 {
        String::from_str(fallback)
    } else {
        string_of(&t)
    }
}

} // verus!
