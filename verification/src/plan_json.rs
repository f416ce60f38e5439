//! Reading a novel plan out of the JSON a model or a client sends: the
//! per-chapter word target, the planned chapter count, and how new chapter
//! outlines are to be merged into the tree.
use vstd::prelude::*;
use crate::commands::{normalize_chapter_count, normalize_word_range, normalize_word_range_spec};
use crate::global_chat::ascii_lowercase;
use crate::json::{as_str_spec, as_u64_spec, get_spec, json_get, Json};
use crate::text::{ascii_lower_seq, eq_str, trim, trim_str};

verus! {

/// `a`, or `b` when `a` is unset.
pub open spec fn or_else<A>(a: Option<A>, b: Option<A>) -> Option<A> {
    if a is Some { a } else { b }
}

/// The value of member `key`, read as `u64`.
pub open spec fn u64_at(v: Json, key: Seq<char>) -> Option<u64> {
    match get_spec(v, key) {
        Some(x) => as_u64_spec(x),
        None => None,
    }
}

/// A `u64` cut to `u32` as `as u32` does.
pub open spec fn low32(n: Option<u64>) -> Option<u32> {
    match n {
        Some(x) => Some(x as u32),
        None => None,
    }
}

/// `min` / `max` of a `word_count` object: the first of the two names
/// present, read as a number.
pub open spec fn bound_of(wc: Json, name: Seq<char>, alt: Seq<char>) -> Option<u32> {
    match or_else(get_spec(wc, name), get_spec(wc, alt)) {
        Some(x) => low32(as_u64_spec(x)),
        None => None,
    }
}

pub open spec fn same_range(n: u32) -> (u32, u32) {
    normalize_word_range_spec(n, n)
}

/// From top-level `word_count_min` / `word_count_max`.
pub open spec fn flat_target(v: Json) -> Option<(u32, u32)> {
    let min = low32(u64_at(v, "word_count_min"@));
    let max = low32(u64_at(v, "word_count_max"@));
    match (min, max) {
        (Some(a), Some(b)) => Some(normalize_word_range_spec(a, b)),
        (Some(a), None) => Some(same_range(a)),
        (None, Some(b)) => Some(same_range(b)),
        _ => None,
    }
}

/// The per-chapter word range a plan states: `word_count` as a number, or
/// as an object with `min` / `max` (or `word_count_min` / `word_count_max`)
/// or `target`; else top-level `word_count_min` / `word_count_max`.
pub open spec fn word_target_spec(v: Json) -> Option<(u32, u32)> {
    match get_spec(v, "word_count"@) {
        Some(wc) => match as_u64_spec(wc) {
            Some(n) => Some(same_range(n as u32)),
            None => {
                let min = bound_of(wc, "min"@, "word_count_min"@);
                let max = bound_of(wc, "max"@, "word_count_max"@);
                let target = low32(u64_at(wc, "target"@));
                if min is Some && max is Some {
                    Some(normalize_word_range_spec(min->Some_0, max->Some_0))
                } else {
                    match or_else(target, or_else(min, max)) {
                        Some(t) => Some(same_range(t)),
                        None => flat_target(v),
                    }
                }
            },
        },
        None => flat_target(v),
    }
}

fn u64_of(v: Option<&Json>) -> (r: Option<u64>)
    ensures
        r == (match v { Some(x) => as_u64_spec(*x), None => None }),
{
    match v {
        Some(Json::Num(n)) => n.as_u64,
        _ => None,
    }
}

fn first_of<'a>(v: &'a Json, name: &str, alt: &str) -> (r: Option<&'a Json>)
    ensures
        match r {
            Some(x) => or_else(get_spec(*v, name@), get_spec(*v, alt@)) == Some(*x),
            None => or_else(get_spec(*v, name@), get_spec(*v, alt@)) is None,
        },
{
    match json_get(v, name) {
        Some(x) => Some(x),
        None => json_get(v, alt),
    }
}

fn cut32(n: Option<u64>) -> (r: Option<u32>)
    ensures
        r == low32(n),
{
    match n {
        Some(x) => Some(x as u32),
        None => None,
    }
}

fn flat_target_exec(v: &Json) -> (r: Option<(u32, u32)>)
    ensures
        r == flat_target(*v),
{
    let min = cut32(u64_of(json_get(v, "word_count_min")));
    let max = cut32(u64_of(json_get(v, "word_count_max")));
    match (min, max) {
        (Some(a), Some(b)) => Some(normalize_word_range(a, b)),
        (Some(a), None) => Some(normalize_word_range(a, a)),
        (None, Some(b)) => Some(normalize_word_range(b, b)),
        _ => None,
    }
}

/// The per-chapter word range a plan states (see `word_target_spec`).
pub fn word_target_from_json(v: &Json) -> (r: Option<(u32, u32)>)
    ensures
        r == word_target_spec(*v),
{
    if let Some(wc) = json_get(v, "word_count") {
        if let Some(n) = u64_of(Some(wc)) {
            let n = n as u32;
            return Some(normalize_word_range(n, n));
        }
        let min = cut32(u64_of(first_of(wc, "min", "word_count_min")));
        let max = cut32(u64_of(first_of(wc, "max", "word_count_max")));
        let target = cut32(u64_of(json_get(wc, "target")));
        if let (Some(a), Some(b)) = (min, max) {
            return Some(normalize_word_range(a, b));
        }
        let t = match target {
            Some(t) => Some(t),
            None => match min {
                Some(a) => Some(a),
                None => max,
            },
        };
        if let Some(t) = t {
            return Some(normalize_word_range(t, t));
        }
    }
    flat_target_exec(v)
}

pub open spec fn count_of(n: u64) -> u32 {
    let m = n as u32;
    if m < 1 { 1 } else if m > 500 { 500 } else { m }
}

/// The planned chapter count a plan states: `chapter_count`, or `chapters`
/// as a number or as an object with `total` (or `count`); kept in 1..=500.
pub open spec fn chapter_count_spec(v: Json) -> Option<u32> {
    match u64_at(v, "chapter_count"@) {
        Some(n) => Some(count_of(n)),
        None => match get_spec(v, "chapters"@) {
            Some(c) => match as_u64_spec(c) {
                Some(n) => Some(count_of(n)),
                None => match or_else(get_spec(c, "total"@), get_spec(c, "count"@)) {
                    Some(x) => match as_u64_spec(x) {
                        Some(n) => Some(count_of(n)),
                        None => None,
                    },
                    None => None,
                },
            },
            None => None,
        },
    }
}

/// The planned chapter count a plan states (see `chapter_count_spec`).
pub fn chapter_count_from_json(v: &Json) -> (r: Option<u32>)
    ensures
        r == chapter_count_spec(*v),
{
    if let Some(n) = u64_of(json_get(v, "chapter_count")) {
        return Some(normalize_chapter_count(n as u32));
    }
    if let Some(c) = json_get(v, "chapters") {
        if let Some(n) = u64_of(Some(c)) {
            return Some(normalize_chapter_count(n as u32));
        }
        if let Some(n) = u64_of(first_of(c, "total", "count")) {
            return Some(normalize_chapter_count(n as u32));
        }
    }
    None
}

/// How chapter outlines from a plan meet the chapters already in the tree.
#[derive(Debug, Clone, Copy, PartialEq, Eq, Structural)]
pub enum ChapterResolveMode {
    /// Update the chapter with the same number, appending where none is.
    Overwrite,
    /// Append only numbers the tree does not have yet.
    Skip,
    /// Always append (chapter numbers may repeat).
    ForceAppend,
}

/// The mode a (trimmed, ASCII-lowercased) word names.
pub open spec fn mode_word(s: Seq<char>) -> Option<ChapterResolveMode> {
    if s == "overwrite"@ || s == "replace"@ || s == "覆盖"@ || s == "重写"@ || s == "重新生成"@ || s == "upsert"@ {
        Some(ChapterResolveMode::Overwrite)
    } else if s == "append"@ || s == "force"@ || s == "forceappend"@ || s == "强制追加"@ || s == "追加"@ {
        Some(ChapterResolveMode::ForceAppend)
    } else if s == "skip"@ || s == "跳过"@ {
        Some(ChapterResolveMode::Skip)
    } else {
        None
    }
}

/// The mode named by `mode` (or `resolve`), read as a string.
pub open spec fn outline_mode_spec(v: Json) -> Option<ChapterResolveMode> {
    match or_else(get_spec(v, "mode"@), get_spec(v, "resolve"@)) {
        Some(x) => match as_str_spec(x) {
            Some(s) => mode_word(ascii_lower_seq(trim(s))),
            None => None,
        },
        None => None,
    }
}

/// The merge mode a plan names (see `outline_mode_spec`).
pub fn outline_mode_from_json(v: &Json) -> (r: Option<ChapterResolveMode>)
    ensures
        r == outline_mode_spec(*v),
{
    let s = match first_of(v, "mode", "resolve") {
        Some(Json::Str(s)) => s,
        _ => {
            return None;
        },
    };
    let w = ascii_lowercase(&trim_str(s.as_str()));
    if eq_str(&w, "overwrite") || eq_str(&w, "replace") || eq_str(&w, "覆盖") || eq_str(&w, "重写")
        || eq_str(&w, "重新生成") || eq_str(&w, "upsert") {
        Some(ChapterResolveMode::Overwrite)
    } else if eq_str(&w, "append") || eq_str(&w, "force") || eq_str(&w, "forceappend")
        || eq_str(&w, "强制追加") || eq_str(&w, "追加") {
        Some(ChapterResolveMode::ForceAppend)
    } else if eq_str(&w, "skip") || eq_str(&w, "跳过") {
        Some(ChapterResolveMode::Skip)
    } else {
        None
    }
}

} // verus!
