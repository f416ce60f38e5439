//! Reading chapters aloud: Markdown stripped for speech, text cut into
//! sentence chunks that remember their UTF-16 range in the source, and the
//! playback generation counter that stops a running read.
use vstd::prelude::*;
use crate::text::{append, chars_of, is_ws, lines, lines_of, slice, string_of, trim, trim_end, trim_start, trimmed};

verus! {

/// Voice speed kept in the model's supported range 1..=3.
pub fn clamp_speed(speed: i32) -> (r: i32)
    ensures
        r == (if speed < 1 { 1 } else if speed > 3 { 3 } else { speed }),
{
    if speed < 1 { 1 } else if speed > 3 { 3 } else { speed }
}

/// Generation counter of chapter playback: a read in progress stops as soon
/// as the generation it started under is no longer current.
pub struct PlaybackGen {
    pub gen: u64,
}

impl PlaybackGen {
    pub fn new() -> (r: Self)
        ensures
            r.gen == 0,
    {
        PlaybackGen { gen: 0 }
    }

    /// The current generation.
    pub fn current_gen(&self) -> (r: u64)
        ensures
            r == self.gen,
    {
        self.gen
    }
}

/// Stops the current read: moves to the next generation (wrapping).
pub fn stop(state: &mut PlaybackGen)
    ensures
        final(state).gen == (if old(state).gen == u64::MAX { 0 } else { (old(state).gen + 1) as u64 }),
{
    state.gen = if state.gen == u64::MAX { 0 } else { state.gen + 1 };
}

/// `s` without any `c`.
pub open spec fn remove_all(s: Seq<char>, c: char) -> Seq<char>
    decreases s.len(),
{
    if s.len() == 0 {
        s
    } else if s.last() == c {
        remove_all(s.drop_last(), c)
    } else {
        remove_all(s.drop_last(), c).push(s.last())
    }
}

/// `s` with each non-overlapping pair `cc` (left to right) removed
/// (`str::replace` of a two-character pattern by nothing).
pub open spec fn remove_pairs(s: Seq<char>, c: char) -> Seq<char>
    decreases s.len(),
{
    if s.len() == 0 {
        s
    } else if s.len() >= 2 && s[0] == c && s[1] == c {
        remove_pairs(s.subrange(2, s.len() as int), c)
    } else {
        seq![s[0]] + remove_pairs(s.drop_first(), c)
    }
}

/// `s` without leading `c` (`str::trim_start_matches`).
pub open spec fn strip_leading(s: Seq<char>, c: char) -> Seq<char>
    decreases s.len(),
{
    if s.len() > 0 && s[0] == c { strip_leading(s.drop_first(), c) } else { s }
}

/// A Markdown line as spoken: trimmed, heading marks removed, emphasis,
/// code and quote marks removed, trimmed again.
pub open spec fn speech_line(line: Seq<char>) -> Seq<char> {
    trim(remove_all(remove_all(remove_all(remove_pairs(remove_pairs(strip_leading(trim(line), '#'), '*'), '_'), '`'), '*'), '>'))
}

pub open spec fn ends_sentence(c: char) -> bool {
    c == '。' || c == '！' || c == '？' || c == '.' || c == '!' || c == '?' || c == '\n'
}

/// Spoken text of the first `n` lines.
pub open spec fn speech_fold(ls: Seq<Seq<char>>, n: int) -> Seq<char>
    decreases n,
{
    if n <= 0 {
        Seq::empty()
    } else {
        let out = speech_fold(ls, n - 1);
        let t = speech_line(ls[n - 1]);
        if t.len() == 0 {
            out
        } else if out.len() > 0 && !ends_sentence(out.last()) {
            out.push('。') + t
        } else {
            out + t
        }
    }
}

pub open spec fn for_speech_spec(md: Seq<char>) -> Seq<char> {
    let ls = lines(remove_all(md, '\r'));
    speech_fold(ls, ls.len() as int)
}

fn remove_all_exec(s: &Vec<char>, c: char) -> (r: Vec<char>)
    ensures
        r@ == remove_all(s@, c),
{
    let mut r: Vec<char> = Vec::new();
    let mut i: usize = 0;
    while i < s.len()
        invariant
            i <= s.len(),
            r@ == remove_all(s@.subrange(0, i as int), c),
        decreases s.len() - i,
    {
        assert(s@.subrange(0, i + 1).drop_last() =~= s@.subrange(0, i as int));
        if s[i] != c {
            r.push(s[i]);
        }
        i += 1;
    }
    assert(s@.subrange(0, s.len() as int) =~= s@);
    r
}

proof fn lemma_remove_pairs_split(a: Seq<char>, b: Seq<char>, c: char)
    requires
        a.len() == 0 || (a.len() == 1 && a[0] != c) || a == seq![c, c],
    ensures
        remove_pairs(a + b, c) == (if a == seq![c, c] { Seq::<char>::empty() } else { a }) + remove_pairs(b, c),
{
    if a.len() == 0 {
        assert(a + b =~= b);
    } else if a.len() == 1 {
        assert((a + b).drop_first() =~= b);
    } else {
        assert((a + b).subrange(2, (a + b).len() as int) =~= b);
    }
}

fn remove_pairs_exec(s: &Vec<char>, c: char) -> (r: Vec<char>)
    ensures
        r@ == remove_pairs(s@, c),
{
    let mut r: Vec<char> = Vec::new();
    let mut i: usize = 0;
    assert(s@.subrange(0, s.len() as int) =~= s@);
    while i < s.len()
        invariant
            i <= s.len(),
            remove_pairs(s@, c) == r@ + remove_pairs(s@.subrange(i as int, s.len() as int), c),
        decreases s.len() - i,
    {
        let ghost rest = s@.subrange(i as int, s.len() as int);
        if i + 1 < s.len() && s[i] == c && s[i + 1] == c {
            proof {
                assert(rest =~= seq![c, c] + s@.subrange(i + 2, s.len() as int));
                lemma_remove_pairs_split(seq![c, c], s@.subrange(i + 2, s.len() as int), c);
            }
            i += 2;
        } else {
            proof {
                assert(rest =~= seq![s@[i as int]] + s@.subrange(i + 1, s.len() as int));
                if s@[i as int] == c {
                    assert(remove_pairs(rest, c) == seq![s@[i as int]] + remove_pairs(rest.drop_first(), c));
                    assert(rest.drop_first() =~= s@.subrange(i + 1, s.len() as int));
                } else {
                    lemma_remove_pairs_split(seq![s@[i as int]], s@.subrange(i + 1, s.len() as int), c);
                }
            }
            let ghost before = r@;
            r.push(s[i]);
            assert(r@ =~= before + seq![s@[i as int]]);
            i += 1;
        }
    }
    assert(s@.subrange(s.len() as int, s.len() as int) =~= Seq::<char>::empty());
    assert(r@ + Seq::<char>::empty() =~= r@);
    r
}

fn strip_leading_exec(s: &Vec<char>, c: char) -> (r: Vec<char>)
    ensures
        r@ == strip_leading(s@, c),
{
    let mut a: usize = 0;
    assert(s@.subrange(0, s.len() as int) =~= s@);
    while a < s.len() && s[a] == c
        invariant
            a <= s.len(),
            strip_leading(s@, c) == strip_leading(s@.subrange(a as int, s.len() as int), c),
        decreases s.len() - a,
    {
        assert(s@.subrange(a as int, s.len() as int).drop_first() =~= s@.subrange(a + 1, s.len() as int));
        a += 1;
    }
    slice(s, a, s.len())
}

fn speech_line_exec(line: &Vec<char>) -> (r: Vec<char>)
    ensures
        r@ == speech_line(line@),
{
    let a = strip_leading_exec(&trimmed(line), '#');
    let b = remove_pairs_exec(&a, '*');
    let c = remove_pairs_exec(&b, '_');
    let d = remove_all_exec(&c, '`');
    let e = remove_all_exec(&d, '*');
    let f = remove_all_exec(&e, '>');
    trimmed(&f)
}

pub fn for_speech_chars(md: &Vec<char>) -> (r: Vec<char>)
    ensures
        r@ == for_speech_spec(md@),
{
    let cleaned = remove_all_exec(md, '\r');
    let ls = lines_of(&cleaned);
    let ghost lsv = lines(cleaned@);
    let mut out: Vec<char> = Vec::new();
    let mut i: usize = 0;
    while i < ls.len()
        invariant
            i <= ls@.len() == lsv.len(),
            forall|k: int| 0 <= k < ls@.len() ==> (#[trigger] ls@[k])@ == lsv[k],
            out@ == speech_fold(lsv, i as int),
        decreases ls.len() - i,
    {
        assert(ls@[i as int]@ == lsv[i as int]);
        let t = speech_line_exec(&ls[i]);
        if t.len() > 0 {
            if out.len() > 0 {
                let l = out[out.len() - 1];
                if !(l == '。' || l == '！' || l == '？' || l == '.' || l == '!' || l == '?' || l == '\n') {
                    out.push('。');
                }
            }
            append(&mut out, &t);
        }
        i += 1;
    }
    out
}

/// Chapter Markdown as plain text for reading aloud: Markdown marks removed,
/// blank lines dropped, lines joined with `。` where a line does not already
/// end a sentence.
pub fn for_speech(md: &str) -> (r: String)
    ensures
        r@ == for_speech_spec(md@),
{
    string_of(&for_speech_chars(&chars_of(md)))
}

/// A chunk to synthesise and the UTF-16 range of the source it came from.
pub struct SpeechSpan {
    pub speech: String,
    /// UTF-16 offsets into the source passed to playback (the textarea).
    pub start: usize,
    pub end: usize,
}

/// UTF-16 length of a character.
pub open spec fn utf16_len(c: char) -> nat {
    if (c as u32) >= 0x10000 { 2 } else { 1 }
}

pub open spec fn is_chunk_punct(c: char) -> bool {
    "。！？!?；;\n"@.contains(c)
}

/// Spans so far, pending text, its UTF-16 start, and the UTF-16 position.
pub open spec fn spans_fold(s: Seq<char>, max: nat, n: int) -> (Seq<(Seq<char>, nat, nat)>, Seq<char>, nat, nat)
    decreases n,
{
    if n <= 0 {
        (Seq::empty(), Seq::empty(), 0, 0)
    } else {
        let (sp, buf, st, at) = spans_fold(s, max, n - 1);
        let ch = s[n - 1];
        let st2 = if buf.len() == 0 { at } else { st };
        let buf2 = buf.push(ch);
        let at2 = at + utf16_len(ch);
        if (is_chunk_punct(ch) && buf2.len() >= 12) || buf2.len() >= max {
            (flush_spec(sp, buf2, st2, at2), Seq::empty(), st2, at2)
        } else {
            (sp, buf2, st2, at2)
        }
    }
}

/// The pending text as a span, unless it is silent once made speakable.
pub open spec fn flush_spec(sp: Seq<(Seq<char>, nat, nat)>, buf: Seq<char>, st: nat, end: nat) -> Seq<(Seq<char>, nat, nat)> {
    let speech = for_speech_spec(buf);
    if trim(speech).len() == 0 { sp } else { sp.push((speech, st, end)) }
}

pub open spec fn speech_spans_spec(s: Seq<char>, max_chars: nat) -> Seq<(Seq<char>, nat, nat)> {
    let max: nat = if max_chars < 20 { 20 } else { max_chars };
    let (sp, buf, st, at) = spans_fold(s, max, s.len() as int);
    if buf.len() > 0 { flush_spec(sp, buf, st, at) } else { sp }
}

pub open spec fn span_views(v: Seq<SpeechSpan>) -> Seq<(Seq<char>, nat, nat)> {
    v.map_values(|x: SpeechSpan| (x.speech@, x.start as nat, x.end as nat))
}

/// Turns the pending text into a span (when it has something to say) and
/// empties it.
pub fn flush_span(buf: &mut Vec<char>, start: usize, end: usize, spans: &mut Vec<SpeechSpan>)
    ensures
        final(buf)@.len() == 0,
        span_views(final(spans)@) == flush_spec(span_views(old(spans)@), old(buf)@, start as nat, end as nat),
{
    let mut raw: Vec<char> = Vec::new();
    std::mem::swap(&mut raw, buf);
    let speech = for_speech_chars(&raw);
    if crate::text::is_blank(&speech) {
        return;
    }
    let ghost prev = spans@;
    spans.push(SpeechSpan { speech: string_of(&speech), start, end });
    assert(span_views(spans@) =~= span_views(prev).push((speech@, start as nat, end as nat)));
}

/// Sentence chunks of the text for synthesis, each with the UTF-16 range of
/// the source it came from: a chunk ends at sentence punctuation once it
/// has twelve characters, or at `max_chars` (at least 20) characters.
pub fn speech_spans(text: &str, max_chars: usize) -> (r: Vec<SpeechSpan>)
    requires
        2 * text@.len() <= usize::MAX,
    ensures
        span_views(r@) == speech_spans_spec(text@, max_chars as nat),
{
    let s = chars_of(text);
    let max = if max_chars < 20 { 20 } else { max_chars };
    let punct = chars_of("。！？!?；;\n");
    let mut spans: Vec<SpeechSpan> = Vec::new();
    let mut buf: Vec<char> = Vec::new();
    let mut buf_start: usize = 0;
    let mut at: usize = 0;
    let mut i: usize = 0;
    assert(span_views(spans@) =~= Seq::<(Seq<char>, nat, nat)>::empty());
    while i < s.len()
        invariant
            i <= s.len(),
            s@ == text@,
            2 * text@.len() <= usize::MAX,
            punct@ == "。！？!?；;\n"@,
            max == (if max_chars < 20 { 20 } else { max_chars }),
            at <= 2 * i,
            (span_views(spans@), buf@, buf_start as nat, at as nat) == spans_fold(s@, max as nat, i as int),
        decreases s.len() - i,
    {
        let ch = s[i];
        if buf.len() == 0 {
            buf_start = at;
        }
        buf.push(ch);
        let w: usize = if (ch as u32) >= 0x10000 { 2 } else { 1 };
        at += w;
        let n = buf.len();
        let p = crate::text::contains_char(&punct, ch);
        if (p && n >= 12) || n >= max {
            flush_span(&mut buf, buf_start, at, &mut spans);
        }
        i += 1;
    }
    if buf.len() > 0 {
        flush_span(&mut buf, buf_start, at, &mut spans);
    }
    spans
}

/// The texts of `speech_spans`, in order.
pub fn speech_chunks(s: &str, max_chars: usize) -> (r: Vec<String>)
    requires
        2 * s@.len() <= usize::MAX,
    ensures
        r@.len() == speech_spans_spec(s@, max_chars as nat).len(),
        forall|k: int| 0 <= k < r@.len() ==> (#[trigger] r@[k])@ == speech_spans_spec(s@, max_chars as nat)[k].0,
{
    let spans = speech_spans(s, max_chars);
    let mut out: Vec<String> = Vec::new();
    let mut i: usize = 0;
    while i < spans.len()
        invariant
            i <= spans@.len(),
            span_views(spans@) == speech_spans_spec(s@, max_chars as nat),
            out@.len() == i,
            forall|k: int| 0 <= k < i ==> (#[trigger] out@[k])@ == speech_spans_spec(s@, max_chars as nat)[k].0,
        decreases spans.len() - i,
    {
        assert(span_views(spans@)[i as int].0 == spans@[i as int].speech@);
        out.push(spans[i].speech.clone());
        i += 1;
    }
    out
}

proof fn lemma_trim_end_after(a: Seq<char>, b: Seq<char>)
    requires
        b.len() > 0,
        !is_ws(b[0]),
    ensures
        trim_end(a + b) == a + trim_end(b),
        trim_end(b).len() > 0 && trim_end(b)[0] == b[0],
    decreases b.len(),
{
    if is_ws(b.last()) {
        assert(b.len() >= 2);
        assert((a + b).drop_last() =~= a + b.drop_last());
        lemma_trim_end_after(a, b.drop_last());
    }
}

proof fn lemma_strip_marks(h: Seq<char>, x: Seq<char>)
    requires
        forall|i: int| 0 <= i < h.len() ==> h[i] == '#',
        x.len() > 0,
        x[0] != '#',
    ensures
        strip_leading(h + x, '#') == x,
    decreases h.len(),
{
    if h.len() > 0 {
        assert((h + x).drop_first() =~= h.drop_first() + x);
        lemma_strip_marks(h.drop_first(), x);
    } else {
        assert(h + x =~= x);
    }
}

/// Heading marks are not read aloud: a line led by `#` marks is spoken as
/// the same line without them (for a line whose text starts right after the
/// marks with a character other than whitespace or `#`).
pub proof fn heading_marks_not_spoken(h: Seq<char>, x: Seq<char>)
    requires
        h.len() > 0,
        forall|i: int| 0 <= i < h.len() ==> h[i] == '#',
        x.len() > 0,
        !is_ws(x[0]),
        x[0] != '#',
    ensures
        speech_line(h + x) == speech_line(x),
{
    assert(!is_ws(h[0]));
    assert(trim_start(h + x) == h + x);
    assert(trim_start(x) == x);
    lemma_trim_end_after(h, x);
    lemma_trim_end_after(Seq::<char>::empty(), x);
    let tx = trim_end(x);
    assert(trim(h + x) == h + tx);
    assert(trim(x) == tx);
    lemma_strip_marks(h, tx);
    lemma_strip_marks(Seq::<char>::empty(), tx);
}

proof fn lemma_remove_all_absent(s: Seq<char>, c: char, d: char)
    ensures
        !remove_all(s, c).contains(c),
        !s.contains(d) ==> !remove_all(s, c).contains(d),
    decreases s.len(),
{
    if s.len() > 0 {
        lemma_remove_all_absent(s.drop_last(), c, d);
        let p = remove_all(s.drop_last(), c);
        if !s.contains(d) {
            assert forall|i: int| 0 <= i < s.drop_last().len() implies s.drop_last()[i] != d by {
                assert(s[i] == s.drop_last()[i]);
            }
            assert(s[s.len() - 1] != d);
        }
        if s.last() != c {
            let r = p.push(s.last());
            assert forall|i: int| 0 <= i < r.len() implies r[i] != c by {
                if i < p.len() { assert(r[i] == p[i]); }
            }
            if !s.contains(d) {
                assert forall|i: int| 0 <= i < r.len() implies r[i] != d by {
                    if i < p.len() { assert(r[i] == p[i]); }
                }
            }
        }
    }
}

proof fn lemma_trim_absent(s: Seq<char>, d: char)
    requires
        !s.contains(d),
    ensures
        !trim(s).contains(d),
{
    lemma_trim_start_absent(s, d);
    lemma_trim_end_absent(trim_start(s), d);
}

proof fn lemma_trim_start_absent(s: Seq<char>, d: char)
    requires
        !s.contains(d),
    ensures
        !trim_start(s).contains(d),
    decreases s.len(),
{
    if s.len() > 0 && is_ws(s[0]) {
        assert forall|i: int| 0 <= i < s.drop_first().len() implies s.drop_first()[i] != d by {
            assert(s.drop_first()[i] == s[i + 1]);
        }
        lemma_trim_start_absent(s.drop_first(), d);
    }
}

proof fn lemma_trim_end_absent(s: Seq<char>, d: char)
    requires
        !s.contains(d),
    ensures
        !trim_end(s).contains(d),
    decreases s.len(),
{
    if s.len() > 0 && is_ws(s.last()) {
        assert forall|i: int| 0 <= i < s.drop_last().len() implies s.drop_last()[i] != d by {
            assert(s.drop_last()[i] == s[i]);
        }
        lemma_trim_end_absent(s.drop_last(), d);
    }
}

/// No emphasis, code or quote mark is read aloud: the spoken form of any
/// line holds no `*`, `` ` `` or `>`.
pub proof fn speech_has_no_marks(line: Seq<char>)
    ensures
        !speech_line(line).contains('*'),
        !speech_line(line).contains('`'),
        !speech_line(line).contains('>'),
{
    let a = remove_pairs(remove_pairs(strip_leading(trim(line), '#'), '*'), '_');
    let b = remove_all(a, '`');
    let c = remove_all(b, '*');
    let e = remove_all(c, '>');
    lemma_remove_all_absent(a, '`', '`');
    lemma_remove_all_absent(b, '*', '`');
    lemma_remove_all_absent(c, '>', '`');
    lemma_remove_all_absent(c, '>', '*');
    lemma_remove_all_absent(c, '>', '>');
    lemma_trim_absent(e, '*');
    lemma_trim_absent(e, '`');
    lemma_trim_absent(e, '>');
}

} // verus!
