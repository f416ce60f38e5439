//! Character-sequence primitives shared by every module.
//!
//! Text is handled as `Vec<char>` inside the library; its model is the
//! `Seq<char>` of its characters, which is also the view of `str`/`String`.
use vstd::prelude::*;

verus! {

// ---------------------------------------------------------------------------
// Specifications
// ---------------------------------------------------------------------------

/// `char::is_whitespace`: the Unicode `White_Space` property.
pub open spec fn is_ws(c: char) -> bool {
    ||| ('\u{9}' <= c && c <= '\u{d}')
    ||| c == ' '
    ||| c == '\u{85}'
    ||| c == '\u{a0}'
    ||| c == '\u{1680}'
    ||| ('\u{2000}' <= c && c <= '\u{200a}')
    ||| c == '\u{2028}'
    ||| c == '\u{2029}'
    ||| c == '\u{202f}'
    ||| c == '\u{205f}'
    ||| c == '\u{3000}'
}

/// Leading whitespace removed (`str::trim_start`).
pub open spec fn trim_start(s: Seq<char>) -> Seq<char>
    decreases s.len(),
{
    if s.len() > 0 && is_ws(s[0]) {
        trim_start(s.drop_first())
    } else {
        s
    }
}

/// Trailing whitespace removed (`str::trim_end`).
pub open spec fn trim_end(s: Seq<char>) -> Seq<char>
    decreases s.len(),
{
    if s.len() > 0 && is_ws(s.last()) {
        trim_end(s.drop_last())
    } else {
        s
    }
}

/// Whitespace removed at both ends (`str::trim`).
pub open spec fn trim(s: Seq<char>) -> Seq<char> {
    trim_end(trim_start(s))
}

/// `needle` occurs in `hay` at position `i`.
pub open spec fn occurs_at(hay: Seq<char>, needle: Seq<char>, i: int) -> bool {
    0 <= i && i + needle.len() <= hay.len() && hay.subrange(i, i + needle.len()) == needle
}

/// `needle` occurs somewhere in `hay` (`str::contains`).
pub open spec fn has_sub(hay: Seq<char>, needle: Seq<char>) -> bool {
    exists|i: int| occurs_at(hay, needle, i)
}

/// `str::starts_with`.
pub open spec fn starts_with(s: Seq<char>, p: Seq<char>) -> bool {
    p.len() <= s.len() && s.subrange(0, p.len() as int) == p
}

/// `str::ends_with`.
pub open spec fn ends_with(s: Seq<char>, p: Seq<char>) -> bool {
    p.len() <= s.len() && s.subrange(s.len() - p.len(), s.len() as int) == p
}

/// At most the first `n` characters.
pub open spec fn take_chars(s: Seq<char>, n: int) -> Seq<char> {
    if n < s.len() {
        s.subrange(0, n)
    } else {
        s
    }
}

/// The pieces of `s` between `'\n'` characters (`str::split('\n')`).
pub open spec fn split_nl(s: Seq<char>) -> Seq<Seq<char>>
    decreases s.len(),
{
    if s.len() == 0 {
        seq![Seq::<char>::empty()]
    } else {
        let p = split_nl(s.drop_last());
        if s.last() == '\n' {
            p.push(Seq::<char>::empty())
        } else {
            p.update(p.len() - 1, p.last().push(s.last()))
        }
    }
}

/// One trailing `'\r'` removed.
pub open spec fn strip_cr(l: Seq<char>) -> Seq<char> {
    if l.len() > 0 && l.last() == '\r' {
        l.drop_last()
    } else {
        l
    }
}

/// `str::lines`: the `'\n'`-separated pieces, each without a trailing `'\r'`,
/// and without the empty piece after a final `'\n'`.
pub open spec fn lines(s: Seq<char>) -> Seq<Seq<char>> {
    let p = split_nl(s);
    let q = if p.last().len() == 0 {
        p.drop_last()
    } else {
        p
    };
    q.map_values(|l: Seq<char>| strip_cr(l))
}

/// The decimal digits of `n` (`u64::to_string`).
pub open spec fn decimal(n: nat) -> Seq<char>
    decreases n,
{
    if n < 10 {
        seq![digit_char(n)]
    } else {
        decimal(n / 10).push(digit_char(n % 10))
    }
}

pub open spec fn digit_char(d: nat) -> char {
    if d == 0 { '0' }
    else if d == 1 { '1' }
    else if d == 2 { '2' }
    else if d == 3 { '3' }
    else if d == 4 { '4' }
    else if d == 5 { '5' }
    else if d == 6 { '6' }
    else if d == 7 { '7' }
    else if d == 8 { '8' }
    else { '9' }
}

/// `char::is_ascii_digit`.
pub open spec fn is_digit(c: char) -> bool {
    '0' <= c && c <= '9'
}

/// `char::to_ascii_lowercase`.
pub open spec fn ascii_lower(c: char) -> char {
    if 'A' <= c && c <= 'Z' {
        ((c as u32) + 32) as char
    } else {
        c
    }
}

/// `char::to_ascii_uppercase`.
pub open spec fn ascii_upper(c: char) -> char {
    if 'a' <= c && c <= 'z' {
        ((c as u32) - 32) as char
    } else {
        c
    }
}

/// `str::to_ascii_uppercase`.
pub open spec fn ascii_upper_seq(s: Seq<char>) -> Seq<char> {
    s.map_values(|c: char| ascii_upper(c))
}

/// `str::to_ascii_lowercase`.
pub open spec fn ascii_lower_seq(s: Seq<char>) -> Seq<char> {
    s.map_values(|c: char| ascii_lower(c))
}

/// CJK Unified Ideographs block `'\u{4e00}'..='\u{9fff}'`.
pub open spec fn is_cjk(c: char) -> bool {
    '\u{4e00}' <= c && c <= '\u{9fff}'
}

/// Concatenation of the pieces with `sep` between them (`[String]::join`).
pub open spec fn join(parts: Seq<Seq<char>>, sep: Seq<char>) -> Seq<char>
    decreases parts.len(),
{
    if parts.len() == 0 {
        Seq::<char>::empty()
    } else if parts.len() == 1 {
        parts[0]
    } else {
        join(parts.drop_last(), sep) + sep + parts.last()
    }
}

/// What `str::to_lowercase` returns for a string: full Unicode lowercase
/// mapping, including the context rule for final sigma.
pub uninterp spec fn str_lowercase(s: Seq<char>) -> Seq<char>;

/// What `char::is_alphanumeric` returns (Unicode `Alphabetic` or `Numeric`).
pub uninterp spec fn char_alphanumeric(c: char) -> bool;

// ---------------------------------------------------------------------------
// Trusted wrappers around std
// ---------------------------------------------------------------------------

/// `String::push`: appends one character.
#[verifier::external_body]
pub(crate) fn push_char(s: &mut String, c: char)
    ensures
        final(s)@ == old(s)@.push(c),
{
    s.push(c);
}

/// `str::to_lowercase`, on the text held in `s`. Its result is named by
/// `str_lowercase`; the one fact stated beside it is the Unicode mapping of
/// ASCII text: `A`–`Z` become `a`–`z` and every other ASCII character stays.
/// Nothing is stated of the other Unicode tables it uses.
#[verifier::external_body]
pub(crate) fn lowercase(s: &Vec<char>) -> (r: Vec<char>)
    ensures
        r@ == str_lowercase(s@),
        (forall|i: int| 0 <= i < s@.len() ==> (s@[i] as u32) < 128) ==> r@ == ascii_lower_seq(s@),
{
    let st: String = s.iter().collect();
    st.to_lowercase().chars().collect()
}

/// `char::is_alphanumeric`. Its result is named by `char_alphanumeric`; the
/// one fact stated beside it is the one its documentation gives for ASCII.
#[verifier::external_body]
pub(crate) fn is_alphanumeric(c: char) -> (b: bool)
    ensures
        b == char_alphanumeric(c),
        (c as u32) < 128 ==> (b <==> (is_digit(c) || ('a' <= c && c <= 'z') || ('A' <= c && c <= 'Z'))),
{
    c.is_alphanumeric()
}

// ---------------------------------------------------------------------------
// Conversions
// ---------------------------------------------------------------------------

/// The characters of `s`, in order.
pub fn chars_of(s: &str) -> (v: Vec<char>)
    ensures
        v@ == s@,
{
    let mut v: Vec<char> = Vec::new();
    for c in it: s.chars()
        invariant
            v@ == it.seq().take(it.index() as int),
            it.seq() == s@,
    {
        v.push(c);
    }
    v
}

/// A `String` holding exactly the characters of `v`.
pub fn string_of(v: &Vec<char>) -> (s: String)
    ensures
        s@ == v@,
{
    let mut s = String::new();
    let mut i: usize = 0;
    while i < v.len()
        invariant
            i <= v.len(),
            s@ == v@.subrange(0, i as int),
        decreases v.len() - i,
    {
        push_char(&mut s, v[i]);
        i += 1;
        assert(s@ =~= v@.subrange(0, i as int));
    }
    assert(s@ =~= v@);
    s
}

/// A copy of `s[from..to]`.
pub fn slice(s: &Vec<char>, from: usize, to: usize) -> (r: Vec<char>)
    requires
        from <= to <= s.len(),
    ensures
        r@ == s@.subrange(from as int, to as int),
{
    let mut r: Vec<char> = Vec::new();
    let mut i = from;
    while i < to
        invariant
            from <= i <= to <= s.len(),
            r@ == s@.subrange(from as int, i as int),
        decreases to - i,
    {
        r.push(s[i]);
        i += 1;
        assert(r@ =~= s@.subrange(from as int, i as int));
    }
    r
}

/// Appends `b` to `a`.
pub fn append(a: &mut Vec<char>, b: &Vec<char>)
    ensures
        final(a)@ == old(a)@ + b@,
{
    let mut i: usize = 0;
    while i < b.len()
        invariant
            i <= b.len(),
            a@ == old(a)@ + b@.subrange(0, i as int),
        decreases b.len() - i,
    {
        a.push(b[i]);
        i += 1;
        assert(a@ =~= old(a)@ + b@.subrange(0, i as int));
    }
    assert(b@.subrange(0, b.len() as int) =~= b@);
}

/// Appends the characters of a literal.
pub fn append_str(a: &mut Vec<char>, b: &str)
    ensures
        final(a)@ == old(a)@ + b@,
{
    let v = chars_of(b);
    append(a, &v);
}

/// Sequence equality of two character vectors.
pub fn eq(a: &Vec<char>, b: &Vec<char>) -> (r: bool)
    ensures
        r == (a@ == b@),
{
    if a.len() != b.len() {
        return false;
    }
    let mut i: usize = 0;
    while i < a.len()
        invariant
            i <= a.len() == b.len(),
            a@.subrange(0, i as int) == b@.subrange(0, i as int),
        decreases a.len() - i,
    {
        if a[i] != b[i] {
            assert(a@.subrange(0, i as int + 1)[i as int] != b@.subrange(0, i as int + 1)[i as int]);
            return false;
        }
        i += 1;
        assert(a@.subrange(0, i as int) =~= b@.subrange(0, i as int));
    }
    assert(a@ =~= a@.subrange(0, a.len() as int));
    assert(b@ =~= b@.subrange(0, b.len() as int));
    true
}

/// Equality with a literal.
pub fn eq_str(a: &Vec<char>, b: &str) -> (r: bool)
    ensures
        r == (a@ == b@),
{
    let v = chars_of(b);
    eq(a, &v)
}

// ---------------------------------------------------------------------------
// Searching
// ---------------------------------------------------------------------------

/// Whether `needle` occurs in `hay` at `i`.
pub fn matches_at(hay: &Vec<char>, needle: &Vec<char>, i: usize) -> (r: bool)
    ensures
        r == occurs_at(hay@, needle@, i as int),
{
    if i > hay.len() || needle.len() > hay.len() - i {
        return false;
    }
    let mut k: usize = 0;
    while k < needle.len()
        invariant
            k <= needle.len(),
            i + needle.len() <= hay.len(),
            forall|j: int| 0 <= j < k ==> hay@[i + j] == needle@[j],
        decreases needle.len() - k,
    {
        if hay[i + k] != needle[k] {
            assert(hay@.subrange(i as int, i + needle.len())[k as int] != needle@[k as int]);
            return false;
        }
        k += 1;
    }
    assert(hay@.subrange(i as int, i + needle.len()) =~= needle@);
    true
}

/// First position at or after `from` where `needle` occurs.
pub fn find_from(hay: &Vec<char>, needle: &Vec<char>, from: usize) -> (r: Option<usize>)
    ensures
        match r {
            Some(i) => from <= i && occurs_at(hay@, needle@, i as int)
                && forall|j: int| from <= j < i ==> !occurs_at(hay@, needle@, j),
            None => forall|j: int| from <= j ==> !occurs_at(hay@, needle@, j),
        },
{
    if from > hay.len() {
        assert forall|j: int| from <= j implies !occurs_at(hay@, needle@, j) by {}
        return None;
    }
    let mut i = from;
    while i < hay.len()
        invariant
            from <= i <= hay.len(),
            forall|j: int| from <= j < i ==> !occurs_at(hay@, needle@, j),
        decreases hay.len() - i,
    {
        if matches_at(hay, needle, i) {
            return Some(i);
        }
        i += 1;
    }
    if matches_at(hay, needle, i) {
        return Some(i);
    }
    assert forall|j: int| from <= j implies !occurs_at(hay@, needle@, j) by {
        if j > hay.len() {
            assert(!occurs_at(hay@, needle@, j));
        }
    }
    None
}

/// `str::contains`.
pub fn contains(hay: &Vec<char>, needle: &Vec<char>) -> (r: bool)
    ensures
        r == has_sub(hay@, needle@),
{
    match find_from(hay, needle, 0) {
        Some(i) => true,
        None => false,
    }
}

/// `str::contains` with a literal needle.
pub fn contains_str(hay: &Vec<char>, needle: &str) -> (r: bool)
    ensures
        r == has_sub(hay@, needle@),
{
    let n = chars_of(needle);
    contains(hay, &n)
}

/// `str::contains` for a single character.
pub fn contains_char(hay: &Vec<char>, c: char) -> (r: bool)
    ensures
        r == hay@.contains(c),
{
    let mut i: usize = 0;
    while i < hay.len()
        invariant
            i <= hay.len(),
            forall|j: int| 0 <= j < i ==> hay@[j] != c,
        decreases hay.len() - i,
    {
        if hay[i] == c {
            return true;
        }
        i += 1;
    }
    false
}


/// `str::starts_with`.
pub fn starts_with_str(s: &Vec<char>, p: &str) -> (r: bool)
    ensures
        r == starts_with(s@, p@),
{
    let pv = chars_of(p);
    matches_at(s, &pv, 0)
}

/// `str::ends_with`.
pub fn ends_with_str(s: &Vec<char>, p: &str) -> (r: bool)
    ensures
        r == ends_with(s@, p@),
{
    let pv = chars_of(p);
    if pv.len() > s.len() {
        return false;
    }
    matches_at(s, &pv, s.len() - pv.len())
}

// ---------------------------------------------------------------------------
// Trimming
// ---------------------------------------------------------------------------

pub proof fn lemma_trim_start_skip(s: Seq<char>, i: int)
    requires
        0 <= i <= s.len(),
        forall|j: int| 0 <= j < i ==> is_ws(s[j]),
    ensures
        trim_start(s) == trim_start(s.subrange(i, s.len() as int)),
    decreases i,
{
    if i > 0 {
        assert(s.drop_first() =~= s.subrange(1, s.len() as int));
        lemma_trim_start_skip(s.drop_first(), i - 1);
        assert(s.drop_first().subrange(i - 1, s.drop_first().len() as int) =~= s.subrange(i, s.len() as int));
    } else {
        assert(s.subrange(0, s.len() as int) =~= s);
    }
}

pub proof fn lemma_trim_end_cut(s: Seq<char>, e: int)
    requires
        0 <= e <= s.len(),
        forall|j: int| e <= j < s.len() ==> is_ws(s[j]),
    ensures
        trim_end(s) == trim_end(s.subrange(0, e)),
    decreases s.len() - e,
{
    if e < s.len() {
        assert(s.drop_last() =~= s.subrange(0, s.len() - 1));
        lemma_trim_end_cut(s.drop_last(), e);
        assert(s.drop_last().subrange(0, e) =~= s.subrange(0, e));
    } else {
        assert(s.subrange(0, e) =~= s);
    }
}

proof fn lemma_trim_start_head(s: Seq<char>)
    ensures
        trim_start(s).len() == 0 || !is_ws(trim_start(s)[0]),
    decreases s.len(),
{
    if s.len() > 0 && is_ws(s[0]) {
        lemma_trim_start_head(s.drop_first());
    }
}

proof fn lemma_trim_end_shape(s: Seq<char>)
    ensures
        trim_end(s).len() <= s.len(),
        trim_end(s) == s.subrange(0, trim_end(s).len() as int),
        trim_end(s).len() == 0 || !is_ws(trim_end(s).last()),
        s.len() > 0 && !is_ws(s[0]) ==> trim_end(s).len() >= 1,
    decreases s.len(),
{
    if s.len() > 0 && is_ws(s.last()) {
        lemma_trim_end_shape(s.drop_last());
        let t = trim_end(s.drop_last());
        assert(s.drop_last().subrange(0, t.len() as int) =~= s.subrange(0, t.len() as int));
        if s.len() > 1 {
            assert(s.drop_last()[0] == s[0]);
        }
    } else {
        assert(s.subrange(0, s.len() as int) =~= s);
    }
}

/// Trimming twice is trimming once.
pub proof fn lemma_trim_idempotent(s: Seq<char>)
    ensures
        trim(trim(s)) == trim(s),
{
    let t = trim_start(s);
    lemma_trim_start_head(s);
    lemma_trim_end_shape(t);
    let u = trim_end(t);
    if u.len() > 0 {
        assert(u[0] == t[0]);
    }
    assert(trim_start(u) == u);
    assert(trim_end(u) == u);
}

/// Bounds `(a, b)` of `str::trim` within `s`.
pub fn trim_bounds(s: &Vec<char>) -> (r: (usize, usize))
    ensures
        r.0 <= r.1 <= s.len(),
        s@.subrange(r.0 as int, r.1 as int) == trim(s@),
        trim_start(s@) == s@.subrange(r.0 as int, s.len() as int),
{
    let mut a: usize = 0;
    while a < s.len() && is_ws_exec(s[a])
        invariant
            a <= s.len(),
            forall|j: int| 0 <= j < a ==> is_ws(s@[j]),
        decreases s.len() - a,
    {
        a += 1;
    }
    proof {
        lemma_trim_start_skip(s@, a as int);
    }
    let ghost t = s@.subrange(a as int, s.len() as int);
    let mut b: usize = s.len();
    while b > a && is_ws_exec(s[b - 1])
        invariant
            a <= b <= s.len(),
            t == s@.subrange(a as int, s.len() as int),
            forall|j: int| b <= j < s.len() ==> is_ws(s@[j]),
        decreases b,
    {
        b -= 1;
    }
    proof {
        lemma_trim_end_cut(t, b - a);
        assert(t.subrange(0, b - a) =~= s@.subrange(a as int, b as int));
        if a < s.len() {
            assert(!is_ws(t[0]));
        }
    }
    (a, b)
}

/// `char::is_whitespace`.
pub fn is_ws_exec(c: char) -> (r: bool)
    ensures
        r == is_ws(c),
{
    ('\u{9}' <= c && c <= '\u{d}') || c == ' ' || c == '\u{85}' || c == '\u{a0}'
        || c == '\u{1680}' || ('\u{2000}' <= c && c <= '\u{200a}') || c == '\u{2028}'
        || c == '\u{2029}' || c == '\u{202f}' || c == '\u{205f}' || c == '\u{3000}'
}

/// `str::trim`.
pub fn trimmed(s: &Vec<char>) -> (r: Vec<char>)
    ensures
        r@ == trim(s@),
{
    let (a, b) = trim_bounds(s);
    slice(s, a, b)
}

/// `str::trim_start`.
pub fn trimmed_start(s: &Vec<char>) -> (r: Vec<char>)
    ensures
        r@ == trim_start(s@),
{
    let (a, b) = trim_bounds(s);
    slice(s, a, s.len())
}

/// `str::trim` of a `str`, as characters.
pub fn trim_str(s: &str) -> (r: Vec<char>)
    ensures
        r@ == trim(s@),
{
    let v = chars_of(s);
    trimmed(&v)
}

/// Whether `str::trim` leaves nothing.
pub fn is_blank(s: &Vec<char>) -> (r: bool)
    ensures
        r == (trim(s@).len() == 0),
{
    let (a, b) = trim_bounds(s);
    a == b
}

// ---------------------------------------------------------------------------
// Lines
// ---------------------------------------------------------------------------

pub proof fn lemma_split_nl_nonempty(s: Seq<char>)
    ensures
        split_nl(s).len() >= 1,
    decreases s.len(),
{
    if s.len() > 0 {
        lemma_split_nl_nonempty(s.drop_last());
    }
}

/// `str::lines`.
pub fn lines_of(s: &Vec<char>) -> (r: Vec<Vec<char>>)
    ensures
        r@.len() == lines(s@).len(),
        forall|i: int| 0 <= i < r@.len() ==> (#[trigger] r@[i])@ == lines(s@)[i],
{
    let mut parts: Vec<Vec<char>> = Vec::new();
    let mut cur: Vec<char> = Vec::new();
    let mut i: usize = 0;
    while i < s.len()
        invariant
            i <= s.len(),
            parts@.len() + 1 == split_nl(s@.subrange(0, i as int)).len(),
            forall|k: int| 0 <= k < parts@.len() ==> (#[trigger] parts@[k])@ == split_nl(s@.subrange(0, i as int))[k],
            cur@ == split_nl(s@.subrange(0, i as int)).last(),
        decreases s.len() - i,
    {
        let ghost pre = s@.subrange(0, i as int);
        proof {
            lemma_split_nl_nonempty(pre);
            assert(s@.subrange(0, i + 1).drop_last() =~= pre);
        }
        if s[i] == '\n' {
            parts.push(cur);
            cur = Vec::new();
        } else {
            cur.push(s[i]);
        }
        i += 1;
    }
    assert(s@.subrange(0, s.len() as int) =~= s@);
    proof {
        lemma_split_nl_nonempty(s@);
    }
    let ghost p = split_nl(s@);
    if cur.len() > 0 {
        parts.push(cur);
    }
    let ghost q = if p.last().len() == 0 { p.drop_last() } else { p };
    assert(parts@.len() == q.len());
    let mut out: Vec<Vec<char>> = Vec::new();
    let mut k: usize = 0;
    while k < parts.len()
        invariant
            k <= parts@.len() == q.len(),
            forall|j: int| 0 <= j < parts@.len() ==> (#[trigger] parts@[j])@ == q[j],
            out@.len() == k,
            forall|j: int| 0 <= j < k ==> (#[trigger] out@[j])@ == strip_cr(q[j]),
        decreases parts.len() - k,
    {
        let l = &parts[k];
        if l.len() > 0 && l[l.len() - 1] == '\r' {
            let t = slice(l, 0, l.len() - 1);
            assert(t@ =~= l@.drop_last());
            out.push(t);
        } else {
            out.push(l.clone());
        }
        k += 1;
    }
    out
}

/// The texts held by a vector of character vectors.
pub open spec fn vviews(v: Seq<Vec<char>>) -> Seq<Seq<char>> {
    v.map_values(|x: Vec<char>| x@)
}

/// `parts.join(sep)`.
pub fn join_exec(parts: &Vec<Vec<char>>, sep: &str) -> (r: Vec<char>)
    ensures
        r@ == join(vviews(parts@), sep@),
{
    let mut r: Vec<char> = Vec::new();
    let mut i: usize = 0;
    while i < parts.len()
        invariant
            i <= parts.len(),
            r@ == join(vviews(parts@).subrange(0, i as int), sep@),
        decreases parts.len() - i,
    {
        let ghost pre = vviews(parts@).subrange(0, i as int);
        let ghost nxt = vviews(parts@).subrange(0, i + 1);
        assert(nxt.drop_last() =~= pre);
        if i > 0 {
            append_str(&mut r, sep);
        }
        append(&mut r, &parts[i]);
        i += 1;
        if i == 1 {
            assert(r@ =~= nxt[0]);
        }
    }
    assert(vviews(parts@).subrange(0, parts.len() as int) =~= vviews(parts@));
    r
}

// ---------------------------------------------------------------------------
// Numbers
// ---------------------------------------------------------------------------

/// The decimal digits of `n`.
pub fn decimal_of(n: u64) -> (r: Vec<char>)
    ensures
        r@ == decimal(n as nat),
    decreases n,
{
    let d = n % 10;
    let c = if d == 0 { '0' } else if d == 1 { '1' } else if d == 2 { '2' } else if d == 3 { '3' }
        else if d == 4 { '4' } else if d == 5 { '5' } else if d == 6 { '6' } else if d == 7 { '7' }
        else if d == 8 { '8' } else { '9' };
    if n < 10 {
        let mut r: Vec<char> = Vec::new();
        r.push(c);
        r
    } else {
        let mut r = decimal_of(n / 10);
        r.push(c);
        r
    }
}

/// Appends the decimal digits of `n`.
pub fn append_decimal(a: &mut Vec<char>, n: u64)
    ensures
        final(a)@ == old(a)@ + decimal(n as nat),
{
    let d = decimal_of(n);
    append(a, &d);
}

} // verus!

verus! {

/// Index of the first `c` in `s`.
pub open spec fn first_index_of(s: Seq<char>, c: char) -> Option<int>
    decreases s.len(),
{
    if s.len() == 0 {
        None
    } else if s[0] == c {
        Some(0)
    } else {
        match first_index_of(s.drop_first(), c) {
            Some(k) => Some(k + 1),
            None => None,
        }
    }
}

pub proof fn lemma_first_index_some(s: Seq<char>, c: char, k: int)
    requires
        0 <= k < s.len(),
        s[k] == c,
        forall|j: int| 0 <= j < k ==> s[j] != c,
    ensures
        first_index_of(s, c) == Some(k),
    decreases k,
{
    if k > 0 {
        lemma_first_index_some(s.drop_first(), c, k - 1);
    }
}

pub proof fn lemma_first_index_none(s: Seq<char>, c: char)
    requires
        forall|j: int| 0 <= j < s.len() ==> s[j] != c,
    ensures
        first_index_of(s, c) is None,
    decreases s.len(),
{
    if s.len() > 0 {
        lemma_first_index_none(s.drop_first(), c);
    }
}

/// Position of the first `c` at or after `from`, as an index into `s`.
pub fn find_char(s: &Vec<char>, c: char, from: usize) -> (r: Option<usize>)
    requires
        from <= s.len(),
    ensures
        match first_index_of(s@.subrange(from as int, s.len() as int), c) {
            Some(k) => r == Some((from + k) as usize) && 0 <= k && from + k < s.len(),
            None => r is None,
        },
        match r {
            Some(i) => from <= i < s.len() && s@[i as int] == c
                && forall|j: int| from <= j < i ==> s@[j] != c,
            None => forall|j: int| from <= j < s.len() ==> s@[j] != c,
        },
{
    let ghost t = s@.subrange(from as int, s.len() as int);
    let mut i = from;
    while i < s.len()
        invariant
            from <= i <= s.len(),
            t == s@.subrange(from as int, s.len() as int),
            forall|j: int| from <= j < i ==> s@[j] != c,
        decreases s.len() - i,
    {
        if s[i] == c {
            proof {
                lemma_first_index_some(t, c, i - from);
            }
            return Some(i);
        }
        i += 1;
    }
    proof {
        lemma_first_index_none(t, c);
    }
    None
}

/// Number of characters that are not whitespace.
pub open spec fn non_ws_count(s: Seq<char>) -> nat
    decreases s.len(),
{
    if s.len() == 0 {
        0
    } else {
        non_ws_count(s.drop_last()) + if is_ws(s.last()) { 0nat } else { 1nat }
    }
}

pub fn non_ws_count_exec(s: &Vec<char>) -> (r: usize)
    ensures
        r == non_ws_count(s@),
{
    let mut n: usize = 0;
    let mut i: usize = 0;
    while i < s.len()
        invariant
            i <= s.len(),
            n == non_ws_count(s@.subrange(0, i as int)),
            n <= i,
        decreases s.len() - i,
    {
        assert(s@.subrange(0, i + 1).drop_last() =~= s@.subrange(0, i as int));
        if !is_ws_exec(s[i]) {
            n += 1;
        }
        i += 1;
    }
    assert(s@.subrange(0, s.len() as int) =~= s@);
    n
}

} // verus!

verus! {

/// Numeric value of an ASCII digit.
pub open spec fn digit_val(c: char) -> nat {
    ((c as u32) - ('0' as u32)) as nat
}

/// Value of a string of ASCII digits.
pub open spec fn digits_value(s: Seq<char>) -> nat
    decreases s.len(),
{
    if s.len() == 0 {
        0
    } else {
        digits_value(s.drop_last()) * 10 + digit_val(s.last())
    }
}

pub open spec fn all_digits(s: Seq<char>) -> bool {
    forall|i: int| 0 <= i < s.len() ==> is_digit(#[trigger] s[i])
}

/// `str::parse::<u32>`: an optional `+`, then one or more ASCII digits whose
/// value fits in `u32`.
pub open spec fn parse_u32_spec(s: Seq<char>) -> Option<nat> {
    let d = if s.len() > 0 && s[0] == '+' { s.drop_first() } else { s };
    if d.len() > 0 && all_digits(d) && digits_value(d) <= u32::MAX {
        Some(digits_value(d))
    } else {
        None
    }
}

/// Value of a digit string, capped at `cap` (exact below the cap).
pub fn capped_digits_value(s: &Vec<char>, from: usize, to: usize, cap: u64) -> (r: u64)
    requires
        from <= to <= s.len(),
        cap <= u32::MAX + 1,
        all_digits(s@.subrange(from as int, to as int)),
    ensures
        r == (if digits_value(s@.subrange(from as int, to as int)) < cap {
            digits_value(s@.subrange(from as int, to as int))
        } else {
            cap as nat
        }),
{
    let mut v: u64 = 0;
    let mut i = from;
    while i < to
        invariant
            from <= i <= to <= s.len(),
            cap <= u32::MAX + 1,
            all_digits(s@.subrange(from as int, to as int)),
            v == (if digits_value(s@.subrange(from as int, i as int)) < cap {
                digits_value(s@.subrange(from as int, i as int))
            } else {
                cap as nat
            }),
        decreases to - i,
    {
        let ghost pre = s@.subrange(from as int, i as int);
        let ghost nxt = s@.subrange(from as int, i + 1);
        assert(nxt.drop_last() =~= pre);
        assert(nxt.last() == s@[i as int]);
        assert(is_digit(s@.subrange(from as int, to as int)[i - from]));
        let d = ((s[i] as u32) - ('0' as u32)) as u64;
        assert(d == digit_val(nxt.last()));
        assert(d <= 9);
        if v >= cap {
            assert(digits_value(pre) >= cap);
            assert(digits_value(nxt) >= cap) by (nonlinear_arith)
                requires digits_value(nxt) == digits_value(pre) * 10 + d, digits_value(pre) >= cap;
            v = cap;
        } else {
            let w = v * 10 + d;
            if w >= cap {
                v = cap;
            } else {
                v = w;
            }
        }
        i += 1;
    }
    v
}

/// `str::parse::<u32>`.
pub fn parse_u32(s: &Vec<char>) -> (r: Option<u32>)
    ensures
        match parse_u32_spec(s@) {
            Some(n) => r == Some(n as u32),
            None => r is None,
        },
{
    let from: usize = if s.len() > 0 && s[0] == '+' { 1 } else { 0 };
    assert(s@.subrange(from as int, s.len() as int) =~= (if s@.len() > 0 && s@[0] == '+' { s@.drop_first() } else { s@ }));
    if from == s.len() {
        return None;
    }
    let mut i = from;
    while i < s.len()
        invariant
            from <= i <= s.len(),
            forall|j: int| from <= j < i ==> is_digit(s@[j]),
            s@.subrange(from as int, s.len() as int) == (if s@.len() > 0 && s@[0] == '+' { s@.drop_first() } else { s@ }),
        decreases s.len() - i,
    {
        if !('0' <= s[i] && s[i] <= '9') {
            assert(!is_digit(s@.subrange(from as int, s.len() as int)[i - from]));
            return None;
        }
        i += 1;
    }
    assert(all_digits(s@.subrange(from as int, s.len() as int)));
    let v = capped_digits_value(s, from, s.len(), 4294967296);
    if v >= 4294967296 {
        return None;
    }
    Some(v as u32)
}

} // verus!

verus! {

/// `ns` with the value of the digit run `cur` appended when the run has an
/// accepted length and value.
pub open spec fn accept_run(ns: Seq<nat>, cur: Seq<char>, min_len: nat, max_len: nat, lo: nat, hi: nat) -> Seq<nat> {
    if min_len <= cur.len() <= max_len && lo <= digits_value(cur) <= hi {
        ns.push(digits_value(cur))
    } else {
        ns
    }
}

/// Accepted numbers of the finished digit runs of `s`, and the run in progress.
pub open spec fn runs_acc(s: Seq<char>, min_len: nat, max_len: nat, lo: nat, hi: nat) -> (Seq<nat>, Seq<char>)
    decreases s.len(),
{
    if s.len() == 0 {
        (Seq::<nat>::empty(), Seq::<char>::empty())
    } else {
        let (ns, cur) = runs_acc(s.drop_last(), min_len, max_len, lo, hi);
        if is_digit(s.last()) {
            (ns, cur.push(s.last()))
        } else if cur.len() > 0 {
            (accept_run(ns, cur, min_len, max_len, lo, hi), Seq::<char>::empty())
        } else {
            (ns, Seq::<char>::empty())
        }
    }
}

/// The values of the maximal runs of ASCII digits in `s` whose length lies in
/// `[min_len, max_len]` and whose value lies in `[lo, hi]`, in order.
pub open spec fn number_runs(s: Seq<char>, min_len: nat, max_len: nat, lo: nat, hi: nat) -> Seq<nat> {
    let (ns, cur) = runs_acc(s, min_len, max_len, lo, hi);
    if cur.len() > 0 {
        accept_run(ns, cur, min_len, max_len, lo, hi)
    } else {
        ns
    }
}

pub open spec fn nat_view(v: Seq<u32>) -> Seq<nat> {
    v.map_values(|x: u32| x as nat)
}

proof fn lemma_runs_cur(s: Seq<char>, min_len: nat, max_len: nat, lo: nat, hi: nat)
    ensures
        all_digits(runs_acc(s, min_len, max_len, lo, hi).1),
        runs_acc(s, min_len, max_len, lo, hi).1.len() <= s.len(),
        runs_acc(s, min_len, max_len, lo, hi).1 == s.subrange(s.len() - runs_acc(s, min_len, max_len, lo, hi).1.len(), s.len() as int),
    decreases s.len(),
{
    if s.len() > 0 {
        lemma_runs_cur(s.drop_last(), min_len, max_len, lo, hi);
        let (ns, cur) = runs_acc(s.drop_last(), min_len, max_len, lo, hi);
        if is_digit(s.last()) {
            assert(cur.push(s.last()) =~= s.subrange(s.len() - cur.len() - 1, s.len() as int));
        } else {
            assert(s.subrange(s.len() as int, s.len() as int) =~= Seq::<char>::empty());
        }
    } else {
        assert(s.subrange(0, 0) =~= Seq::<char>::empty());
    }
}

proof fn lemma_accept_bounds(ns: Seq<nat>, cur: Seq<char>, min_len: nat, max_len: nat, lo: nat, hi: nat)
    requires
        forall|i: int| 0 <= i < ns.len() ==> lo <= #[trigger] ns[i] <= hi,
    ensures
        forall|i: int| 0 <= i < accept_run(ns, cur, min_len, max_len, lo, hi).len()
            ==> lo <= #[trigger] accept_run(ns, cur, min_len, max_len, lo, hi)[i] <= hi,
{
    let r = accept_run(ns, cur, min_len, max_len, lo, hi);
    assert forall|i: int| 0 <= i < r.len() implies lo <= #[trigger] r[i] <= hi by {
        if i < ns.len() {
            assert(r[i] == ns[i]);
        }
    }
}

proof fn lemma_runs_acc_bounds(s: Seq<char>, min_len: nat, max_len: nat, lo: nat, hi: nat)
    ensures
        forall|i: int| 0 <= i < runs_acc(s, min_len, max_len, lo, hi).0.len()
            ==> lo <= #[trigger] runs_acc(s, min_len, max_len, lo, hi).0[i] <= hi,
    decreases s.len(),
{
    if s.len() > 0 {
        lemma_runs_acc_bounds(s.drop_last(), min_len, max_len, lo, hi);
        let (ns, cur) = runs_acc(s.drop_last(), min_len, max_len, lo, hi);
        lemma_accept_bounds(ns, cur, min_len, max_len, lo, hi);
    }
}

/// Every number read from a text lies in the accepted range.
pub proof fn lemma_number_runs_bounds(s: Seq<char>, min_len: nat, max_len: nat, lo: nat, hi: nat)
    ensures
        forall|i: int| 0 <= i < number_runs(s, min_len, max_len, lo, hi).len()
            ==> lo <= #[trigger] number_runs(s, min_len, max_len, lo, hi)[i] <= hi,
{
    lemma_runs_acc_bounds(s, min_len, max_len, lo, hi);
    let (ns, cur) = runs_acc(s, min_len, max_len, lo, hi);
    lemma_accept_bounds(ns, cur, min_len, max_len, lo, hi);
}

/// Pushes the run `s[start..i]` if it is accepted.
fn accept_run_exec(s: &Vec<char>, start: usize, i: usize, min_len: usize, max_len: usize, lo: u32, hi: u32, ns: &mut Vec<u32>)
    requires
        start <= i <= s.len(),
        hi < u32::MAX,
        all_digits(s@.subrange(start as int, i as int)),
    ensures
        nat_view(final(ns)@) == accept_run(nat_view(old(ns)@), s@.subrange(start as int, i as int), min_len as nat, max_len as nat, lo as nat, hi as nat),
{
    let len = i - start;
    if min_len <= len && len <= max_len {
        let v = capped_digits_value(s, start, i, (hi as u64) + 1);
        if v >= lo as u64 && v <= hi as u64 {
            ns.push(v as u32);
            assert(nat_view(ns@) =~= nat_view(old(ns)@).push(v as nat));
        }
    }
}

/// The values of the accepted maximal digit runs of `s` (see `number_runs`).
pub fn number_runs_exec(s: &Vec<char>, min_len: usize, max_len: usize, lo: u32, hi: u32) -> (r: Vec<u32>)
    requires
        hi < u32::MAX,
    ensures
        nat_view(r@) == number_runs(s@, min_len as nat, max_len as nat, lo as nat, hi as nat),
{
    let mut ns: Vec<u32> = Vec::new();
    let mut start: usize = 0;
    let mut i: usize = 0;
    assert(nat_view(ns@) =~= Seq::<nat>::empty());
    assert(s@.subrange(0, 0) =~= Seq::<char>::empty());
    while i < s.len()
        invariant
            start <= i <= s.len(),
            hi < u32::MAX,
            nat_view(ns@) == runs_acc(s@.subrange(0, i as int), min_len as nat, max_len as nat, lo as nat, hi as nat).0,
            s@.subrange(start as int, i as int) == runs_acc(s@.subrange(0, i as int), min_len as nat, max_len as nat, lo as nat, hi as nat).1,
        decreases s.len() - i,
    {
        let ghost pre = s@.subrange(0, i as int);
        proof {
            assert(s@.subrange(0, i + 1).drop_last() =~= pre);
            lemma_runs_cur(pre, min_len as nat, max_len as nat, lo as nat, hi as nat);
        }
        if '0' <= s[i] && s[i] <= '9' {
            assert(s@.subrange(start as int, i + 1) =~= s@.subrange(start as int, i as int).push(s@[i as int]));
        } else {
            if start < i {
                accept_run_exec(s, start, i, min_len, max_len, lo, hi, &mut ns);
            }
            start = i + 1;
            assert(s@.subrange(start as int, i + 1) =~= Seq::<char>::empty());
        }
        i += 1;
    }
    assert(s@.subrange(0, s.len() as int) =~= s@);
    proof {
        lemma_runs_cur(s@, min_len as nat, max_len as nat, lo as nat, hi as nat);
    }
    if start < s.len() {
        accept_run_exec(s, start, s.len(), min_len, max_len, lo, hi, &mut ns);
    }
    ns
}

} // verus!

verus! {

/// Position of the first occurrence of `n` in `h` (`str::find`).
pub open spec fn first_occurrence(h: Seq<char>, n: Seq<char>) -> Option<int>
    decreases h.len(),
{
    if occurs_at(h, n, 0) {
        Some(0)
    } else if h.len() == 0 {
        None
    } else {
        match first_occurrence(h.drop_first(), n) {
            Some(k) => Some(k + 1),
            None => None,
        }
    }
}

proof fn lemma_occurs_shift(h: Seq<char>, n: Seq<char>, k: int)
    requires
        h.len() > 0,
        k >= 0,
    ensures
        occurs_at(h.drop_first(), n, k) == occurs_at(h, n, k + 1),
{
    if k + 1 + n.len() <= h.len() {
        assert(h.drop_first().subrange(k, k + n.len()) =~= h.subrange(k + 1, k + 1 + n.len()));
    }
}

pub proof fn lemma_first_occurrence(h: Seq<char>, n: Seq<char>, k: int)
    requires
        occurs_at(h, n, k),
        forall|j: int| 0 <= j < k ==> !occurs_at(h, n, j),
    ensures
        first_occurrence(h, n) == Some(k),
    decreases k,
{
    if k > 0 {
        assert(!occurs_at(h, n, 0));
        lemma_occurs_shift(h, n, k - 1);
        assert forall|j: int| 0 <= j < k - 1 implies !occurs_at(h.drop_first(), n, j) by {
            lemma_occurs_shift(h, n, j);
        }
        lemma_first_occurrence(h.drop_first(), n, k - 1);
    }
}

pub proof fn lemma_first_occurrence_none(h: Seq<char>, n: Seq<char>)
    requires
        forall|j: int| 0 <= j ==> !occurs_at(h, n, j),
    ensures
        first_occurrence(h, n) is None,
    decreases h.len(),
{
    if h.len() > 0 {
        assert forall|j: int| 0 <= j implies !occurs_at(h.drop_first(), n, j) by {
            lemma_occurs_shift(h, n, j);
        }
        lemma_first_occurrence_none(h.drop_first(), n);
    }
}

/// `str::find` with a literal needle.
pub fn find_str(h: &Vec<char>, n: &str) -> (r: Option<usize>)
    ensures
        match first_occurrence(h@, n@) {
            Some(k) => r == Some(k as usize) && occurs_at(h@, n@, k),
            None => r is None,
        },
        r matches Some(i) ==> occurs_at(h@, n@, i as int) && first_occurrence(h@, n@) == Some(i as int),
{
    let nv = chars_of(n);
    let r = find_from(h, &nv, 0);
    match r {
        Some(i) => {
            proof { lemma_first_occurrence(h@, n@, i as int); }
        }
        None => {
            proof { lemma_first_occurrence_none(h@, n@); }
        }
    }
    r
}

} // verus!
