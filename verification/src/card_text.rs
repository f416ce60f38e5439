//! Building the Markdown body of a card line by line: titled sections that
//! are left out when their text is blank, and the fallbacks used when a
//! card has no structured text at all.
use vstd::prelude::*;
use crate::text::{append, append_str, chars_of, join, join_exec, string_of, trim, trimmed, trim_str, vviews};

verus! {

/// `## title`, the trimmed body and an empty line; nothing for a blank body.
pub open spec fn section_lines(title: Seq<char>, body: Seq<char>) -> Seq<Seq<char>> {
    if trim(body).len() > 0 {
        seq!["## "@ + title, trim(body), Seq::<char>::empty()]
    } else {
        Seq::empty()
    }
}

/// Appends a titled section unless `body` is blank.
pub fn push_section(lines: &mut Vec<Vec<char>>, title: &str, body: &str)
    ensures
        vviews(final(lines)@) == vviews(old(lines)@) + section_lines(title@, body@),
{
    let b = trim_str(body);
    let ghost before = vviews(lines@);
    if b.len() > 0 {
        let mut h = chars_of("## ");
        append_str(&mut h, title);
        lines.push(h);
        lines.push(b);
        lines.push(Vec::new());
        assert(vviews(lines@) =~= before + section_lines(title@, body@));
    } else {
        assert(vviews(lines@) =~= before + section_lines(title@, body@));
    }
}

/// Pushes one line.
pub fn push_line(lines: &mut Vec<Vec<char>>, line: Vec<char>)
    ensures
        vviews(final(lines)@) == vviews(old(lines)@).push(line@),
{
    let ghost before = vviews(lines@);
    lines.push(line);
    assert(vviews(lines@) =~= before.push(line@));
}

/// The body of a card: its lines joined and trimmed; when that is empty,
/// the trimmed extracted text; when that is empty too, the trimmed outline.
pub open spec fn card_body(lines: Seq<Seq<char>>, extracted: Seq<char>, outline: Seq<char>) -> Seq<char> {
    let out = trim(join(lines, "\n"@));
    if out.len() > 0 {
        out
    } else if trim(extracted).len() > 0 {
        trim(extracted)
    } else {
        trim(outline)
    }
}

/// The card body from its lines, with the fallbacks of `card_body`.
pub fn finish_card(lines: &Vec<Vec<char>>, extracted: &str, outline: &str) -> (r: String)
    ensures
        r@ == card_body(vviews(lines@), extracted@, outline@),
{
    let out = trimmed(&join_exec(lines, "\n"));
    if out.len() > 0 {
        return string_of(&out);
    }
    let f = trim_str(extracted);
    if f.len() > 0 {
        return string_of(&f);
    }
    string_of(&trim_str(outline))
}

} // verus!
