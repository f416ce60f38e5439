//! Model-catalog endpoints: where a provider lists its models, and which of
//! the models a user had selected survive a refresh.
use vstd::prelude::*;
use crate::global_chat::{trim_end_char, trim_end_char_exec};
use crate::text::{append_str, string_of, trim, trim_str};

verus! {

/// A base URL with surrounding whitespace and every trailing `/` removed.
pub open spec fn strip_slash_spec(base: Seq<char>) -> Seq<char> {
    trim_end_char(trim(base), '/')
}

/// `base` trimmed, trailing slashes removed.
pub fn strip_slash(base: &str) -> (r: Vec<char>)
    ensures
        r@ == strip_slash_spec(base@),
{
    let t = trim_str(base);
    trim_end_char_exec(&t, '/')
}

/// The `models` listing of an OpenAI-style endpoint: the base kept as it is
/// (no `/v1` added), only its trailing slashes dropped.
pub fn models_list_url(base: &str) -> (r: String)
    ensures
        r@ == strip_slash_spec(base@) + "/models"@,
{
    let mut u = strip_slash(base);
    append_str(&mut u, "/models");
    string_of(&u)
}

/// Whether `v` holds `x`.
pub open spec fn seq_has(v: Seq<Seq<char>>, x: Seq<char>) -> bool {
    exists|i: int| 0 <= i < v.len() && v[i] == x
}

/// The selected models that the provider still lists, in their order.
pub open spec fn kept_models(selected: Seq<Seq<char>>, listed: Seq<Seq<char>>) -> Seq<Seq<char>>
    decreases selected.len(),
{
    if selected.len() == 0 {
        Seq::empty()
    } else {
        let rest = kept_models(selected.drop_last(), listed);
        if seq_has(listed, selected.last()) {
            rest.push(selected.last())
        } else {
            rest
        }
    }
}

/// After a refresh: with nothing selected, every listed model; otherwise
/// the selected models that are still listed, and every listed model again
/// when none of them is.
pub open spec fn merge_models_spec(selected: Seq<Seq<char>>, listed: Seq<Seq<char>>) -> Seq<Seq<char>> {
    let kept = kept_models(selected, listed);
    if selected.len() == 0 || kept.len() == 0 {
        listed
    } else {
        kept
    }
}

pub open spec fn views(v: Seq<String>) -> Seq<Seq<char>> {
    v.map_values(|s: String| s@)
}

fn listed_has(listed: &Vec<String>, x: &String) -> (r: bool)
    ensures
        r == seq_has(views(listed@), x@),
{
    let mut i: usize = 0;
    while i < listed.len()
        invariant
            i <= listed.len(),
            forall|j: int| 0 <= j < i ==> views(listed@)[j] != x@,
        decreases listed.len() - i,
    {
        if listed[i] == *x {
            assert(views(listed@)[i as int] == x@);
            return true;
        }
        i += 1;
    }
    false
}

/// The provider's model list after a refresh returned `listed`
/// (`selected` is what the user had picked before).
pub fn merge_provider_models(selected: &Vec<String>, listed: &Vec<String>) -> (r: Vec<String>)
    ensures
        views(r@) == merge_models_spec(views(selected@), views(listed@)),
{
    let mut kept: Vec<String> = Vec::new();
    let mut k: usize = 0;
    while k < selected.len()
        invariant
            k <= selected.len(),
            views(kept@) == kept_models(views(selected@).subrange(0, k as int), views(listed@)),
        decreases selected.len() - k,
    {
        let ghost pre = views(selected@).subrange(0, k as int);
        let ghost nxt = views(selected@).subrange(0, k + 1);
        assert(nxt.drop_last() =~= pre);
        assert(nxt.last() == selected@[k as int]@);
        if listed_has(listed, &selected[k]) {
            kept.push(selected[k].clone());
            assert(views(kept@) =~= views(kept@).subrange(0, kept.len() - 1).push(selected@[k as int]@));
        }
        k += 1;
    }
    assert(views(selected@).subrange(0, selected.len() as int) =~= views(selected@));
    if selected.len() == 0 || kept.len() == 0 {
        listed.clone()
    } else {
        kept
    }
}

proof fn lemma_kept_listed(selected: Seq<Seq<char>>, listed: Seq<Seq<char>>)
    ensures
        forall|i: int| 0 <= i < kept_models(selected, listed).len()
            ==> seq_has(listed, #[trigger] kept_models(selected, listed)[i]),
    decreases selected.len(),
{
    if selected.len() > 0 {
        lemma_kept_listed(selected.drop_last(), listed);
        let rest = kept_models(selected.drop_last(), listed);
        let k = kept_models(selected, listed);
        assert forall|i: int| 0 <= i < k.len() implies seq_has(listed, #[trigger] k[i]) by {
            if i < rest.len() {
                assert(k[i] == rest[i]);
            }
        }
    }
}

/// After a refresh a provider lists only models that the provider itself
/// returned.
pub proof fn refreshed_models_are_listed(selected: Seq<Seq<char>>, listed: Seq<Seq<char>>)
    ensures
        forall|i: int| 0 <= i < merge_models_spec(selected, listed).len()
            ==> seq_has(listed, #[trigger] merge_models_spec(selected, listed)[i]),
{
    lemma_kept_listed(selected, listed);
    assert forall|i: int| 0 <= i < listed.len() implies seq_has(listed, #[trigger] listed[i]) by {}
}

} // verus!
