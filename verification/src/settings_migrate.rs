//! Settings read back from the store: the one-time move of the older
//! single API keys into the list of OpenAI-compatible providers, and the
//! reading of the stored switches.
use vstd::prelude::*;
use crate::ids::new_uuid;
use crate::text::{trim, trim_str};

verus! {

/// An OpenAI-compatible model provider.
pub struct CompatProvider {
    pub id: String,
    pub label: String,
    pub protocol: String,
    pub base_url: String,
    pub api_key: String,
    pub models: Vec<String>,
}

/// The single API keys of older settings, with the two base addresses
/// that went with them.
pub struct LegacyKeys {
    pub deepseek_api_key: String,
    pub kimi_api_key: String,
    pub chatgpt_api_key: String,
    pub grok_api_key: String,
    pub deepseek_base_url: String,
    pub kimi_base_url: String,
}

/// One provider to make from an older key, when the key is not blank.
pub open spec fn legacy_one(label: Seq<char>, base: Seq<char>, key: Seq<char>) -> Seq<(Seq<char>, Seq<char>, Seq<char>)> {
    if trim(key).len() > 0 { seq![(label, base, key)] } else { Seq::empty() }
}

/// The providers the older keys become, in this order: DeepSeek, Kimi,
/// ChatGPT, Grok (label, base address, key).
pub open spec fn legacy_providers(k: LegacyKeys) -> Seq<(Seq<char>, Seq<char>, Seq<char>)> {
    legacy_one("DeepSeek"@, k.deepseek_base_url@, k.deepseek_api_key@)
        + legacy_one("Kimi"@, k.kimi_base_url@, k.kimi_api_key@)
        + legacy_one("ChatGPT"@, "https://api.openai.com"@, k.chatgpt_api_key@)
        + legacy_one("Grok"@, "https://api.x.ai"@, k.grok_api_key@)
}

/// A provider made from an older key: a fresh random id, the OpenAI
/// protocol, no model list.
pub open spec fn made_provider(p: CompatProvider, src: (Seq<char>, Seq<char>, Seq<char>)) -> bool {
    &&& p.id@.len() == 36
    &&& p.label@ == src.0
    &&& p.protocol@ == "openai"@
    &&& p.base_url@ == src.1
    &&& p.api_key@ == src.2
    &&& p.models@.len() == 0
}

fn push_legacy(ps: &mut Vec<CompatProvider>, label: &str, base: &str, key: &str)
    ensures
        final(ps)@.len() == old(ps)@.len() + legacy_one(label@, base@, key@).len(),
        forall|j: int| 0 <= j < old(ps)@.len() ==> final(ps)@[j] == old(ps)@[j],
        legacy_one(label@, base@, key@).len() == 1 ==> made_provider(final(ps)@[old(ps)@.len() as int], (label@, base@, key@)),
{
    if trim_str(key).len() > 0 {
        ps.push(CompatProvider {
            id: new_uuid(),
            label: String::from_str(label),
            protocol: String::from_str("openai"),
            base_url: String::from_str(base),
            api_key: String::from_str(key),
            models: Vec::new(),
        });
    }
}

/// Moves the older single keys into the provider list once: only when no
/// provider list was ever saved and the list is empty. Each non-blank key
/// becomes a provider (see `legacy_providers`); when any did, the four
/// older keys are cleared so that an emptied list is not filled again.
/// Returns whether anything moved.
pub fn migrate_legacy_keys(list_ever_saved: bool, providers: &mut Vec<CompatProvider>, keys: &mut LegacyKeys) -> (moved: bool)
    ensures
        (list_ever_saved || old(providers)@.len() > 0) ==> {
            &&& !moved
            &&& final(providers)@ == old(providers)@
            &&& *final(keys) == *old(keys)
        },
        (!list_ever_saved && old(providers)@.len() == 0) ==> {
            let want = legacy_providers(*old(keys));
            &&& moved == (want.len() > 0)
            &&& final(providers)@.len() == want.len()
            &&& forall|i: int| 0 <= i < want.len() ==> #[trigger] made_provider(final(providers)@[i], want[i])
            &&& final(keys).deepseek_base_url == old(keys).deepseek_base_url
            &&& final(keys).kimi_base_url == old(keys).kimi_base_url
            &&& if moved {
                &&& final(keys).deepseek_api_key@.len() == 0
                &&& final(keys).kimi_api_key@.len() == 0
                &&& final(keys).chatgpt_api_key@.len() == 0
                &&& final(keys).grok_api_key@.len() == 0
            } else {
                *final(keys) == *old(keys)
            }
        },
{
    if list_ever_saved || providers.len() > 0 {
        return false;
    }
    let ghost k0 = *keys;
    push_legacy(providers, "DeepSeek", keys.deepseek_base_url.as_str(), keys.deepseek_api_key.as_str());
    let ghost l1 = providers@.len();
    push_legacy(providers, "Kimi", keys.kimi_base_url.as_str(), keys.kimi_api_key.as_str());
    let ghost l2 = providers@.len();
    push_legacy(providers, "ChatGPT", "https://api.openai.com", keys.chatgpt_api_key.as_str());
    let ghost l3 = providers@.len();
    push_legacy(providers, "Grok", "https://api.x.ai", keys.grok_api_key.as_str());
    proof {
        let want = legacy_providers(k0);
        let a = legacy_one("DeepSeek"@, k0.deepseek_base_url@, k0.deepseek_api_key@);
        let b = legacy_one("Kimi"@, k0.kimi_base_url@, k0.kimi_api_key@);
        let c = legacy_one("ChatGPT"@, "https://api.openai.com"@, k0.chatgpt_api_key@);
        let d = legacy_one("Grok"@, "https://api.x.ai"@, k0.grok_api_key@);
        assert(l1 == a.len());
        assert(l2 == a.len() + b.len());
        assert(l3 == a.len() + b.len() + c.len());
        assert forall|i: int| 0 <= i < want.len() implies #[trigger] made_provider(providers@[i], want[i]) by {
            if i < a.len() {
                assert(want[i] == a[i]);
            } else if i < a.len() + b.len() {
                assert(want[i] == b[i - a.len()]);
            } else if i < a.len() + b.len() + c.len() {
                assert(want[i] == c[i - a.len() - b.len()]);
            } else {
                assert(want[i] == d[i - a.len() - b.len() - c.len()]);
            }
        }
    }
    let moved = providers.len() > 0;
    if moved {
        keys.deepseek_api_key = String::new();
        keys.kimi_api_key = String::new();
        keys.chatgpt_api_key = String::new();
        keys.grok_api_key = String::new();
    }
    moved
}

/// The stored MCP switch: on unless it reads `0`, `false`, `False` or `no`.
pub fn mcp_enabled_value(v: &str) -> (r: bool)
    ensures
        r == !(v@ == "0"@ || v@ == "false"@ || v@ == "False"@ || v@ == "no"@),
{
    let c = crate::text::chars_of(v);
    !(crate::text::eq_str(&c, "0") || crate::text::eq_str(&c, "false") || crate::text::eq_str(&c, "False")
        || crate::text::eq_str(&c, "no"))
}

/// The stored LAN switch: on only when it reads `1`, `true`, `True` or `yes`.
pub fn mcp_lan_value(v: &str) -> (r: bool)
    ensures
        r == (v@ == "1"@ || v@ == "true"@ || v@ == "True"@ || v@ == "yes"@),
{
    let c = crate::text::chars_of(v);
    crate::text::eq_str(&c, "1") || crate::text::eq_str(&c, "true") || crate::text::eq_str(&c, "True")
        || crate::text::eq_str(&c, "yes")
}

/// A stored key value still in plain text: not empty and without the
/// `nw1:` mark of an encrypted one.
pub open spec fn plain_key(v: Seq<char>) -> bool {
    v.len() > 0 && !crate::text::starts_with(v, "nw1:"@)
}

/// Whether settings read back must be saved again at once: the older keys
/// were just moved into the provider list, or some stored key is still in
/// plain text (saving it encrypts it).
pub fn settings_need_resave(migrated: bool, stored_keys: &Vec<String>) -> (r: bool)
    ensures
        r == (migrated || exists|i: int| 0 <= i < stored_keys@.len() && #[trigger] plain_key(stored_keys@[i]@)),
{
    if migrated {
        return true;
    }
    let mut i: usize = 0;
    while i < stored_keys.len()
        invariant
            i <= stored_keys@.len(),
            forall|j: int| 0 <= j < i ==> !#[trigger] plain_key(stored_keys@[j]@),
        decreases stored_keys@.len() - i,
    {
        let v = crate::text::chars_of(stored_keys[i].as_str());
        if v.len() > 0 && !crate::text::starts_with_str(&v, "nw1:") {
            assert(plain_key(stored_keys@[i as int]@));
            return true;
        }
        i += 1;
    }
    false
}

} // verus!
