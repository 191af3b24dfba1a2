//! The closed set of command-generation providers.
//!
//! Each provider owns a canonical name and the configuration key that holds
//! its credential.  Selection comes from the persisted configuration and
//! falls back to the default provider rather than failing.

use vstd::prelude::*;
use vstd::string::StringExecFns;

use crate::store::ConfigStore;
use crate::text::chars_to_string;
use crate::text::spec_trim;
use crate::text::str_to_chars;
use crate::text::trim_chars;

verus! {

#[derive(Clone, Copy, Debug, PartialEq, Eq, Structural)]
pub enum Provider {
    Gemini,
    Zai,
}

/// One input character equals one lowercase pattern character, up to ASCII
/// case folding of the input.
pub open spec fn char_matches_lower(a: char, b: char) -> bool {
    a == b || (65 <= a as u32 && a as u32 <= 90 && a as u32 + 32 == b as u32)
}

/// The input equals the lowercase pattern up to ASCII case folding.
pub open spec fn matches_lower(s: Seq<char>, t: Seq<char>) -> bool {
    s.len() == t.len() && forall|i: int| 0 <= i < s.len() ==> char_matches_lower(s[i], t[i])
}

/// Which provider a selection string names, if any.
pub open spec fn spec_provider_of(s: Seq<char>) -> Option<Provider> {
    if matches_lower(s, "gemini"@) || matches_lower(s, "google"@) {
        Some(Provider::Gemini)
    } else if matches_lower(s, "zai"@) || matches_lower(s, "z.ai"@) || matches_lower(s, "z-ai"@) {
        Some(Provider::Zai)
    } else {
        None
    }
}

fn chars_match_lower(s: &Vec<char>, t: &Vec<char>) -> (r: bool)
    ensures
        r == matches_lower(s@, t@),
{
    if s.len() != t.len() {
        return false;
    }
    let n = s.len();
    let mut i: usize = 0;
    while i < n
        invariant
            0 <= i <= n,
            n == s@.len() == t@.len(),
            forall|j: int| 0 <= j < i ==> char_matches_lower(#[trigger] s@[j], t@[j]),
        decreases n - i,
    {
        let a = s[i];
        let b = t[i];
        let ok = a == b || (a as u32 >= 65 && a as u32 <= 90 && a as u32 + 32 == b as u32);
        if !ok {
            proof {
                assert(!char_matches_lower(s@[i as int], t@[i as int]));
            }
            return false;
        }
        i += 1;
    }
    true
}

impl Provider {
    /// The accepted spellings, compared case-insensitively; anything else
    /// names no provider.
    pub fn from_str(value: &str) -> (r: Option<Provider>)
        ensures
            r == spec_provider_of(value@),
    {
        let cs = str_to_chars(value);
        let gemini = str_to_chars("gemini");
        let google = str_to_chars("google");
        let zai = str_to_chars("zai");
        let z_dot = str_to_chars("z.ai");
        let z_dash = str_to_chars("z-ai");
        if chars_match_lower(&cs, &gemini) || chars_match_lower(&cs, &google) {
            Some(Provider::Gemini)
        } else if chars_match_lower(&cs, &zai) || chars_match_lower(&cs, &z_dot)
            || chars_match_lower(&cs, &z_dash) {
            Some(Provider::Zai)
        } else {
            None
        }
    }

    pub open spec fn spec_env_key(self) -> Seq<char> {
        match self {
            Provider::Gemini => "GEMINI_API_KEY"@,
            Provider::Zai => "ZAI_API_KEY"@,
        }
    }

    /// The configuration key that holds this provider's credential.
    pub fn env_key(self) -> (r: &'static str)
        ensures
            r@ == self.spec_env_key(),
    {
        match self {
            Provider::Gemini => "GEMINI_API_KEY",
            Provider::Zai => "ZAI_API_KEY",
        }
    }

    pub open spec fn spec_name(self) -> Seq<char> {
        match self {
            Provider::Gemini => "gemini"@,
            Provider::Zai => "zai"@,
        }
    }

    /// The provider's canonical name, as persisted.
    pub fn name(self) -> (r: &'static str)
        ensures
            r@ == self.spec_name(),
    {
        match self {
            Provider::Gemini => "gemini",
            Provider::Zai => "zai",
        }
    }

    pub open spec fn spec_endpoint_url(self) -> Seq<char> {
        match self {
            Provider::Gemini => "https://generativelanguage.googleapis.com/v1beta/models/gemini-2.5-flash:generateContent"@,
            Provider::Zai => "https://api.z.ai/api/coding/paas/v4/chat/completions"@,
        }
    }

    /// The endpoint the provider's requests go to.
    pub fn endpoint_url(self) -> (r: &'static str)
        ensures
            r@ == self.spec_endpoint_url(),
    {
        match self {
            Provider::Gemini => "https://generativelanguage.googleapis.com/v1beta/models/gemini-2.5-flash:generateContent",
            Provider::Zai => "https://api.z.ai/api/coding/paas/v4/chat/completions",
        }
    }
}

/// The key under which the active provider is persisted.
pub open spec fn spec_provider_key() -> Seq<char> {
    "NLSH_PROVIDER"@
}

/// The provider a configuration selects: the persisted selection when it is
/// recognized, the default provider otherwise.
pub open spec fn spec_current_provider(m: Map<Seq<char>, Seq<char>>) -> Provider {
    if m.contains_key(spec_provider_key()) {
        match spec_provider_of(m[spec_provider_key()]) {
            Some(p) => p,
            None => Provider::Gemini,
        }
    } else {
        Provider::Gemini
    }
}

pub fn current_provider(store: &ConfigStore) -> (p: Provider)
    requires
        store.wf(),
    ensures
        p == spec_current_provider(store.as_map()),
{
    match store.get_str("NLSH_PROVIDER") {
        Some(v) => match Provider::from_str(v.as_str()) {
            Some(p) => p,
            None => Provider::Gemini,
        },
        None => Provider::Gemini,
    }
}

/// The message reported when a provider's credential is missing.
pub open spec fn spec_missing_key_message(k: Seq<char>) -> Seq<char> {
    "Missing "@ + k + ". Set one via `nlsh --set-api-key`."@
}

fn missing_key_message(key: &str) -> (r: String)
    ensures
        r@ == spec_missing_key_message(key@),
{
    let r = String::from_str("Missing ").concat(key).concat(". Set one via `nlsh --set-api-key`.");
    proof {
        assert(r@ =~= spec_missing_key_message(key@));
    }
    r
}

/// Looks the provider's credential up: the trimmed value when one is set
/// and not blank, otherwise the report naming the exact key that is needed.
pub fn ensure_api_key(store: &ConfigStore, provider: Provider) -> (r: Result<String, String>)
    requires
        store.wf(),
    ensures
        match r {
            Ok(v) => store.as_map().contains_key(provider.spec_env_key()) && spec_trim(
                store.as_map()[provider.spec_env_key()],
            ).len() > 0 && v@ == spec_trim(store.as_map()[provider.spec_env_key()]),
            Err(e) => (!store.as_map().contains_key(provider.spec_env_key()) || spec_trim(
                store.as_map()[provider.spec_env_key()],
            ).len() == 0) && e@ == spec_missing_key_message(provider.spec_env_key()),
        },
{
    let key = provider.env_key();
    match store.get_str(key) {
        Some(v) => {
            let vc = str_to_chars(v.as_str());
            let t = trim_chars(&vc);
            if t.len() > 0 {
                Ok(chars_to_string(&t))
            } else {
                Err(missing_key_message(key))
            }
        },
        None => Err(missing_key_message(key)),
    }
}

/// Law: a missing or unrecognized persisted selection resolves to the
/// default provider, and every accepted spelling of the alternative
/// provider resolves to that same provider.
pub proof fn lemma_provider_resolution(m: Map<Seq<char>, Seq<char>>)
    ensures
        !m.contains_key(spec_provider_key()) ==> spec_current_provider(m) == Provider::Gemini,
        m.contains_key(spec_provider_key()) && spec_provider_of(m[spec_provider_key()])
            == None::<Provider> ==> spec_current_provider(m) == Provider::Gemini,
        spec_provider_of("zai"@) == Some(Provider::Zai),
        spec_provider_of("z.ai"@) == Some(Provider::Zai),
        spec_provider_of("z-ai"@) == Some(Provider::Zai),
{
    reveal_strlit("gemini");
    reveal_strlit("google");
    reveal_strlit("zai");
    reveal_strlit("z.ai");
    reveal_strlit("z-ai");
    assert(matches_lower("zai"@, "zai"@));
    assert(matches_lower("z.ai"@, "z.ai"@));
    assert(matches_lower("z-ai"@, "z-ai"@));
    assert("zai"@.len() == 3 && "z.ai"@.len() == 4 && "z-ai"@.len() == 4);
    assert("gemini"@.len() == 6 && "google"@.len() == 6);
    assert(!matches_lower("z.ai"@, "zai"@));
    assert(!matches_lower("z-ai"@, "zai"@));
}

} // verus!
