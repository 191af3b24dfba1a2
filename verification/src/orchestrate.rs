//! Deciding what one invocation does.
//!
//! The command line yields at most one of a provider selection, an API key,
//! or free prompt words; this module turns those plain values into the one
//! action the binary then performs.

use vstd::prelude::*;

use crate::provider::Provider;
use crate::provider::spec_provider_of;
use crate::text::chars_to_string;
use crate::text::push_chars;
use crate::text::str_to_chars;

verus! {

/// What one invocation does.
pub enum Action {
    /// Persist the given provider as the default.
    SetProvider(Provider),
    /// The provider name was not recognized.
    InvalidProvider,
    /// Persist the given API key for the active provider.
    SetApiKey(String),
    /// No input: print usage and leave.
    Usage,
    /// Ask the active provider about this free-text request.
    Generate(String),
}

/// Words joined with single spaces.
pub open spec fn spec_join_words(ws: Seq<Seq<char>>) -> Seq<char>
    decreases ws.len(),
{
    if ws.len() == 0 {
        Seq::empty()
    } else if ws.len() == 1 {
        ws[0]
    } else {
        spec_join_words(ws.drop_last()) + seq![' '] + ws.last()
    }
}

pub fn join_words(words: &Vec<String>) -> (r: String)
    ensures
        r@ == spec_join_words(words@.map_values(|w: String| w@)),
{
    let ghost ws = words@.map_values(|w: String| w@);
    let mut out: Vec<char> = Vec::new();
    let n = words.len();
    let mut i: usize = 0;
    proof {
        assert(ws.subrange(0, 0) =~= Seq::<Seq<char>>::empty());
    }
    while i < n
        invariant
            0 <= i <= n,
            n == words@.len(),
            ws == words@.map_values(|w: String| w@),
            out@ == spec_join_words(ws.subrange(0, i as int)),
        decreases n - i,
    {
        if i > 0 {
            out.push(' ');
        }
        let wc = str_to_chars(words[i].as_str());
        push_chars(&mut out, &wc);
        i += 1;
        proof {
            let cur = ws.subrange(0, i as int);
            assert(cur.drop_last() =~= ws.subrange(0, i - 1));
            assert(cur.last() == ws[i - 1]);
            if i == 1 {
                assert(cur.len() == 1);
                assert(out@ =~= cur[0]);
            }
        }
    }
    proof {
        assert(ws.subrange(0, n as int) =~= ws);
    }
    chars_to_string(&out)
}

/// Decides the invocation's action: provider selection first, then API key,
/// then a free-text request, and usage when nothing was given.
pub fn plan_invocation(
    set_provider: &Option<String>,
    set_api_key: &Option<String>,
    prompt_words: &Vec<String>,
) -> (a: Action)
    ensures
        match *set_provider {
            Some(ref s) => match spec_provider_of(s@) {
                Some(p) => a == Action::SetProvider(p),
                None => a == Action::InvalidProvider,
            },
            None => match *set_api_key {
                Some(ref k) => a matches Action::SetApiKey(s2) && s2@ == k@,
                None => if prompt_words@.len() == 0 {
                    a == Action::Usage
                } else {
                    a matches Action::Generate(s2) && s2@ == spec_join_words(
                        prompt_words@.map_values(|w: String| w@),
                    )
                },
            },
        },
{
    match set_provider {
        Some(s) => match Provider::from_str(s.as_str()) {
            Some(p) => Action::SetProvider(p),
            None => Action::InvalidProvider,
        },
        None => match set_api_key {
            Some(k) => Action::SetApiKey(k.clone()),
            None => {
                if prompt_words.len() == 0 {
                    Action::Usage
                } else {
                    Action::Generate(join_words(prompt_words))
                }
            },
        },
    }
}

} // verus!
