//! The instruction prompt sent to a provider: a fixed template around the
//! working directory and the user's free-text request.

use vstd::prelude::*;
use vstd::string::StringExecFns;

verus! {

/// The template text before the working directory.
pub open spec fn prompt_head() -> Seq<char> {
    "You are a shell command translator. Convert the user's request into a shell command for Linux/zsh.\nCurrent directory: "@
}

/// The template text between the working directory and the request.
pub open spec fn prompt_rules() -> Seq<char> {
    "\n\nRules:\n- Output ONLY the command, nothing else\n- No explanations, no markdown, no backticks\n- If unclear, make a reasonable assumption\n- Prefer simple, common commands\n\nUser request: "@
}

/// The whole prompt.  A function of its two inputs and nothing else.
pub open spec fn spec_build_prompt(user_input: Seq<char>, cwd: Seq<char>) -> Seq<char> {
    prompt_head() + cwd + prompt_rules() + user_input
}

pub fn build_prompt(user_input: &str, cwd: &str) -> (r: String)
    ensures
        r@ == spec_build_prompt(user_input@, cwd@),
{
    let r = String::from_str(
        "You are a shell command translator. Convert the user's request into a shell command for Linux/zsh.\nCurrent directory: ",
    ).concat(cwd).concat(
        "\n\nRules:\n- Output ONLY the command, nothing else\n- No explanations, no markdown, no backticks\n- If unclear, make a reasonable assumption\n- Prefer simple, common commands\n\nUser request: ",
    ).concat(user_input);
    proof {
        assert(r@ =~= spec_build_prompt(user_input@, cwd@));
    }
    r
}

/// Law: the prompt embeds the working directory and the user's request
/// verbatim, at fixed places.
pub proof fn lemma_prompt_contains_inputs(u: Seq<char>, c: Seq<char>)
    ensures
        spec_build_prompt(u, c).subrange(
            prompt_head().len() as int,
            prompt_head().len() as int + c.len(),
        ) == c,
        spec_build_prompt(u, c).subrange(
            spec_build_prompt(u, c).len() - u.len(),
            spec_build_prompt(u, c).len() as int,
        ) == u,
{
    let p = spec_build_prompt(u, c);
    assert(p.subrange(prompt_head().len() as int, prompt_head().len() as int + c.len()) =~= c);
    assert(p.subrange(p.len() - u.len(), p.len() as int) =~= u);
}

/// Law: the template itself holds no backtick, so a prompt built from a
/// backtick-free request and directory holds none either — in particular no
/// markdown fence.
pub proof fn lemma_prompt_no_backtick(u: Seq<char>, c: Seq<char>)
    requires
        forall|j: int| 0 <= j < u.len() ==> u[j] != '`',
        forall|j: int| 0 <= j < c.len() ==> c[j] != '`',
    ensures
        forall|j: int|
            0 <= j < spec_build_prompt(u, c).len() ==> #[trigger] spec_build_prompt(u, c)[j]
                != '`',
{
    reveal_strlit(
        "You are a shell command translator. Convert the user's request into a shell command for Linux/zsh.\nCurrent directory: ",
    );
    reveal_strlit(
        "\n\nRules:\n- Output ONLY the command, nothing else\n- No explanations, no markdown, no backticks\n- If unclear, make a reasonable assumption\n- Prefer simple, common commands\n\nUser request: ",
    );
    let h = prompt_head();
    let m = prompt_rules();
    assert(forall|j: int| 0 <= j < h.len() ==> #[trigger] h[j] != '`');
    assert(forall|j: int| 0 <= j < m.len() ==> #[trigger] m[j] != '`');
    let p = spec_build_prompt(u, c);
    assert forall|j: int| 0 <= j < p.len() implies #[trigger] p[j] != '`' by {
        if j < h.len() {
            assert(p[j] == h[j]);
        } else if j < h.len() + c.len() {
            assert(p[j] == c[j - h.len()]);
        } else if j < h.len() + c.len() + m.len() {
            assert(p[j] == m[j - h.len() - c.len()]);
        } else {
            assert(p[j] == u[j - h.len() - c.len() - m.len()]);
        }
    }
}

} // verus!
