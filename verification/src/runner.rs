//! Turning a `cmd` template into a program and its argument template, and
//! reading a child process's exit back into an exit code.

use vstd::prelude::*;

verus! {

/// Why a subcommand could not be run to a normal exit code.
#[derive(Debug, Clone, PartialEq, Eq)]
pub enum RunError {
    /// The `cmd` template cannot be tokenized; carries the lexer's message.
    Lex(String),
    /// The `cmd` template has no tokens at all, so there is no program to
    /// spawn.
    EmptyCommand,
    /// The child died of a signal instead of exiting: distinct from a normal
    /// nonzero exit.
    TerminatedBySignal,
}

/// What shell-word lexing makes of a template: its tokens, or nothing when
/// quoting is unbalanced. The result depends on the string alone.
pub uninterp spec fn shell_split_model(s: Seq<char>) -> Option<Seq<Seq<char>>>;

/// Relies on shell_words::split: POSIX shell-style tokenization of a command
/// line, failing exactly on an unclosed quote.
#[verifier::external_body]
fn shell_split(s: &String) -> (r: Result<Vec<String>, RunError>)
    ensures
        r is Ok <==> shell_split_model(s@) is Some,
        r matches Ok(v) ==> v.deep_view() == shell_split_model(s@)->Some_0,
        r matches Err(e) ==> e is Lex,
{
    match shell_words::split(s.as_str()) {
        Ok(v) => Ok(v),
        Err(e) => Err(RunError::Lex(e.to_string())),
    }
}

/// Split a `cmd` template into the program to spawn and the literal argument
/// tokens that follow it (the part that template expansion then works on).
pub fn split_command(cmd: &String) -> (r: Result<(String, Vec<String>), RunError>)
    ensures
        r is Ok <==> (shell_split_model(cmd@) matches Some(toks) && toks.len() > 0),
        r matches Ok(p) ==> {
            let toks = shell_split_model(cmd@)->Some_0;
            p.0@ == toks[0] && p.1.deep_view() == toks.skip(1)
        },
        r matches Err(e) ==> e is Lex || e is EmptyCommand,
        r matches Err(e) ==> (e is Lex <==> shell_split_model(cmd@) is None),
        r matches Err(e) ==> (e is EmptyCommand <==> (shell_split_model(cmd@) matches Some(toks)
            && toks.len() == 0)),
{
    let toks = match shell_split(cmd) {
        Ok(v) => v,
        Err(e) => {
            return Err(e);
        },
    };
    if toks.len() == 0 {
        return Err(RunError::EmptyCommand);
    }
    let ghost model = shell_split_model(cmd@)->Some_0;
    let mut rest: Vec<String> = Vec::new();
    let n = toks.len();
    let mut i: usize = 1;
    while i < n
        invariant
            1 <= i <= n,
            n == toks.len(),
            toks.deep_view() == model,
            n == model.len(),
            rest.deep_view() == model.subrange(1, i as int),
        decreases n - i,
    {
        let ghost before = rest.deep_view();
        rest.push(toks[i].clone());
        proof {
            assert(toks.deep_view()[i as int] == toks[i as int]@);
            assert(rest.deep_view() =~= before.push(model[i as int]));
            assert(rest.deep_view() =~= model.subrange(1, i + 1));
        }
        i = i + 1;
    }
    let program = toks[0].clone();
    proof {
        assert(toks.deep_view()[0] == toks[0 as int]@);
        assert(rest.deep_view() =~= model.skip(1));
    }
    Ok((program, rest))
}

/// Read what waiting on the child reported: a normal exit keeps its code
/// as-is; death by signal is its own error, never coerced into a code.
pub fn interpret_wait_status(code: Option<i32>) -> (r: Result<i32, RunError>)
    ensures
        code matches Some(c) ==> r == Ok::<i32, RunError>(c),
        code is None ==> r == Err::<i32, RunError>(RunError::TerminatedBySignal),
{
    match code {
        Some(c) => Ok(c),
        None => Err(RunError::TerminatedBySignal),
    }
}

} // verus!
