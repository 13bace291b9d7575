//! Module command dispatch: command tables and the first-token command parser.

use vstd::prelude::*;

use crate::text::{find_whitespace, first_ws, is_ws, lemma_first_ws_bounds, str_eq, trim, trim_str};

verus! {

/// One entry in a module's command help list.
#[derive(Clone, Copy)]
pub struct CommandDescriptor {
    pub name: &'static str,
    pub description: &'static str,
}

/// One command in a view's dispatch table: the accepted aliases, the help row
/// advertising it, and the constructor for the view's parsed-command value, called with
/// the argument remainder (`None` for a bare token, `Some(rest)`, trimmed and non-empty,
/// when arguments followed it).
pub struct CommandSpec<F> {
    /// First-token spellings that select this command (e.g. `&["wd", "write-device"]`).
    pub aliases: &'static [&'static str],
    /// The help row shown for this command.
    pub descriptor: CommandDescriptor,
    /// Build the parsed command from the argument remainder.
    pub build: F,
}

/// The first whitespace-delimited token of the trimmed input.
pub open spec fn command_token(input: Seq<char>) -> Seq<char> {
    let t = trim(input);
    t.take(first_ws(t, 0))
}

/// What follows the first token and the whitespace character after it, trimmed.
pub open spec fn command_rest(input: Seq<char>) -> Seq<char> {
    let t = trim(input);
    let j = first_ws(t, 0);
    if j < t.len() {
        trim(t.skip(j + 1))
    } else {
        Seq::empty()
    }
}

/// Whether one of `aliases` spells `token` exactly.
pub open spec fn has_alias(aliases: Seq<&str>, token: Seq<char>) -> bool {
    exists|k: int| 0 <= k < aliases.len() && (#[trigger] aliases[k])@ == token
}

/// Whether the entry at `i` is the first of `specs` that accepts `token`.
pub open spec fn first_match<F>(specs: Seq<CommandSpec<F>>, token: Seq<char>, i: int) -> bool {
    &&& 0 <= i < specs.len()
    &&& has_alias(specs[i].aliases@, token)
    &&& forall|k: int| 0 <= k < i ==> !has_alias(#[trigger] specs[k].aliases@, token)
}

/// Whether `arg` is the argument remainder handed to `build` for `rest`: `None` when
/// the remainder is empty, otherwise the remainder itself.
pub open spec fn rest_arg(arg: Option<&str>, rest: Seq<char>) -> bool {
    &&& (arg is None <==> rest.len() == 0)
    &&& (arg matches Some(a) ==> a@ == rest)
}

/// Match `input` against `specs` by its exact first whitespace-delimited token (so
/// `setfoo` never matches `set`). The remainder after the token, trimmed (`None` when
/// empty), is passed to the matching entry's `build`, whose result is returned; an
/// unknown token yields `None`.
pub fn parse_command<C, F: Fn(Option<&str>) -> C>(specs: &[CommandSpec<F>], input: &str) -> (r:
    Option<C>)
    requires
        forall|i: int, a: Option<&str>|
            0 <= i < specs@.len() ==> #[trigger] specs@[i].build.requires((a,)),
    ensures
        r is None <==> forall|i: int| 0 <= i < specs@.len() ==> !has_alias(
            (#[trigger] specs@[i]).aliases@,
            command_token(input@),
        ),
        r matches Some(c) ==> exists|i: int, a: Option<&str>|
            first_match(specs@, command_token(input@), i) && rest_arg(a, command_rest(input@))
                && #[trigger] specs@[i].build.ensures((a,), c),
{
    let trimmed = trim_str(input);
    let n = trimmed.unicode_len();
    let j = find_whitespace(trimmed);
    proof {
        crate::text::lemma_first_ws_bounds(trimmed@, 0);
    }
    let token = trimmed.substring_char(0, j);
    let rest: &str = if j < n {
        trim_str(trimmed.substring_char(j + 1, n))
    } else {
        proof {
            reveal_strlit("");
        }
        ""
    };
    proof {
        assert(token@ == command_token(input@));
        if j < n {
            assert(trimmed@.subrange(j + 1, n as int) =~= trimmed@.skip(j + 1));
        }
        assert(rest@ == command_rest(input@));
    }
    let mut i: usize = 0;
    while i < specs.len()
        invariant
            i <= specs@.len(),
            token@ == command_token(input@),
            rest@ == command_rest(input@),
            forall|i: int, a: Option<&str>|
                0 <= i < specs@.len() ==> #[trigger] specs@[i].build.requires((a,)),
            forall|k: int| 0 <= k < i ==> !has_alias(#[trigger] specs@[k].aliases@, token@),
        decreases specs@.len() - i,
    {
        let aliases = specs[i].aliases;
        let mut k: usize = 0;
        while k < aliases.len()
            invariant
                i < specs@.len(),
                k <= aliases@.len(),
                aliases@ == specs@[i as int].aliases@,
                token@ == command_token(input@),
                rest@ == command_rest(input@),
                forall|k: int| 0 <= k < i ==> !has_alias(#[trigger] specs@[k].aliases@, token@),
                forall|i: int, a: Option<&str>|
                    0 <= i < specs@.len() ==> #[trigger] specs@[i].build.requires((a,)),
                forall|m: int| 0 <= m < k ==> (#[trigger] aliases@[m])@ != token@,
            decreases aliases@.len() - k,
        {
            if str_eq(aliases[k], token) {
                let arg: Option<&str> = if rest.is_empty() {
                    None
                } else {
                    Some(rest)
                };
                let c = (specs[i].build)(arg);
                proof {
                    assert(aliases@[k as int]@ == token@);
                    assert(has_alias(specs@[i as int].aliases@, token@));
                    assert(first_match(specs@, command_token(input@), i as int));
                    assert(rest_arg(arg, command_rest(input@)));
                    assert(specs@[i as int].build.ensures((arg,), c));
                }
                let r = Some(c);
                proof {
                    let cc = r->0;
                    assert(specs@[i as int].build.ensures((arg,), cc));
                    assert(exists|i2: int, a: Option<&str>|
                        first_match(specs@, command_token(input@), i2) && rest_arg(a, command_rest(input@))
                            && #[trigger] specs@[i2].build.ensures((a,), cc));
                }
                return r;
            }
            k = k + 1;
        }
        proof {
            assert(!has_alias(specs@[i as int].aliases@, token@));
        }
        i = i + 1;
    }
    None
}

/// How a command line splits: the token is the start of the trimmed line up to its first
/// whitespace, and holds none; when the line goes on past it, a whitespace character
/// follows and the rest is what comes after that character, trimmed; a line that is one
/// token has an empty rest.
pub proof fn lemma_command_split(input: Seq<char>)
    ensures
        ({
            let t = trim(input);
            let tok = command_token(input);
            &&& tok.len() <= t.len()
            &&& t.take(tok.len() as int) == tok
            &&& forall|k: int| 0 <= k < tok.len() ==> !is_ws(#[trigger] tok[k])
            &&& tok.len() < t.len() ==> is_ws(t[tok.len() as int]) && command_rest(input) == trim(
                t.skip(tok.len() as int + 1),
            )
            &&& tok.len() == t.len() ==> command_rest(input).len() == 0
        }),
{
    let t = trim(input);
    lemma_first_ws_bounds(t, 0);
    let tok = command_token(input);
    assert forall|k: int| 0 <= k < tok.len() implies !is_ws(#[trigger] tok[k]) by {
        assert(tok[k] == t[k]);
    }
}

} // verus!
