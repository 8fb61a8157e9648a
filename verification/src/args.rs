//! Command-line tokenization: arguments become flags, parameters, plain
//! constants, and the `--` terminator after which everything is a constant.

use crate::command::{acc_fold, empty_scope, CommandScope, CommandScopeV};
use crate::errors::ConfigError;
use crate::node::{entries_view, map_set, ConfigNode, Entries, NodeV};
use crate::strutil;
use vstd::prelude::*;
use vstd::string::StrSliceExecFns;
use vstd::string::StringExecFns;

verus! {

/// One tokenized argument.
#[derive(Debug, Clone, PartialEq, Eq)]
pub enum ArgToken {
    /// A short or long flag with no value.
    Flag(String),
    /// A flag with an attached value.
    Param(String, String),
    /// A value with no associated flag.
    Constant(String),
    /// The `--` terminator: everything after it is a constant.
    Terminator,
}

/// Model of a token.
pub enum ArgTokenV {
    Flag(Seq<char>),
    Param(Seq<char>, Seq<char>),
    Constant(Seq<char>),
    Terminator,
}

impl View for ArgToken {
    type V = ArgTokenV;

    open spec fn view(&self) -> ArgTokenV {
        match self {
            ArgToken::Flag(f) => ArgTokenV::Flag(f@),
            ArgToken::Param(f, v) => ArgTokenV::Param(f@, v@),
            ArgToken::Constant(c) => ArgTokenV::Constant(c@),
            ArgToken::Terminator => ArgTokenV::Terminator,
        }
    }
}

/// How many leading `-` characters an argument has.
pub open spec fn leading_dashes(s: Seq<char>) -> int
    decreases s.len(),
{
    if s.len() == 0 || s[0] != '-' {
        0
    } else {
        1 + leading_dashes(s.drop_first())
    }
}

/// The flag and value of a dashed argument: the dashes stripped, the text
/// split on `=`; everything after the first `=` joins (without separator)
/// into the attached value.
pub open spec fn dashed_parts(s: Seq<char>) -> Seq<Seq<char>> {
    strutil::split_on(s.skip(leading_dashes(s)), '=')
}

pub open spec fn joined(parts: Seq<Seq<char>>) -> Seq<char>
    decreases parts.len(),
{
    if parts.len() == 0 {
        Seq::empty()
    } else {
        parts[0] + joined(parts.drop_first())
    }
}

/// The token stream from position `i` on.
pub open spec fn tokens_spec(args: Seq<Seq<char>>, i: int, term: bool) -> Seq<ArgTokenV>
    decreases args.len() - i,
{
    if i < 0 || i >= args.len() {
        Seq::empty()
    } else {
        let a = args[i];
        if term {
            seq![ArgTokenV::Constant(a)] + tokens_spec(args, i + 1, true)
        } else if a == "--"@ {
            seq![ArgTokenV::Terminator] + tokens_spec(args, i + 1, true)
        } else if a.len() > 0 && a[0] == '-' {
            let parts = dashed_parts(a);
            let flag = parts[0];
            if parts.len() > 1 {
                seq![ArgTokenV::Param(flag, joined(parts.drop_first()))] + tokens_spec(
                    args,
                    i + 1,
                    false,
                )
            } else if i + 1 < args.len() && !(args[i + 1].len() > 0 && args[i + 1][0] == '-') {
                seq![ArgTokenV::Param(flag, args[i + 1])] + tokens_spec(args, i + 2, false)
            } else {
                seq![ArgTokenV::Flag(flag)] + tokens_spec(args, i + 1, false)
            }
        } else {
            seq![ArgTokenV::Constant(a)] + tokens_spec(args, i + 1, false)
        }
    }
}

/// The dashes stripped from the front of an argument.
#[verifier::loop_isolation(false)]
fn strip_dashes(s: &str) -> (r: String)
    ensures
        r@ == s@.skip(leading_dashes(s@)),
{
    let n = s.unicode_len();
    let mut a: usize = 0;
    while a < n && s.get_char(a) == '-'
        invariant
            a <= n,
            forall|j: int| 0 <= j < a as int ==> s@[j] == '-',
        decreases n - a,
    {
        a = a + 1;
    }
    proof {
        lemma_leading_dashes(s@, a as int);
    }
    strutil::skip_chars(s, a)
}

proof fn lemma_leading_dashes(s: Seq<char>, a: int)
    requires
        0 <= a <= s.len(),
        forall|j: int| 0 <= j < a ==> s[j] == '-',
        a < s.len() ==> s[a] != '-',
    ensures
        leading_dashes(s) == a,
    decreases s.len(),
{
    if s.len() > 0 && s[0] == '-' {
        assert(a >= 1);
        lemma_leading_dashes(s.drop_first(), a - 1);
    }
}

/// Tokenize the raw arguments; the first (the program's own name) is
/// skipped.
#[verifier::loop_isolation(false)]
pub fn tokenize_args(args: &Vec<String>) -> (r: Result<Vec<ArgToken>, ConfigError>)
    ensures
        r is Ok,
        r.unwrap()@.map_values(|t: ArgToken| t@) == tokens_spec(
            args@.map_values(|s: String| s@),
            1,
            false,
        ),
{
    let ghost av = args@.map_values(|s: String| s@);
    let mut out: Vec<ArgToken> = Vec::new();
    let mut i: usize = 1;
    let mut term = false;
    proof {
        assert(out@.map_values(|t: ArgToken| t@) + tokens_spec(av, 1, false) =~= tokens_spec(
            av,
            1,
            false,
        ));
    }
    while i < args.len()
        invariant
            1 <= i,
            out@.map_values(|t: ArgToken| t@) + tokens_spec(av, i as int, term) == tokens_spec(
                av,
                1,
                false,
            ),
        decreases args.len() - i,
    {
        proof {
            assert(av[i as int] == args@[i as int]@);
        }
        let a = &args[i];
        let ghost prev = out@.map_values(|t: ArgToken| t@);
        if term {
            out.push(ArgToken::Constant(a.clone()));
            i = i + 1;
        } else if strutil::str_eq(a.as_str(), "--") {
            out.push(ArgToken::Terminator);
            term = true;
            i = i + 1;
        } else if strutil::first_char_is(a.as_str(), '-') {
            let trimmed = strip_dashes(a.as_str());
            let parts = strutil::split_char(trimmed.as_str(), '=');
            let ghost partsv = strutil::split_on(trimmed@, '=');
            proof {
                strutil::lemma_split_on_len(trimmed@, '=');
                assert(parts@.map_values(|p: String| p@)[0] == partsv[0]);
            }
            let flag = parts[0].clone();
            if parts.len() > 1 {
                let mut value = String::new();
                let mut q: usize = 1;
                proof {
                    assert(value@ + joined(partsv.skip(1)) =~= joined(partsv.drop_first()));
                }
                while q < parts.len()
                    invariant
                        1 <= q <= parts@.len(),
                        parts@.map_values(|p: String| p@) == partsv,
                        value@ + joined(partsv.skip(q as int)) == joined(partsv.drop_first()),
                    decreases parts.len() - q,
                {
                    proof {
                        assert(partsv.skip(q as int)[0] == partsv[q as int]);
                        assert(partsv.skip(q as int).drop_first() =~= partsv.skip(q as int + 1));
                        assert(partsv[q as int] == parts@[q as int]@);
                    }
                    value.append(parts[q].as_str());
                    q = q + 1;
                }
                proof {
                    assert(joined(partsv.skip(parts@.len() as int)).len() == 0);
                    assert(value@ =~= value@ + joined(partsv.skip(parts@.len() as int)));
                }
                out.push(ArgToken::Param(flag, value));
                i = i + 1;
            } else {
                let take_next = if i + 1 < args.len() {
                    !strutil::first_char_is(args[i + 1].as_str(), '-')
                } else {
                    false
                };
                proof {
                    if i + 1 < args@.len() {
                        assert(av[i as int + 1] == args@[i as int + 1]@);
                    }
                }
                if take_next {
                    out.push(ArgToken::Param(flag, args[i + 1].clone()));
                    i = i + 2;
                } else {
                    out.push(ArgToken::Flag(flag));
                    i = i + 1;
                }
            }
        } else {
            out.push(ArgToken::Constant(a.clone()));
            i = i + 1;
        }
        proof {
            assert(out@.map_values(|t: ArgToken| t@) =~= prev.push(
                out@[out@.len() - 1]@,
            ));
        }
    }
    proof {
        assert(tokens_spec(av, i as int, term).len() == 0);
        assert(out@.map_values(|t: ArgToken| t@) =~= out@.map_values(|t: ArgToken| t@)
            + tokens_spec(av, i as int, term));
    }
    Ok(out)
}

// ---------------------------------------------------------------------------
// The initial command scope from the leading flags.
// ---------------------------------------------------------------------------

/// The mapping the leading flags and parameters seed: a flag becomes
/// `{name: true}`, a parameter `{name: value}`; the first other token stops
/// the scan.
pub open spec fn args_map_spec(tokens: Seq<ArgTokenV>, i: int, m: Seq<(Seq<char>, NodeV)>) -> Seq<
    (Seq<char>, NodeV),
>
    decreases tokens.len() - i,
{
    if i < 0 || i >= tokens.len() {
        m
    } else {
        match tokens[i] {
            ArgTokenV::Flag(f) => args_map_spec(tokens, i + 1, map_set(m, f, NodeV::Bool(true))),
            ArgTokenV::Param(f, v) => args_map_spec(
                tokens,
                i + 1,
                map_set(m, f, NodeV::Str(v)),
            ),
            _ => m,
        }
    }
}

/// Seed a fresh command scope from the leading flags and parameters.
#[verifier::loop_isolation(false)]
pub fn get_initial_scope_from_args(args: &Vec<ArgToken>) -> (r: Result<CommandScope, ConfigError>)
    ensures
        r is Ok,
        r.unwrap()@ == acc_fold(
            empty_scope(),
            args_map_spec(args@.map_values(|t: ArgToken| t@), 0, Seq::empty()),
        ),
{
    let ghost tv = args@.map_values(|t: ArgToken| t@);
    let mut m: Entries = Vec::new();
    let mut i: usize = 0;
    let mut stop = false;
    proof {
        assert(entries_view(m@) =~= Seq::<(Seq<char>, NodeV)>::empty());
    }
    while i < args.len() && !stop
        invariant
            i <= args@.len(),
            args_map_spec(tv, i as int, entries_view(m@)) == args_map_spec(
                tv,
                0,
                Seq::empty(),
            ),
            stop ==> args_map_spec(tv, i as int, entries_view(m@)) == entries_view(m@),
        decreases args.len() - i + (if stop {
            0int
        } else {
            1int
        }),
    {
        let ghost cur = entries_view(m@);
        proof {
            assert(tv[i as int] == args@[i as int]@);
        }
        match &args[i] {
            ArgToken::Flag(f) => {
                crate::node::entries_insert(&mut m, f.clone(), ConfigNode::Bool(true));
                i = i + 1;
            },
            ArgToken::Param(f, v) => {
                crate::node::entries_insert(&mut m, f.clone(), ConfigNode::Str(v.clone()));
                i = i + 1;
            },
            _ => {
                stop = true;
            },
        }
    }
    proof {
        assert(args_map_spec(tv, i as int, entries_view(m@)) == entries_view(m@));
    }
    let mut scope = CommandScope::new();
    scope.accumulate_from_mapping(&m);
    Ok(scope)
}

} // verus!
