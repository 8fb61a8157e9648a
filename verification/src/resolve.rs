//! The command resolver: split a dotted command path on the scope
//! separator, walk the canonical `commands` tree folding inherited context
//! at every present segment, then fold the nearest enclosing commands map
//! filtered down to the reserved keys plus the one target entry. A `.`
//! default command wins over a same-named sibling.

use crate::command::{acc_fold, CommandScope, CommandScopeV};
use crate::errors::{ConfigError, ErrorKind};
use crate::expand::is_scope_reserved;
use crate::node::{
    entries_view, map_get, map_has, ConfigNode, Entries, NodeV,
};
use crate::strutil;
use vstd::prelude::*;
use vstd::string::StringExecFns;

verus! {

/// The walk from one segment on: fold and descend at a present segment, a
/// missing final segment is the candidate leaf, a missing earlier segment
/// fails.
pub open spec fn walk_spec(
    parts: Seq<Seq<char>>,
    i: int,
    cur: Seq<(Seq<char>, NodeV)>,
    acc: CommandScopeV,
    last: Seq<char>,
) -> Result<(Seq<(Seq<char>, NodeV)>, CommandScopeV, Seq<char>), ErrorKind>
    decreases parts.len() - i,
{
    if i < 0 || i >= parts.len() {
        Ok((cur, acc, last))
    } else {
        let p = parts[i];
        if map_has(cur, p) {
            if !(map_get(cur, p) is Mapping) {
                Err(ErrorKind::InvalidStructure)
            } else {
                let sub = map_get(cur, p)->Mapping_0;
                walk_spec(parts, i + 1, sub, acc_fold(acc, sub), p)
            }
        } else {
            if i == parts.len() - 1 {
                walk_spec(parts, i + 1, cur, acc, p)
            } else {
                Err(ErrorKind::ScopeNotFound)
            }
        }
    }
}

/// The nearest enclosing commands map filtered down to reserved keys plus
/// the target entry, order kept.
pub open spec fn filtered_cmds(e: Seq<(Seq<char>, NodeV)>, target: Seq<char>) -> Seq<
    (Seq<char>, NodeV),
>
    decreases e.len(),
{
    if e.len() == 0 {
        Seq::empty()
    } else {
        let rest = filtered_cmds(e.drop_first(), target);
        if is_scope_reserved(e[0].0) || e[0].0 == target {
            seq![e[0]] + rest
        } else {
            rest
        }
    }
}

/// What resolving a command path yields: the fully folded command scope, or
/// exactly which step failed.
pub open spec fn resolve_spec(
    cmd: Seq<char>,
    scope0: CommandScopeV,
    config: Seq<(Seq<char>, NodeV)>,
) -> Result<CommandScopeV, ErrorKind> {
    if !map_has(config, "commands"@) {
        Err(ErrorKind::NoCommands)
    } else if !(map_get(config, "commands"@) is Mapping) {
        Err(ErrorKind::InvalidStructure)
    } else {
        let parts = strutil::split_on(cmd, ':');
        match walk_spec(parts, 0, map_get(config, "commands"@)->Mapping_0, scope0, Seq::empty()) {
            Err(k) => Err(k),
            Ok(fin) => {
                let scope = fin.0;
                let acc = fin.1;
                let last = fin.2;
                if !map_has(scope, "commands"@) {
                    Err(ErrorKind::CommandNotFound)
                } else if !(map_get(scope, "commands"@) is Mapping) {
                    Err(ErrorKind::InvalidStructure)
                } else {
                    let cm = map_get(scope, "commands"@)->Mapping_0;
                    let target = if map_has(cm, "."@) {
                        "."@
                    } else {
                        last
                    };
                    if !map_has(cm, target) {
                        Err(ErrorKind::CommandNotFound)
                    } else {
                        Ok(acc_fold(acc, filtered_cmds(cm, target)))
                    }
                }
            },
        }
    }
}

/// Filter a commands map down to its reserved keys plus the target.
#[verifier::loop_isolation(false)]
fn filter_commands(cm: &Entries, target: &str) -> (r: Entries)
    ensures
        entries_view(r@) == filtered_cmds(entries_view(cm@), target@),
{
    let ghost cv = entries_view(cm@);
    let mut out: Entries = Vec::new();
    let mut i: usize = 0;
    let n = cm.len();
    proof {
        assert(cv.skip(0) =~= cv);
        assert(entries_view(out@) + filtered_cmds(cv, target@) =~= filtered_cmds(cv, target@));
    }
    while i < n
        invariant
            i <= n,
            cm@.len() == n,
            entries_view(cm@) == cv,
            entries_view(out@) + filtered_cmds(cv.skip(i as int), target@) == filtered_cmds(
                cv,
                target@,
            ),
        decreases n - i,
    {
        proof {
            assert(cv.skip(i as int)[0] == cv[i as int]);
            assert(cv.skip(i as int).drop_first() =~= cv.skip(i as int + 1));
        }
        let keep = crate::expand::scope_reserved(cm[i].0.as_str()) || strutil::str_eq(
            cm[i].0.as_str(),
            target,
        );
        if keep {
            let ghost prev = entries_view(out@);
            out.push((cm[i].0.clone(), cm[i].1.deep_clone()));
            proof {
                assert(entries_view(out@) =~= prev + seq![cv[i as int]]);
                assert(entries_view(out@) + filtered_cmds(cv.skip(i as int + 1), target@)
                    =~= prev + filtered_cmds(cv.skip(i as int), target@));
            }
        }
        i = i + 1;
    }
    proof {
        assert(filtered_cmds(cv.skip(n as int), target@).len() == 0);
        assert(entries_view(out@) =~= entries_view(out@) + filtered_cmds(
            cv.skip(n as int),
            target@,
        ));
    }
    out
}

/// Resolve a dotted command path against the canonical document, folding
/// the given initial scope.
#[verifier::loop_isolation(false)]
pub fn resolve_command(command: &str, initial_scope: CommandScope, config: &Entries) -> (r: Result<
    CommandScope,
    ConfigError,
>)
    ensures
        match r {
            Ok(s) => resolve_spec(command@, initial_scope@, entries_view(config@)) == Ok::<
                CommandScopeV,
                ErrorKind,
            >(s@),
            Err(e) => resolve_spec(command@, initial_scope@, entries_view(config@)) == Err::<
                CommandScopeV,
                ErrorKind,
            >(e.kind),
        },
{
    let ghost cfg = entries_view(config@);
    let mut scope = initial_scope;
    let commands = match crate::node::entries_get(config, "commands") {
        Some(ConfigNode::Mapping(m)) => {
            proof {
                crate::node::lemma_mapping_view(*m);
            }
            m
        },
        Some(_) => {
            return Err(
                ConfigError::new(ErrorKind::InvalidStructure, String::from_str(command)),
            );
        },
        None => {
            return Err(ConfigError::new(ErrorKind::NoCommands, String::from_str(command)));
        },
    };
    let parts = strutil::split_char(command, ':');
    let ghost partsv = strutil::split_on(command@, ':');
    proof {
        strutil::lemma_split_on_len(command@, ':');
    }
    let mut cur: &Entries = commands;
    let mut last: String = String::new();
    let mut i: usize = 0;
    let n = parts.len();
    while i < n
        invariant
            i <= n,
            parts@.map_values(|p: String| p@).len() == n,
            walk_spec(partsv, i as int, entries_view(cur@), scope@, last@) == walk_spec(
                partsv,
                0,
                map_get(cfg, "commands"@)->Mapping_0,
                initial_scope@,
                Seq::empty(),
            ),
        decreases n - i,
    {
        proof {
            assert(parts@.map_values(|p: String| p@)[i as int] == partsv[i as int]);
        }
        let p = &parts[i];
        let ghost curv = entries_view(cur@);
        match crate::node::entries_get(cur, p.as_str()) {
            Some(ConfigNode::Mapping(sub)) => {
                proof {
                    crate::node::lemma_mapping_view(*sub);
                }
                scope.accumulate_from_mapping(sub);
                cur = sub;
                last = p.clone();
            },
            Some(_) => {
                return Err(
                    ConfigError::new(ErrorKind::InvalidStructure, String::from_str(command)),
                );
            },
            None => {
                if i + 1 == n {
                    last = p.clone();
                } else {
                    proof {
                        assert(walk_spec(partsv, i as int, curv, scope@, last@) == Err::<
                            (Seq<(Seq<char>, NodeV)>, CommandScopeV, Seq<char>),
                            ErrorKind,
                        >(ErrorKind::ScopeNotFound));
                    }
                    return Err(
                        ConfigError::new(ErrorKind::ScopeNotFound, String::from_str(command)),
                    );
                }
            },
        }
        i = i + 1;
    }
    let cm = match crate::node::entries_get(cur, "commands") {
        Some(ConfigNode::Mapping(m)) => {
            proof {
                crate::node::lemma_mapping_view(*m);
            }
            m
        },
        Some(_) => {
            return Err(
                ConfigError::new(ErrorKind::InvalidStructure, String::from_str(command)),
            );
        },
        None => {
            return Err(ConfigError::new(ErrorKind::CommandNotFound, String::from_str(command)));
        },
    };
    let target: String = if crate::node::entries_contains(cm, ".") {
        String::from_str(".")
    } else {
        last
    };
    proof {
        reveal_strlit(".");
    }
    if !crate::node::entries_contains(cm, target.as_str()) {
        return Err(ConfigError::new(ErrorKind::CommandNotFound, String::from_str(command)));
    }
    let filtered = filter_commands(cm, target.as_str());
    scope.accumulate_from_mapping(&filtered);
    Ok(scope)
}

// ---------------------------------------------------------------------------
// Listing every resolvable dotted command path.
// ---------------------------------------------------------------------------

/// The listed name of one command key under a prefix.
pub open spec fn path_name(prefix: Seq<char>, k: Seq<char>) -> Seq<char> {
    if prefix == "root"@ {
        k
    } else if k == "."@ {
        prefix
    } else {
        prefix + "::"@ + k
    }
}

/// The paths contributed by one scope's own commands map.
pub open spec fn own_paths(scope: Seq<(Seq<char>, NodeV)>, prefix: Seq<char>) -> Seq<Seq<char>> {
    if map_has(scope, "commands"@) && map_get(scope, "commands"@) is Mapping {
        let cm = map_get(scope, "commands"@)->Mapping_0;
        Seq::new(cm.len(), |i: int| path_name(prefix, cm[i].0))
    } else {
        Seq::empty()
    }
}

/// All paths of a scope: its own commands, then its sub-scopes in entry
/// order, depth first.
pub open spec fn collect_paths(
    scope: Seq<(Seq<char>, NodeV)>,
    prefix: Seq<char>,
    fuel: nat,
) -> Seq<Seq<char>>
    decreases fuel, 1int, 0int,
{
    if fuel == 0 {
        Seq::empty()
    } else {
        own_paths(scope, prefix) + collect_subs(scope, 0, prefix, fuel)
    }
}

pub open spec fn collect_subs(
    scope: Seq<(Seq<char>, NodeV)>,
    i: int,
    prefix: Seq<char>,
    fuel: nat,
) -> Seq<Seq<char>>
    decreases fuel, 0int, scope.len() - i,
{
    if fuel == 0 || i < 0 || i >= scope.len() {
        Seq::empty()
    } else {
        let head = if !is_scope_reserved(scope[i].0) && scope[i].1 is Mapping {
            collect_paths(
                scope[i].1->Mapping_0,
                if prefix == "root"@ {
                    scope[i].0
                } else {
                    prefix + "::"@ + scope[i].0
                },
                (fuel - 1) as nat,
            )
        } else {
            Seq::empty()
        };
        head + collect_subs(scope, i + 1, prefix, fuel)
    }
}

/// What listing yields: every resolvable dotted path of the document's
/// commands tree, in depth-first order.
pub open spec fn listed_commands(config: Seq<(Seq<char>, NodeV)>, fuel: nat) -> Seq<Seq<char>> {
    if map_has(config, "commands"@) && map_get(config, "commands"@) is Mapping {
        collect_paths(map_get(config, "commands"@)->Mapping_0, "root"@, fuel)
    } else {
        Seq::empty()
    }
}

#[verifier::loop_isolation(false)]
fn collect_paths_exec(scope: &Entries, prefix: &str, out: &mut Vec<String>, fuel: u64)
    ensures
        final(out)@.map_values(|s: String| s@) == old(out)@.map_values(|s: String| s@)
            + collect_paths(entries_view(scope@), prefix@, fuel as nat),
    decreases fuel,
{
    let ghost sv = entries_view(scope@);
    let ghost out0 = old(out)@.map_values(|s: String| s@);
    if fuel == 0 {
        proof {
            assert(out@.map_values(|s: String| s@) =~= out0 + collect_paths(
                sv,
                prefix@,
                0,
            ));
        }
        return ;
    }
    match crate::node::entries_get(scope, "commands") {
        Some(ConfigNode::Mapping(cm)) => {
            proof {
                crate::node::lemma_mapping_view(*cm);
            }
            let ghost cv = entries_view(cm@);
            let mut i: usize = 0;
            let n = cm.len();
            while i < n
                invariant
                    i <= n,
                    cm@.len() == n,
                    entries_view(cm@) == cv,
                    out@.map_values(|s: String| s@) =~= out0 + Seq::new(
                        i as nat,
                        |q: int| path_name(prefix@, cv[q].0),
                    ),
                decreases n - i,
            {
                let k = &cm[i].0;
                let name: String = if strutil::str_eq(prefix, "root") {
                    k.clone()
                } else if strutil::str_eq(k.as_str(), ".") {
                    String::from_str(prefix)
                } else {
                    let mut s = String::from_str(prefix);
                    s.append("::");
                    s.append(k.as_str());
                    proof {
                        reveal_strlit("::");
                    }
                    s
                };
                proof {
                    assert(name@ == path_name(prefix@, cv[i as int].0));
                }
                let ghost prev = out@.map_values(|s: String| s@);
                out.push(name);
                proof {
                    assert(out@.map_values(|s: String| s@) =~= prev.push(
                        path_name(prefix@, cv[i as int].0),
                    ));
                    assert(out0 + Seq::new((i + 1) as nat, |q: int| path_name(prefix@, cv[q].0))
                        =~= (out0 + Seq::new(i as nat, |q: int| path_name(prefix@, cv[q].0))).push(
                        path_name(prefix@, cv[i as int].0),
                    ));
                }
                i = i + 1;
            }
            proof {
                assert(own_paths(sv, prefix@) =~= Seq::new(
                    n as nat,
                    |q: int| path_name(prefix@, cv[q].0),
                ));
            }
        },
        _ => {
            proof {
                assert(own_paths(sv, prefix@) =~= Seq::<Seq<char>>::empty());
                assert(out@.map_values(|s: String| s@) =~= out0 + own_paths(sv, prefix@));
            }
        },
    }
    let ghost mid = out@.map_values(|s: String| s@);
    let mut i: usize = 0;
    let n = scope.len();
    while i < n
        invariant
            i <= n,
            scope@.len() == n,
            entries_view(scope@) == sv,
            out@.map_values(|s: String| s@) + collect_subs(sv, i as int, prefix@, fuel as nat)
                =~= mid + collect_subs(sv, 0, prefix@, fuel as nat),
        decreases n - i,
    {
        let keep = !crate::expand::scope_reserved(scope[i].0.as_str());
        if keep {
            match &scope[i].1 {
                ConfigNode::Mapping(me) => {
                    proof {
                        crate::node::lemma_mapping_view(*me);
                    }
                    let sub_prefix: String = if strutil::str_eq(prefix, "root") {
                        scope[i].0.clone()
                    } else {
                        let mut s = String::from_str(prefix);
                        s.append("::");
                        s.append(scope[i].0.as_str());
                        proof {
                            reveal_strlit("::");
                        }
                        s
                    };
                    collect_paths_exec(me, sub_prefix.as_str(), out, fuel - 1);
                },
                _ => {},
            }
        }
        i = i + 1;
    }
    proof {
        assert(collect_subs(sv, n as int, prefix@, fuel as nat).len() == 0);
        assert(out@.map_values(|s: String| s@) =~= out@.map_values(|s: String| s@) + collect_subs(
            sv,
            n as int,
            prefix@,
            fuel as nat,
        ));
        assert(out@.map_values(|s: String| s@) =~= out0 + collect_paths(
            sv,
            prefix@,
            fuel as nat,
        ));
    }
}

/// Every resolvable dotted command path of the canonical document, in
/// depth-first order; display ordering is the caller's concern.
pub fn list_commands(config: &Entries) -> (r: Vec<String>)
    ensures
        r@.map_values(|s: String| s@) == listed_commands(
            entries_view(config@),
            u64::MAX as nat,
        ),
{
    let mut out: Vec<String> = Vec::new();
    match crate::node::entries_get(config, "commands") {
        Some(ConfigNode::Mapping(root)) => {
            proof {
                crate::node::lemma_mapping_view(*root);
            }
            collect_paths_exec(root, "root", &mut out, u64::MAX);
            proof {
                assert(out@.map_values(|s: String| s@) =~= listed_commands(
                    entries_view(config@),
                    u64::MAX as nat,
                ));
            }
        },
        _ => {
            proof {
                assert(out@.map_values(|s: String| s@) =~= listed_commands(
                    entries_view(config@),
                    u64::MAX as nat,
                ));
            }
        },
    }
    out
}

/// The default command wins: when the nearest enclosing commands map holds
/// a `.` entry, resolution folds the filtered map of the `.` default —
/// never of a sibling named like the last path segment.
pub proof fn lemma_default_command_wins(
    cmd: Seq<char>,
    scope0: CommandScopeV,
    config: Seq<(Seq<char>, NodeV)>,
)
    requires
        map_has(config, "commands"@),
        map_get(config, "commands"@) is Mapping,
        walk_spec(
            strutil::split_on(cmd, ':'),
            0,
            map_get(config, "commands"@)->Mapping_0,
            scope0,
            Seq::empty(),
        ) is Ok,
        ({
            let fin = walk_spec(
                strutil::split_on(cmd, ':'),
                0,
                map_get(config, "commands"@)->Mapping_0,
                scope0,
                Seq::empty(),
            ).unwrap();
            &&& map_has(fin.0, "commands"@)
            &&& map_get(fin.0, "commands"@) is Mapping
            &&& map_has(map_get(fin.0, "commands"@)->Mapping_0, "."@)
        }),
    ensures
        ({
            let fin = walk_spec(
                strutil::split_on(cmd, ':'),
                0,
                map_get(config, "commands"@)->Mapping_0,
                scope0,
                Seq::empty(),
            ).unwrap();
            resolve_spec(cmd, scope0, config) == Ok::<CommandScopeV, ErrorKind>(
                acc_fold(
                    fin.1,
                    filtered_cmds(map_get(fin.0, "commands"@)->Mapping_0, "."@),
                ),
            )
        }),
{
}

} // verus!
