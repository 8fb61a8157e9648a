//! The scope/section expander: turns authoring sugar into canonical form.
//! `$x` keys move into `variables`, a `run` key becomes the scope's default
//! command `commands["."]`, bare string-valued keys become commands, task
//! collections flatten into trimmed task lists, and `in` values classify
//! into absolute paths or deferred `ws:` workspace references.

use crate::errors::{ConfigError, ErrorKind};
use crate::node::{
    entries_view, map_del, map_get, map_has, ConfigNode, Entries, NodeV,
};
use crate::normalize::base_key_of;
use crate::strutil;
use vstd::prelude::*;
use vstd::string::StringExecFns;

verus! {

// ---------------------------------------------------------------------------
// Reserved keys.
// ---------------------------------------------------------------------------

/// The reserved control keys of a scope.
pub open spec fn is_scope_reserved(k: Seq<char>) -> bool {
    ||| k == "in"@
    ||| k == "-in"@
    ||| k == "variables"@
    ||| k == "pre"@
    ||| k == "-pre"@
    ||| k == "post"@
    ||| k == "-post"@
    ||| k == "run"@
    ||| k == "commands"@
    ||| k == "tasks"@
}

pub fn scope_reserved(k: &str) -> (r: bool)
    ensures
        r == is_scope_reserved(k@),
{
    strutil::str_eq(k, "in") || strutil::str_eq(k, "-in") || strutil::str_eq(k, "variables")
        || strutil::str_eq(k, "pre") || strutil::str_eq(k, "-pre") || strutil::str_eq(k, "post")
        || strutil::str_eq(k, "-post") || strutil::str_eq(k, "run") || strutil::str_eq(
        k,
        "commands",
    ) || strutil::str_eq(k, "tasks")
}

// ---------------------------------------------------------------------------
// Shorthand variables: `$x: v` moves into `variables.x`.
// ---------------------------------------------------------------------------

pub open spec fn is_dollar(k: Seq<char>) -> bool {
    k.len() > 0 && k[0] == '$'
}

/// The `$`-stripped names of the shorthand variable keys, in order.
pub open spec fn dollar_names(e: Seq<(Seq<char>, NodeV)>) -> Seq<Seq<char>>
    decreases e.len(),
{
    if e.len() == 0 {
        Seq::empty()
    } else {
        let rest = dollar_names(e.drop_first());
        if is_dollar(e[0].0) {
            seq![e[0].0.drop_first()] + rest
        } else {
            rest
        }
    }
}

/// One shorthand variable moved under the `variables` mapping.
pub open spec fn var_move_step(e: Seq<(Seq<char>, NodeV)>, name: Seq<char>) -> Result<
    Seq<(Seq<char>, NodeV)>,
    ErrorKind,
> {
    let key = seq!['$'] + name;
    if !map_has(e, key) {
        Ok(e)
    } else {
        let v = map_get(e, key);
        let e1 = map_del(e, key);
        if !map_has(e1, "variables"@) || !(map_get(e1, "variables"@) is Mapping) {
            Err(ErrorKind::InvalidStructure)
        } else {
            let vars = map_get(e1, "variables"@)->Mapping_0;
            Ok(
                crate::node::map_set(
                    e1,
                    "variables"@,
                    NodeV::Mapping(crate::node::map_set(vars, name, v)),
                ),
            )
        }
    }
}

pub open spec fn var_move_fold(e: Seq<(Seq<char>, NodeV)>, names: Seq<Seq<char>>) -> Result<
    Seq<(Seq<char>, NodeV)>,
    ErrorKind,
>
    decreases names.len(),
{
    if names.len() == 0 {
        Ok(e)
    } else {
        match var_move_step(e, names[0]) {
            Err(k) => Err(k),
            Ok(e1) => var_move_fold(e1, names.drop_first()),
        }
    }
}

/// The whole pass: make sure `variables` exists, then move every shorthand
/// variable key under it.
pub open spec fn vars_moved(e: Seq<(Seq<char>, NodeV)>, names: Seq<Seq<char>>) -> Result<
    Seq<(Seq<char>, NodeV)>,
    ErrorKind,
> {
    let e1 = if !map_has(e, "variables"@) {
        crate::node::map_set(e, "variables"@, NodeV::Mapping(Seq::empty()))
    } else {
        e
    };
    var_move_fold(e1, names)
}

/// The shorthand variable keys of a scope, `$` stripped, in order.
#[verifier::loop_isolation(false)]
pub fn get_shorthand_variable_keys(scope: &Entries) -> (r: Vec<String>)
    ensures
        r@.map_values(|s: String| s@) == dollar_names(entries_view(scope@)),
{
    let ghost ev = entries_view(scope@);
    let mut out: Vec<String> = Vec::new();
    let mut i: usize = 0;
    proof {
        assert(ev.skip(0) =~= ev);
        assert(out@.map_values(|s: String| s@) + dollar_names(ev) =~= dollar_names(ev));
    }
    while i < scope.len()
        invariant
            i <= scope.len(),
            out@.map_values(|s: String| s@) + dollar_names(ev.skip(i as int)) == dollar_names(ev),
        decreases scope.len() - i,
    {
        let k = &scope[i].0;
        proof {
            assert(ev.skip(i as int)[0] == ev[i as int]);
            assert(ev.skip(i as int).drop_first() =~= ev.skip(i as int + 1));
        }
        if strutil::first_char_is(k.as_str(), '$') {
            let name = strutil::skip_chars(k.as_str(), 1);
            let ghost prev = out@;
            out.push(name);
            proof {
                assert(out@.map_values(|s: String| s@) =~= prev.map_values(|s: String| s@) + seq![
                    ev[i as int].0.drop_first(),
                ]);
                assert(out@.map_values(|s: String| s@) + dollar_names(ev.skip(i as int + 1))
                    =~= prev.map_values(|s: String| s@) + dollar_names(ev.skip(i as int)));
            }
        } else {
            proof {
                assert(!is_dollar(ev[i as int].0));
            }
        }
        i = i + 1;
    }
    proof {
        assert(dollar_names(ev.skip(scope@.len() as int)).len() == 0);
        assert(out@.map_values(|s: String| s@) =~= out@.map_values(|s: String| s@) + dollar_names(
            ev.skip(scope@.len() as int),
        ));
    }
    out
}

/// Move the named shorthand variables under `variables`, creating that
/// mapping when it is absent.
#[verifier::loop_isolation(false)]
pub fn expand_shorthand_variables(
    scope_path: &str,
    scope: &mut Entries,
    shorthand_variable_keys: Vec<String>,
) -> (r: Result<(), ConfigError>)
    ensures
        match r {
            Ok(_) => vars_moved(
                entries_view(old(scope)@),
                shorthand_variable_keys@.map_values(|s: String| s@),
            ) == Ok::<_, ErrorKind>(entries_view(final(scope)@)),
            Err(e) => vars_moved(
                entries_view(old(scope)@),
                shorthand_variable_keys@.map_values(|s: String| s@),
            ) == Err::<Seq<(Seq<char>, NodeV)>, _>(e.kind),
        },
{
    let ghost names = shorthand_variable_keys@.map_values(|s: String| s@);
    if !crate::node::entries_contains(scope, "variables") {
        let fresh: Entries = Vec::new();
        proof {
            crate::node::lemma_mapping_view(fresh);
            assert(entries_view(fresh@) =~= Seq::<(Seq<char>, NodeV)>::empty());
        }
        crate::node::entries_insert(
            scope,
            String::from_str("variables"),
            ConfigNode::Mapping(fresh),
        );
    }
    let ghost e1 = entries_view(scope@);
    let mut i: usize = 0;
    let n = shorthand_variable_keys.len();
    proof {
        assert(names.skip(0) =~= names);
    }
    while i < n
        invariant
            i <= n,
            var_move_fold(entries_view(scope@), names.skip(i as int)) == var_move_fold(e1, names),
        decreases n - i,
    {
        let ghost cur = entries_view(scope@);
        proof {
            assert(names.skip(i as int)[0] == names[i as int]);
            assert(names.skip(i as int).drop_first() =~= names.skip(i as int + 1));
            assert(names[i as int] == shorthand_variable_keys@[i as int]@);
        }
        let name = &shorthand_variable_keys[i];
        let key = strutil::str_concat("$", name.as_str());
        proof {
            reveal_strlit("$");
            assert(key@ =~= seq!['$'] + name@);
        }
        match crate::node::entries_remove(scope, key.as_str()) {
            None => {
                proof {
                    assert(var_move_step(cur, names[i as int]) == Ok::<_, ErrorKind>(cur));
                    assert(entries_view(scope@) == cur);
                }
            },
            Some(v) => {
                let ghost edel = entries_view(scope@);
                let idx = match crate::node::entries_find(scope, "variables") {
                    Some(idx) => idx,
                    None => {
                        proof {
                            crate::node::lemma_key_index(edel, "variables"@);
                            assert(var_move_step(cur, names[i as int]) == Err::<
                                Seq<(Seq<char>, NodeV)>,
                                _,
                            >(ErrorKind::InvalidStructure));
                        }
                        return Err(
                            ConfigError::new(
                                ErrorKind::InvalidStructure,
                                String::from_str(scope_path),
                            ),
                        );
                    },
                };
                proof {
                    crate::node::lemma_key_index(edel, "variables"@);
                    assert(edel[idx as int].0 == "variables"@);
                    assert(map_has(edel, "variables"@) && map_get(edel, "variables"@)
                        == edel[idx as int].1);
                }
                let pair = scope.remove(idx);
                match pair.1 {
                    ConfigNode::Mapping(mut vars) => {
                        proof {
                            crate::node::lemma_mapping_view(vars);
                        }
                        crate::node::entries_insert(&mut vars, name.clone(), v);
                        let ghost varsv = entries_view(vars@);
                        proof {
                            crate::node::lemma_mapping_view(vars);
                        }
                        scope.insert(idx, (pair.0, ConfigNode::Mapping(vars)));
                        proof {
                            assert(entries_view(scope@) =~= crate::node::map_set(
                                edel,
                                "variables"@,
                                NodeV::Mapping(varsv),
                            ));
                            assert(var_move_step(cur, names[i as int]) == Ok::<_, ErrorKind>(
                                entries_view(scope@),
                            ));
                        }
                    },
                    _ => {
                        proof {
                            assert(var_move_step(cur, names[i as int]) == Err::<
                                Seq<(Seq<char>, NodeV)>,
                                _,
                            >(ErrorKind::InvalidStructure));
                        }
                        return Err(
                            ConfigError::new(
                                ErrorKind::InvalidStructure,
                                String::from_str(scope_path),
                            ),
                        );
                    },
                }
            },
        }
        i = i + 1;
    }
    proof {
        assert(names.skip(n as int).len() == 0);
    }
    Ok(())
}

/// The `$`-move pass as the expander runs it: only applied when shorthand
/// variable keys are present at all.
pub open spec fn shorthand_pass(e: Seq<(Seq<char>, NodeV)>) -> Result<
    Seq<(Seq<char>, NodeV)>,
    ErrorKind,
> {
    if dollar_names(e).len() == 0 {
        Ok(e)
    } else {
        vars_moved(e, dollar_names(e))
    }
}

// ---------------------------------------------------------------------------
// Variables: `$x` keys renamed, every value wrapped as `{value: v}`.
// ---------------------------------------------------------------------------

/// One `$name` key renamed to `name` inside a variables mapping.
pub open spec fn rename_step(e: Seq<(Seq<char>, NodeV)>, name: Seq<char>) -> Seq<
    (Seq<char>, NodeV),
> {
    let key = seq!['$'] + name;
    if !map_has(e, key) {
        e
    } else {
        crate::node::map_set(map_del(e, key), name, map_get(e, key))
    }
}

pub open spec fn rename_fold(e: Seq<(Seq<char>, NodeV)>, names: Seq<Seq<char>>) -> Seq<
    (Seq<char>, NodeV),
>
    decreases names.len(),
{
    if names.len() == 0 {
        e
    } else {
        rename_fold(rename_step(e, names[0]), names.drop_first())
    }
}

/// Every value wrapped in its canonical variable shape.
pub open spec fn wrap_values(e: Seq<(Seq<char>, NodeV)>) -> Seq<(Seq<char>, NodeV)> {
    Seq::new(e.len(), |i: int| (e[i].0, NodeV::Mapping(seq![("value"@, e[i].1)])))
}

/// A variables mapping in canonical form: shorthand names renamed, values
/// wrapped.
pub open spec fn vars_expanded(e: Seq<(Seq<char>, NodeV)>) -> Seq<(Seq<char>, NodeV)> {
    wrap_values(rename_fold(e, dollar_names(e)))
}

/// Canonicalize a variables mapping. Never fails; the `Result` mirrors the
/// other passes.
#[verifier::loop_isolation(false)]
pub fn expand_variables(path: &str, variables: &mut Entries) -> (r: Result<(), ConfigError>)
    ensures
        r is Ok,
        entries_view(final(variables)@) == vars_expanded(entries_view(old(variables)@)),
{
    let names = get_shorthand_variable_keys(variables);
    let ghost namesv = names@.map_values(|s: String| s@);
    let ghost e0 = entries_view(variables@);
    let mut i: usize = 0;
    let n = names.len();
    proof {
        assert(namesv.skip(0) =~= namesv);
    }
    while i < n
        invariant
            i <= n,
            rename_fold(entries_view(variables@), namesv.skip(i as int)) == rename_fold(
                e0,
                namesv,
            ),
        decreases n - i,
    {
        let ghost cur = entries_view(variables@);
        proof {
            assert(namesv.skip(i as int)[0] == namesv[i as int]);
            assert(namesv.skip(i as int).drop_first() =~= namesv.skip(i as int + 1));
            assert(namesv[i as int] == names@[i as int]@);
        }
        let name = &names[i];
        let key = strutil::str_concat("$", name.as_str());
        proof {
            reveal_strlit("$");
            assert(key@ =~= seq!['$'] + name@);
        }
        match crate::node::entries_remove(variables, key.as_str()) {
            None => {
                proof {
                    assert(rename_step(cur, namesv[i as int]) == cur);
                }
            },
            Some(v) => {
                crate::node::entries_insert(variables, name.clone(), v);
                proof {
                    assert(entries_view(variables@) == rename_step(cur, namesv[i as int]));
                }
            },
        }
        i = i + 1;
    }
    proof {
        assert(namesv.skip(n as int).len() == 0);
    }
    let ghost renamed = entries_view(variables@);
    let mut out: Entries = Vec::new();
    let mut k: usize = 0;
    let total = variables.len();
    while k < total
        invariant
            k <= total,
            variables@.len() == total,
            entries_view(variables@) == renamed,
            out@.len() == k as int,
            forall|j: int|
                0 <= j < k as int ==> (#[trigger] entries_view(out@)[j]) == wrap_values(renamed)[j],
        decreases total - k,
    {
        let key = variables[k].0.clone();
        let v = variables[k].1.deep_clone();
        let mut one: Entries = Vec::new();
        one.push((String::from_str("value"), v));
        proof {
            crate::node::lemma_mapping_view(one);
            assert(entries_view(one@) =~= seq![("value"@, renamed[k as int].1)]);
        }
        let ghost outprev = entries_view(out@);
        out.push((key, ConfigNode::Mapping(one)));
        proof {
            assert(entries_view(out@)[k as int] == wrap_values(renamed)[k as int]);
            assert forall|j: int| 0 <= j < k as int implies #[trigger] entries_view(out@)[j]
                == outprev[j] by {
                assert(out@[j] == out@.drop_last()[j]);
            }
        }
        k = k + 1;
    }
    *variables = out;
    proof {
        assert(entries_view(variables@) =~= wrap_values(renamed));
    }
    Ok(())
}

// ---------------------------------------------------------------------------
// The `run` key: the scope's default command.
// ---------------------------------------------------------------------------

/// Some key's base (without implicit stripping) is `key`.
pub open spec fn has_base_key(e: Seq<(Seq<char>, NodeV)>, key: Seq<char>) -> bool {
    exists|i: int| 0 <= i < e.len() && base_key_of((#[trigger] e[i]).0, false) == key
}

/// Whether any key of `scope` has `key` as its base.
#[verifier::loop_isolation(false)]
pub fn has_key(scope: &Entries, key: &str) -> (r: bool)
    ensures
        r == has_base_key(entries_view(scope@), key@),
{
    let ghost ev = entries_view(scope@);
    let mut i: usize = 0;
    while i < scope.len()
        invariant
            i <= scope.len(),
            forall|j: int|
                0 <= j < i as int ==> base_key_of((#[trigger] ev[j]).0, false) != key@,
        decreases scope.len() - i,
    {
        let b = crate::desugar::get_base_key(scope[i].0.as_str(), false);
        if strutil::str_eq(b, key) {
            proof {
                assert(base_key_of(ev[i as int].0, false) == key@);
            }
            return true;
        }
        i = i + 1;
    }
    false
}

/// The `run` entry moved to `commands["."]` (the key's text has every `run`
/// replaced by `.`, which keeps any shorthand suffix).
pub open spec fn run_moved(e: Seq<(Seq<char>, NodeV)>, run_key: Seq<char>) -> Result<
    Seq<(Seq<char>, NodeV)>,
    ErrorKind,
> {
    if !map_has(e, run_key) {
        Err(ErrorKind::InvalidStructure)
    } else {
        let v = map_get(e, run_key);
        let e1 = map_del(e, run_key);
        let e2 = if !map_has(e1, "commands"@) {
            crate::node::map_set(e1, "commands"@, NodeV::Mapping(Seq::empty()))
        } else {
            e1
        };
        if !(map_get(e2, "commands"@) is Mapping) {
            Err(ErrorKind::InvalidStructure)
        } else {
            let cmds = map_get(e2, "commands"@)->Mapping_0;
            let newkey = strutil::replace_sub(run_key, "run"@, "."@);
            Ok(
                crate::node::map_set(
                    e2,
                    "commands"@,
                    NodeV::Mapping(crate::node::map_set(cmds, newkey, v)),
                ),
            )
        }
    }
}

/// Move the scope's `run` entry into `commands["."]`, creating `commands`
/// when it is absent.
pub fn expand_run(scope_path: &str, scope: &mut Entries, run_key: &str) -> (r: Result<
    (),
    ConfigError,
>)
    ensures
        match r {
            Ok(_) => run_moved(entries_view(old(scope)@), run_key@) == Ok::<_, ErrorKind>(
                entries_view(final(scope)@),
            ),
            Err(e) => run_moved(entries_view(old(scope)@), run_key@) == Err::<
                Seq<(Seq<char>, NodeV)>,
                _,
            >(e.kind),
        },
{
    let ghost e0 = entries_view(old(scope)@);
    let v = match crate::node::entries_remove(scope, run_key) {
        Some(v) => v,
        None => {
            return Err(ConfigError::new(ErrorKind::InvalidStructure, String::from_str(scope_path)));
        },
    };
    if !crate::node::entries_contains(scope, "commands") {
        let fresh: Entries = Vec::new();
        proof {
            crate::node::lemma_mapping_view(fresh);
            assert(entries_view(fresh@) =~= Seq::<(Seq<char>, NodeV)>::empty());
        }
        let ghost ea = entries_view(scope@);
        crate::node::entries_insert(scope, String::from_str("commands"), ConfigNode::Mapping(fresh));
        proof {
            crate::node::lemma_map_set_has(ea, "commands"@, NodeV::Mapping(Seq::empty()));
        }
    }
    let ghost e2 = entries_view(scope@);
    let idx = match crate::node::entries_find(scope, "commands") {
        Some(idx) => idx,
        None => {
            proof {
                assert(false);
            }
            return Err(ConfigError::new(ErrorKind::InvalidStructure, String::from_str(scope_path)));
        },
    };
    proof {
        crate::node::lemma_key_index(e2, "commands"@);
        assert(e2[idx as int].0 == "commands"@);
    }
    let pair = scope.remove(idx);
    match pair.1 {
        ConfigNode::Mapping(mut cmds) => {
            proof {
                crate::node::lemma_mapping_view(cmds);
            }
            proof {
                reveal_strlit("run");
            }
            let newkey = strutil::replace_substr(run_key, "run", ".");
            crate::node::entries_insert(&mut cmds, newkey, v);
            let ghost cmdsv = entries_view(cmds@);
            proof {
                crate::node::lemma_mapping_view(cmds);
            }
            scope.insert(idx, (pair.0, ConfigNode::Mapping(cmds)));
            proof {
                assert(entries_view(scope@) =~= crate::node::map_set(
                    e2,
                    "commands"@,
                    NodeV::Mapping(cmdsv),
                ));
            }
            Ok(())
        },
        other => {
            Err(ConfigError::new(ErrorKind::InvalidStructure, String::from_str(scope_path)))
        },
    }
}

// ---------------------------------------------------------------------------
// Implicit commands: bare string-valued keys move under `commands`.
// ---------------------------------------------------------------------------

/// The keys promoted into `commands`: not reserved (by base key), with a
/// string value.
pub open spec fn implicit_keys(e: Seq<(Seq<char>, NodeV)>) -> Seq<Seq<char>>
    decreases e.len(),
{
    if e.len() == 0 {
        Seq::empty()
    } else {
        let rest = implicit_keys(e.drop_first());
        if !is_scope_reserved(base_key_of(e[0].0, true)) && e[0].1 is Str {
            seq![e[0].0] + rest
        } else {
            rest
        }
    }
}

/// One implicit command key moved under the `commands` mapping.
pub open spec fn imp_move_step(e: Seq<(Seq<char>, NodeV)>, key: Seq<char>) -> Result<
    Seq<(Seq<char>, NodeV)>,
    ErrorKind,
> {
    if !map_has(e, key) {
        Ok(e)
    } else {
        let v = map_get(e, key);
        let e1 = map_del(e, key);
        if !map_has(e1, "commands"@) || !(map_get(e1, "commands"@) is Mapping) {
            Err(ErrorKind::InvalidStructure)
        } else {
            let cmds = map_get(e1, "commands"@)->Mapping_0;
            Ok(
                crate::node::map_set(
                    e1,
                    "commands"@,
                    NodeV::Mapping(crate::node::map_set(cmds, key, v)),
                ),
            )
        }
    }
}

pub open spec fn imp_move_fold(e: Seq<(Seq<char>, NodeV)>, keys: Seq<Seq<char>>) -> Result<
    Seq<(Seq<char>, NodeV)>,
    ErrorKind,
>
    decreases keys.len(),
{
    if keys.len() == 0 {
        Ok(e)
    } else {
        match imp_move_step(e, keys[0]) {
            Err(k) => Err(k),
            Ok(e1) => imp_move_fold(e1, keys.drop_first()),
        }
    }
}

/// The whole pass: make sure `commands` exists, then move every implicit
/// command key under it.
pub open spec fn implicit_moved(e: Seq<(Seq<char>, NodeV)>, keys: Seq<Seq<char>>) -> Result<
    Seq<(Seq<char>, NodeV)>,
    ErrorKind,
> {
    let e1 = if !map_has(e, "commands"@) {
        crate::node::map_set(e, "commands"@, NodeV::Mapping(Seq::empty()))
    } else {
        e
    };
    imp_move_fold(e1, keys)
}

/// The keys of a scope that stand for implicit commands, in order.
#[verifier::loop_isolation(false)]
pub fn get_implicit_command_keys(scope: &Entries) -> (r: Vec<String>)
    ensures
        r@.map_values(|s: String| s@) == implicit_keys(entries_view(scope@)),
{
    let ghost ev = entries_view(scope@);
    let mut out: Vec<String> = Vec::new();
    let mut i: usize = 0;
    proof {
        assert(ev.skip(0) =~= ev);
        assert(out@.map_values(|s: String| s@) + implicit_keys(ev) =~= implicit_keys(ev));
    }
    while i < scope.len()
        invariant
            i <= scope.len(),
            out@.map_values(|s: String| s@) + implicit_keys(ev.skip(i as int)) == implicit_keys(
                ev,
            ),
        decreases scope.len() - i,
    {
        proof {
            assert(ev.skip(i as int)[0] == ev[i as int]);
            assert(ev.skip(i as int).drop_first() =~= ev.skip(i as int + 1));
        }
        let b = crate::desugar::get_base_key(scope[i].0.as_str(), true);
        if !scope_reserved(b) && scope[i].1.is_string() {
            let ghost prev = out@;
            out.push(scope[i].0.clone());
            proof {
                assert(out@.map_values(|s: String| s@) =~= prev.map_values(|s: String| s@) + seq![
                    ev[i as int].0,
                ]);
                assert(out@.map_values(|s: String| s@) + implicit_keys(ev.skip(i as int + 1))
                    =~= prev.map_values(|s: String| s@) + implicit_keys(ev.skip(i as int)));
            }
        }
        i = i + 1;
    }
    proof {
        assert(implicit_keys(ev.skip(scope@.len() as int)).len() == 0);
        assert(out@.map_values(|s: String| s@) =~= out@.map_values(|s: String| s@) + implicit_keys(
            ev.skip(scope@.len() as int),
        ));
    }
    out
}

/// Move the named implicit command keys under `commands`, creating that
/// mapping when it is absent.
#[verifier::loop_isolation(false)]
pub fn expand_implicit_commands(
    scope_path: &str,
    scope: &mut Entries,
    implicit_command_keys: Vec<String>,
) -> (r: Result<(), ConfigError>)
    ensures
        match r {
            Ok(_) => implicit_moved(
                entries_view(old(scope)@),
                implicit_command_keys@.map_values(|s: String| s@),
            ) == Ok::<_, ErrorKind>(entries_view(final(scope)@)),
            Err(e) => implicit_moved(
                entries_view(old(scope)@),
                implicit_command_keys@.map_values(|s: String| s@),
            ) == Err::<Seq<(Seq<char>, NodeV)>, _>(e.kind),
        },
{
    let ghost keys = implicit_command_keys@.map_values(|s: String| s@);
    if !crate::node::entries_contains(scope, "commands") {
        let fresh: Entries = Vec::new();
        proof {
            crate::node::lemma_mapping_view(fresh);
            assert(entries_view(fresh@) =~= Seq::<(Seq<char>, NodeV)>::empty());
        }
        crate::node::entries_insert(scope, String::from_str("commands"), ConfigNode::Mapping(fresh));
    }
    let ghost e1 = entries_view(scope@);
    let mut i: usize = 0;
    let n = implicit_command_keys.len();
    proof {
        assert(keys.skip(0) =~= keys);
    }
    while i < n
        invariant
            i <= n,
            imp_move_fold(entries_view(scope@), keys.skip(i as int)) == imp_move_fold(e1, keys),
        decreases n - i,
    {
        let ghost cur = entries_view(scope@);
        proof {
            assert(keys.skip(i as int)[0] == keys[i as int]);
            assert(keys.skip(i as int).drop_first() =~= keys.skip(i as int + 1));
            assert(keys[i as int] == implicit_command_keys@[i as int]@);
        }
        let key = &implicit_command_keys[i];
        match crate::node::entries_remove(scope, key.as_str()) {
            None => {
                proof {
                    assert(imp_move_step(cur, keys[i as int]) == Ok::<_, ErrorKind>(cur));
                }
            },
            Some(v) => {
                let ghost edel = entries_view(scope@);
                let idx = match crate::node::entries_find(scope, "commands") {
                    Some(idx) => idx,
                    None => {
                        proof {
                            crate::node::lemma_key_index(edel, "commands"@);
                        }
                        return Err(
                            ConfigError::new(
                                ErrorKind::InvalidStructure,
                                String::from_str(scope_path),
                            ),
                        );
                    },
                };
                proof {
                    crate::node::lemma_key_index(edel, "commands"@);
                    assert(edel[idx as int].0 == "commands"@);
                }
                let pair = scope.remove(idx);
                match pair.1 {
                    ConfigNode::Mapping(mut cmds) => {
                        proof {
                            crate::node::lemma_mapping_view(cmds);
                        }
                        crate::node::entries_insert(&mut cmds, key.clone(), v);
                        let ghost cmdsv = entries_view(cmds@);
                        proof {
                            crate::node::lemma_mapping_view(cmds);
                        }
                        scope.insert(idx, (pair.0, ConfigNode::Mapping(cmds)));
                        proof {
                            assert(entries_view(scope@) =~= crate::node::map_set(
                                edel,
                                "commands"@,
                                NodeV::Mapping(cmdsv),
                            ));
                            assert(imp_move_step(cur, keys[i as int]) == Ok::<_, ErrorKind>(
                                entries_view(scope@),
                            ));
                        }
                    },
                    _ => {
                        proof {
                            assert(imp_move_step(cur, keys[i as int]) == Err::<
                                Seq<(Seq<char>, NodeV)>,
                                _,
                            >(ErrorKind::InvalidStructure));
                        }
                        return Err(
                            ConfigError::new(
                                ErrorKind::InvalidStructure,
                                String::from_str(scope_path),
                            ),
                        );
                    },
                }
            },
        }
        i = i + 1;
    }
    proof {
        assert(keys.skip(n as int).len() == 0);
    }
    Ok(())
}

// ---------------------------------------------------------------------------
// Task collections.
// ---------------------------------------------------------------------------

/// One raw task string split on `&&` into trimmed tasks.
pub open spec fn split_one_task(v: NodeV) -> Seq<NodeV> {
    strutil::split_sub(v->Str_0, "&&"@).map_values(|p: Seq<char>| NodeV::Str(strutil::trim_of(p)))
}

/// All raw task strings split and flattened, in order.
pub open spec fn split_tasks(items: Seq<NodeV>) -> Seq<NodeV>
    decreases items.len(),
{
    if items.len() == 0 {
        Seq::empty()
    } else {
        split_one_task(items[0]) + split_tasks(items.drop_first())
    }
}

/// A task collection in canonical form: a non-mapping node is wrapped as
/// `{tasks: node}`; `tasks` must be a string or a sequence of strings, and
/// ends up a flat sequence of trimmed task strings.
pub open spec fn tc_expanded(v: NodeV) -> Result<NodeV, ErrorKind> {
    let m = if v is Mapping {
        v->Mapping_0
    } else {
        seq![("tasks"@, v)]
    };
    if !map_has(m, "tasks"@) {
        Err(ErrorKind::TaskFormat)
    } else {
        let t0 = map_get(m, "tasks"@);
        if t0 is Str {
            Ok(
                NodeV::Mapping(
                    crate::node::map_set(m, "tasks"@, NodeV::Sequence(split_tasks(seq![t0]))),
                ),
            )
        } else if !(t0 is Sequence) {
            Err(ErrorKind::TaskFormat)
        } else if !crate::normalize::all_str(t0->Sequence_0) {
            Err(ErrorKind::TaskFormat)
        } else {
            Ok(
                NodeV::Mapping(
                    crate::node::map_set(
                        m,
                        "tasks"@,
                        NodeV::Sequence(split_tasks(t0->Sequence_0)),
                    ),
                ),
            )
        }
    }
}

/// Split every raw task string of `items` on `&&` and trim the pieces.
#[verifier::loop_isolation(false)]
fn split_task_nodes(items: &Vec<ConfigNode>) -> (r: Result<Vec<ConfigNode>, ConfigError>)
    ensures
        match r {
            Ok(out) => crate::normalize::all_str(crate::node::nodes_view(items@))
                && crate::node::nodes_view(out@) == split_tasks(crate::node::nodes_view(items@)),
            Err(e) => e.kind == ErrorKind::TaskFormat && !crate::normalize::all_str(
                crate::node::nodes_view(items@),
            ),
        },
{
    let ghost iv = crate::node::nodes_view(items@);
    let mut out: Vec<ConfigNode> = Vec::new();
    let mut i: usize = 0;
    proof {
        assert(iv.skip(0) =~= iv);
        assert(crate::node::nodes_view(out@) + split_tasks(iv) =~= split_tasks(iv));
    }
    while i < items.len()
        invariant
            i <= items.len(),
            forall|j: int| 0 <= j < i as int ==> (#[trigger] iv[j]) is Str,
            crate::node::nodes_view(out@) + split_tasks(iv.skip(i as int)) == split_tasks(iv),
        decreases items.len() - i,
    {
        proof {
            assert(iv.skip(i as int)[0] == iv[i as int]);
            assert(iv.skip(i as int).drop_first() =~= iv.skip(i as int + 1));
        }
        let s = match items[i].as_str() {
            Some(s) => s,
            None => {
                proof {
                    assert(!(iv[i as int] is Str));
                }
                return Err(
                    ConfigError::new(ErrorKind::TaskFormat, String::from_str("tasks")),
                );
            },
        };
        proof {
            reveal_strlit("&&");
        }
        let pieces = strutil::split_substr(s.as_str(), "&&");
        let ghost piecesv = pieces@.map_values(|p: String| p@);
        let ghost mid = crate::node::nodes_view(out@);
        let mut q: usize = 0;
        while q < pieces.len()
            invariant
                q <= pieces.len(),
                crate::node::nodes_view(out@) =~= mid + split_one_task(iv[i as int]).take(
                    q as int,
                ),
            decreases pieces.len() - q,
        {
            let t = strutil::trim_str(pieces[q].as_str());
            let ghost before = crate::node::nodes_view(out@);
            out.push(ConfigNode::Str(t));
            proof {
                assert(split_one_task(iv[i as int])[q as int] == NodeV::Str(
                    strutil::trim_of(piecesv[q as int]),
                ));
                assert(crate::node::nodes_view(out@) =~= before.push(
                    split_one_task(iv[i as int])[q as int],
                ));
                assert(mid + split_one_task(iv[i as int]).take(q as int + 1) =~= (mid
                    + split_one_task(iv[i as int]).take(q as int)).push(
                    split_one_task(iv[i as int])[q as int],
                ));
            }
            q = q + 1;
        }
        proof {
            assert(split_one_task(iv[i as int]).take(pieces@.len() as int) =~= split_one_task(
                iv[i as int],
            ));
            assert(crate::node::nodes_view(out@) + split_tasks(iv.skip(i as int + 1)) =~= mid
                + split_tasks(iv.skip(i as int)));
        }
        i = i + 1;
    }
    proof {
        assert(split_tasks(iv.skip(items@.len() as int)).len() == 0);
        assert(crate::node::nodes_view(out@) =~= crate::node::nodes_view(out@) + split_tasks(
            iv.skip(items@.len() as int),
        ));
        assert(crate::normalize::all_str(iv));
    }
    Ok(out)
}

/// Canonicalize one task collection.
pub fn expand_task_collection(path: &str, node: ConfigNode) -> (r: Result<
    ConfigNode,
    ConfigError,
>)
    ensures
        match r {
            Ok(out) => tc_expanded(node@) == Ok::<_, ErrorKind>(out@),
            Err(e) => tc_expanded(node@) == Err::<NodeV, _>(e.kind),
        },
{
    let ghost v = node@;
    let mut m: Entries = match node {
        ConfigNode::Mapping(me) => {
            proof {
                crate::node::lemma_mapping_view(me);
            }
            me
        },
        other => {
            let mut w: Entries = Vec::new();
            w.push((String::from_str("tasks"), other));
            proof {
                crate::node::lemma_mapping_view(w);
                assert(entries_view(w@) =~= seq![("tasks"@, v)]);
            }
            w
        },
    };
    let ghost mv = entries_view(m@);
    let idx = match crate::node::entries_find(&m, "tasks") {
        Some(idx) => idx,
        None => {
            proof {
                crate::node::lemma_key_index(mv, "tasks"@);
            }
            return Err(ConfigError::new(ErrorKind::TaskFormat, String::from_str(path)));
        },
    };
    proof {
        crate::node::lemma_key_index(mv, "tasks"@);
        assert(mv[idx as int].0 == "tasks"@);
    }
    let pair = m.remove(idx);
    let ghost t0 = map_get(mv, "tasks"@);
    let items: Vec<ConfigNode> = match pair.1 {
        ConfigNode::Str(s) => {
            let mut one: Vec<ConfigNode> = Vec::new();
            one.push(ConfigNode::Str(s));
            proof {
                assert(crate::node::nodes_view(one@) =~= seq![t0]);
            }
            one
        },
        ConfigNode::Sequence(its) => {
            proof {
                crate::node::lemma_sequence_view(its);
                assert(crate::node::nodes_view(its@) =~= t0->Sequence_0);
            }
            its
        },
        other => {
            return Err(ConfigError::new(ErrorKind::TaskFormat, String::from_str(path)));
        },
    };
    let ghost itemsv = crate::node::nodes_view(items@);
    let flat = match split_task_nodes(&items) {
        Ok(flat) => flat,
        Err(e) => {
            return Err(ConfigError::new(e.kind, String::from_str(path)));
        },
    };
    let seqnode = ConfigNode::Sequence(flat);
    proof {
        crate::node::lemma_sequence_view(seqnode->Sequence_0);
        assert(seqnode@ == NodeV::Sequence(split_tasks(itemsv)));
    }
    m.insert(idx, (pair.0, seqnode));
    let out = ConfigNode::Mapping(m);
    proof {
        crate::node::lemma_mapping_view(out->Mapping_0);
        assert(entries_view(out->Mapping_0@) =~= crate::node::map_set(
            mv,
            "tasks"@,
            NodeV::Sequence(split_tasks(itemsv)),
        ));
    }
    Ok(out)
}

// ---------------------------------------------------------------------------
// The `commands` mapping: every entry is a task collection.
// ---------------------------------------------------------------------------

pub open spec fn commands_ok(e: Seq<(Seq<char>, NodeV)>) -> bool {
    forall|i: int| 0 <= i < e.len() ==> tc_expanded((#[trigger] e[i]).1) is Ok
}

/// Every command entry's task collection canonicalized.
pub open spec fn commands_expanded(e: Seq<(Seq<char>, NodeV)>) -> Result<
    Seq<(Seq<char>, NodeV)>,
    ErrorKind,
> {
    if commands_ok(e) {
        Ok(Seq::new(e.len(), |i: int| (e[i].0, tc_expanded(e[i].1).unwrap())))
    } else {
        Err(ErrorKind::TaskFormat)
    }
}

/// Canonicalize every entry of a commands mapping.
#[verifier::loop_isolation(false)]
pub fn expand_commands(path: &str, commands: &mut Entries) -> (r: Result<(), ConfigError>)
    ensures
        match r {
            Ok(_) => commands_expanded(entries_view(old(commands)@)) == Ok::<_, ErrorKind>(
                entries_view(final(commands)@),
            ),
            Err(e) => commands_expanded(entries_view(old(commands)@)) == Err::<
                Seq<(Seq<char>, NodeV)>,
                _,
            >(e.kind),
        },
{
    let ghost ev = entries_view(commands@);
    let mut out: Entries = Vec::new();
    let mut i: usize = 0;
    let n = commands.len();
    while i < n
        invariant
            i <= n,
            commands@.len() == n,
            entries_view(commands@) == ev,
            out@.len() == i as int,
            forall|j: int| 0 <= j < i as int ==> tc_expanded((#[trigger] ev[j]).1) is Ok,
            forall|j: int|
                0 <= j < i as int ==> (#[trigger] entries_view(out@)[j]) == (
                    ev[j].0,
                    tc_expanded(ev[j].1).unwrap(),
                ),
        decreases n - i,
    {
        let v = commands[i].1.deep_clone();
        match expand_task_collection(path, v) {
            Ok(nv) => {
                let ghost prev = entries_view(out@);
                out.push((commands[i].0.clone(), nv));
                proof {
                    assert(entries_view(out@)[i as int] == (ev[i as int].0, tc_expanded(
                        ev[i as int].1,
                    ).unwrap()));
                    assert forall|j: int| 0 <= j < i as int implies #[trigger] entries_view(
                        out@,
                    )[j] == prev[j] by {
                        assert(out@[j] == out@.drop_last()[j]);
                    }
                }
            },
            Err(e) => {
                proof {
                    assert(!commands_ok(ev));
                }
                return Err(e);
            },
        }
        i = i + 1;
    }
    *commands = out;
    proof {
        assert(commands_ok(ev));
        assert(entries_view(commands@) =~= commands_expanded(ev).unwrap());
    }
    Ok(())
}

// ---------------------------------------------------------------------------
// The `state` section: only `variables` may stand in it.
// ---------------------------------------------------------------------------

/// The dispatch over a state section's entries.
pub open spec fn state_fold(e: Seq<(Seq<char>, NodeV)>) -> Result<
    Seq<(Seq<char>, NodeV)>,
    ErrorKind,
>
    decreases e.len(),
{
    if e.len() == 0 {
        Ok(Seq::empty())
    } else {
        let k = e[0].0;
        let v = e[0].1;
        if base_key_of(k, true) == "variables"@ {
            if !(v is Mapping) {
                Err(ErrorKind::InvalidStructure)
            } else {
                match state_fold(e.drop_first()) {
                    Err(x) => Err(x),
                    Ok(rest) => Ok(
                        seq![(k, NodeV::Mapping(vars_expanded(v->Mapping_0)))] + rest,
                    ),
                }
            }
        } else {
            Err(ErrorKind::UnknownKey)
        }
    }
}

/// A state section in canonical form: shorthand variables moved, then every
/// entry dispatched.
pub open spec fn state_expanded(e: Seq<(Seq<char>, NodeV)>) -> Result<
    Seq<(Seq<char>, NodeV)>,
    ErrorKind,
> {
    match shorthand_pass(e) {
        Err(k) => Err(k),
        Ok(m1) => state_fold(m1),
    }
}

#[verifier::loop_isolation(false)]
fn expand_state_entries(path: &str, src: &Entries, i: usize) -> (r: Result<Entries, ConfigError>)
    requires
        i <= src.len(),
    ensures
        match r {
            Ok(out) => state_fold(entries_view(src@).skip(i as int)) == Ok::<_, ErrorKind>(
                entries_view(out@),
            ),
            Err(e) => state_fold(entries_view(src@).skip(i as int)) == Err::<
                Seq<(Seq<char>, NodeV)>,
                _,
            >(e.kind),
        },
    decreases src.len() - i,
{
    let ghost ev = entries_view(src@);
    if i >= src.len() {
        let out: Entries = Vec::new();
        proof {
            assert(ev.skip(i as int).len() == 0);
            assert(entries_view(out@) =~= Seq::<(Seq<char>, NodeV)>::empty());
        }
        return Ok(out);
    }
    proof {
        assert(ev.skip(i as int)[0] == ev[i as int]);
        assert(ev.skip(i as int).drop_first() =~= ev.skip(i as int + 1));
    }
    let b = crate::desugar::get_base_key(src[i].0.as_str(), true);
    if strutil::str_eq(b, "variables") {
        match &src[i].1 {
            ConfigNode::Mapping(me) => {
                proof {
                    crate::node::lemma_mapping_view(*me);
                }
                let mut vars = crate::node::entries_clone(me);
                match expand_variables(path, &mut vars) {
                    Ok(_) => {},
                    Err(e) => {
                        proof {
                            assert(false);
                        }
                        return Err(e);
                    },
                }
                let mut rest = match expand_state_entries(path, src, i + 1) {
                    Ok(rest) => rest,
                    Err(e) => {
                        return Err(e);
                    },
                };
                let vnode = ConfigNode::Mapping(vars);
                proof {
                    crate::node::lemma_mapping_view(vnode->Mapping_0);
                }
                let ghost restv = entries_view(rest@);
                rest.insert(0, (src[i].0.clone(), vnode));
                proof {
                    assert(entries_view(rest@) =~= seq![
                        (ev[i as int].0, NodeV::Mapping(vars_expanded(ev[i as int].1->Mapping_0))),
                    ] + restv);
                }
                Ok(rest)
            },
            _ => Err(ConfigError::new(ErrorKind::InvalidStructure, String::from_str(path))),
        }
    } else {
        Err(ConfigError::new(ErrorKind::UnknownKey, String::from_str(path)))
    }
}

/// Canonicalize the `state` section.
pub fn expand_state(path: &str, state: &mut Entries) -> (r: Result<(), ConfigError>)
    ensures
        match r {
            Ok(_) => state_expanded(entries_view(old(state)@)) == Ok::<_, ErrorKind>(
                entries_view(final(state)@),
            ),
            Err(e) => state_expanded(entries_view(old(state)@)) == Err::<
                Seq<(Seq<char>, NodeV)>,
                _,
            >(e.kind),
        },
{
    let keys = get_shorthand_variable_keys(state);
    if keys.len() > 0 {
        match expand_shorthand_variables(path, state, keys) {
            Ok(_) => {},
            Err(e) => {
                return Err(e);
            },
        }
    }
    proof {
        assert(entries_view(state@).skip(0) =~= entries_view(state@));
    }
    let out = match expand_state_entries(path, state, 0) {
        Ok(out) => out,
        Err(e) => {
            return Err(e);
        },
    };
    *state = out;
    Ok(())
}

// ---------------------------------------------------------------------------
// `in` values and workspaces: classified against the filesystem.
// ---------------------------------------------------------------------------

/// How an `in` value may expand: a `ws:` reference stays; a value that is no
/// path becomes a deferred `ws:` reference; a path either canonicalizes to
/// some directory or fails on the filesystem.
pub open spec fn in_value_rel(v: NodeV, r: Result<NodeV, ErrorKind>) -> bool {
    if !(v is Str) {
        r == Err::<NodeV, ErrorKind>(ErrorKind::InvalidStructure)
    } else if strutil::has_prefix(v->Str_0, "ws:"@) {
        r == Ok::<NodeV, ErrorKind>(v)
    } else if !crate::pathutil::looks_like_path_of(v->Str_0) {
        r == Ok::<NodeV, ErrorKind>(NodeV::Str("ws:"@ + v->Str_0))
    } else {
        match r {
            Ok(n) => n is Str,
            Err(k) => k == ErrorKind::NoHomeDir || k == ErrorKind::PathNotFound || k
                == ErrorKind::NotADirectory,
        }
    }
}

/// Expand one `in` value: keep `ws:` references, canonicalize paths, defer
/// bare names as `ws:<name>`.
pub fn expand_potential_path(key_path: &str, config_dir: &str, value: ConfigNode) -> (r: Result<
    ConfigNode,
    ConfigError,
>)
    ensures
        match r {
            Ok(out) => in_value_rel(value@, Ok(out@)),
            Err(e) => in_value_rel(value@, Err(e.kind)),
        },
{
    let ghost v = value@;
    let s = match value {
        ConfigNode::Str(s) => s,
        _ => {
            return Err(ConfigError::new(ErrorKind::InvalidStructure, String::from_str(key_path)));
        },
    };
    if strutil::starts_with(s.as_str(), "ws:") {
        return Ok(ConfigNode::Str(s));
    }
    match crate::pathutil::try_get_path(s.as_str(), Some(config_dir)) {
        Ok(None) => {
            let deferred = strutil::str_concat("ws:", s.as_str());
            Ok(ConfigNode::Str(deferred))
        },
        Ok(Some(p)) => {
            let mut node = ConfigNode::Null;
            match crate::pathutil::process_path(&mut node, p) {
                Ok(_) => Ok(node),
                Err(e) => Err(ConfigError::new(e.kind, String::from_str(key_path))),
            }
        },
        Err(e) => Err(ConfigError::new(e.kind, String::from_str(key_path))),
    }
}

/// A workspace value can canonicalize: it is a string that looks like a path.
pub open spec fn ws_can_ok(v: NodeV) -> bool {
    v is Str && crate::pathutil::looks_like_path_of(v->Str_0)
}

/// The error a workspace value may raise.
pub open spec fn ws_err_kind(v: NodeV, k: ErrorKind) -> bool {
    if !(v is Str) {
        k == ErrorKind::InvalidStructure
    } else if !crate::pathutil::looks_like_path_of(v->Str_0) {
        k == ErrorKind::WorkspaceNotFound
    } else {
        k == ErrorKind::NoHomeDir || k == ErrorKind::PathNotFound || k == ErrorKind::NotADirectory
    }
}

/// How a workspaces mapping may expand: every value becomes the canonical
/// absolute path of an existing directory, or the first failing value's
/// error aborts the pass.
pub open spec fn workspaces_rel(
    e: Seq<(Seq<char>, NodeV)>,
    r: Result<Seq<(Seq<char>, NodeV)>, ErrorKind>,
) -> bool {
    match r {
        Ok(out) => out.len() == e.len() && forall|i: int|
            0 <= i < e.len() ==> (#[trigger] out[i]).0 == e[i].0 && ws_can_ok(e[i].1)
                && out[i].1 is Str,
        Err(k) => exists|i: int|
            0 <= i < e.len() && ws_err_kind((#[trigger] e[i]).1, k) && (forall|j: int|
                0 <= j < i ==> ws_can_ok(e[j].1)),
    }
}

/// Canonicalize the `workspaces` mapping: every value must classify as an
/// existing directory.
#[verifier::loop_isolation(false)]
pub fn expand_workspaces(path: &str, config_dir: &str, workspaces: &mut Entries) -> (r: Result<
    (),
    ConfigError,
>)
    ensures
        match r {
            Ok(_) => workspaces_rel(
                entries_view(old(workspaces)@),
                Ok(entries_view(final(workspaces)@)),
            ),
            Err(e) => workspaces_rel(entries_view(old(workspaces)@), Err(e.kind)),
        },
{
    let ghost ev = entries_view(workspaces@);
    let mut out: Entries = Vec::new();
    let mut i: usize = 0;
    let n = workspaces.len();
    while i < n
        invariant
            i <= n,
            workspaces@.len() == n,
            entries_view(workspaces@) == ev,
            out@.len() == i as int,
            forall|j: int| 0 <= j < i as int ==> ws_can_ok((#[trigger] ev[j]).1),
            forall|j: int|
                0 <= j < i as int ==> (#[trigger] entries_view(out@)[j]).0 == ev[j].0
                    && entries_view(out@)[j].1 is Str,
        decreases n - i,
    {
        proof {
            assert(ev[i as int].1 == workspaces@[i as int].1@);
        }
        let s = match workspaces[i].1.as_str() {
            Some(s) => s,
            None => {
                proof {
                    assert(ws_err_kind(ev[i as int].1, ErrorKind::InvalidStructure));
                }
                return Err(ConfigError::new(ErrorKind::InvalidStructure, String::from_str(path)));
            },
        };
        match crate::pathutil::try_get_path(s.as_str(), Some(config_dir)) {
            Ok(None) => {
                proof {
                    assert(ws_err_kind(ev[i as int].1, ErrorKind::WorkspaceNotFound));
                }
                return Err(ConfigError::new(ErrorKind::WorkspaceNotFound, String::from_str(path)));
            },
            Ok(Some(p)) => {
                proof {
                    assert(crate::pathutil::looks_like_path_of(ev[i as int].1->Str_0));
                }
                let mut node = ConfigNode::Null;
                match crate::pathutil::process_path(&mut node, p) {
                    Ok(_) => {
                        let ghost prev = entries_view(out@);
                        out.push((workspaces[i].0.clone(), node));
                        proof {
                            assert(entries_view(out@)[i as int].0 == ev[i as int].0);
                            assert forall|j: int| 0 <= j < i as int implies #[trigger] entries_view(
                                out@,
                            )[j] == prev[j] by {
                                assert(out@[j] == out@.drop_last()[j]);
                            }
                        }
                    },
                    Err(e) => {
                        proof {
                            assert(ws_err_kind(ev[i as int].1, ErrorKind::NotADirectory));
                        }
                        return Err(ConfigError::new(e.kind, String::from_str(path)));
                    },
                }
            },
            Err(e) => {
                proof {
                    assert(crate::pathutil::looks_like_path_of(ev[i as int].1->Str_0));
                    assert(ws_err_kind(ev[i as int].1, e.kind));
                }
                return Err(ConfigError::new(e.kind, String::from_str(path)));
            },
        }
        i = i + 1;
    }
    *workspaces = out;
    Ok(())
}

// ---------------------------------------------------------------------------
// Whole scopes, recursively. The rewrite carries a depth budget: spending
// one unit per step keeps the recursion well founded even though shorthand
// properties can synthesize new structure of unbounded depth.
// ---------------------------------------------------------------------------

/// The implicit-commands pass as the expander runs it: only applied when
/// implicit command keys are present at all.
pub open spec fn implicit_pass(e: Seq<(Seq<char>, NodeV)>) -> Result<
    Seq<(Seq<char>, NodeV)>,
    ErrorKind,
> {
    if implicit_keys(e).len() == 0 {
        Ok(e)
    } else {
        implicit_moved(e, implicit_keys(e))
    }
}

/// The `run` pass as the expander runs it: only applied when some key has
/// base `run`.
pub open spec fn run_pass(e: Seq<(Seq<char>, NodeV)>) -> Result<
    Seq<(Seq<char>, NodeV)>,
    ErrorKind,
> {
    if has_base_key(e, "run"@) {
        run_moved(e, "run"@)
    } else {
        Ok(e)
    }
}

/// How one scope entry may expand, by its base key: the reserved sections
/// dispatch to their passes, `in` classifies against the filesystem, an
/// unreserved mapping is a sub-scope, and anything else is an error under
/// strictness and kept otherwise.
pub open spec fn entry_rel(
    k: Seq<char>,
    v: NodeV,
    r0: Result<NodeV, ErrorKind>,
    strict: bool,
    fuel: nat,
) -> bool
    decreases fuel, 0int,
{
    if fuel == 0 {
        r0 == Err::<NodeV, ErrorKind>(ErrorKind::DepthExceeded)
    } else {
        let b = base_key_of(k, true);
        if b == "variables"@ {
            if v is Mapping {
                r0 == Ok::<NodeV, ErrorKind>(NodeV::Mapping(vars_expanded(v->Mapping_0)))
            } else {
                r0 == Err::<NodeV, ErrorKind>(ErrorKind::InvalidStructure)
            }
        } else if b == "pre"@ || b == "post"@ {
            r0 == tc_expanded(v)
        } else if b == "commands"@ {
            if v is Mapping {
                r0 == (match commands_expanded(v->Mapping_0) {
                    Ok(c) => Ok::<NodeV, ErrorKind>(NodeV::Mapping(c)),
                    Err(k2) => Err(k2),
                })
            } else {
                r0 == Err::<NodeV, ErrorKind>(ErrorKind::InvalidStructure)
            }
        } else if b == "in"@ {
            in_value_rel(v, r0)
        } else if is_scope_reserved(k) {
            r0 == Err::<NodeV, ErrorKind>(ErrorKind::ReservedKey)
        } else if v is Mapping {
            match r0 {
                Ok(n) => n is Mapping && scope_rel(
                    v->Mapping_0,
                    Ok(n->Mapping_0),
                    strict,
                    (fuel - 1) as nat,
                ),
                Err(k2) => scope_rel(
                    v->Mapping_0,
                    Err::<Seq<(Seq<char>, NodeV)>, ErrorKind>(k2),
                    strict,
                    (fuel - 1) as nat,
                ),
            }
        } else {
            if strict {
                r0 == Err::<NodeV, ErrorKind>(ErrorKind::UnknownKey)
            } else {
                r0 == Ok::<NodeV, ErrorKind>(v)
            }
        }
    }
}

/// How the dispatch over a scope's entries may answer, entry by entry in
/// order, aborting at the first error.
pub open spec fn dispatch_rel(
    rem: Seq<(Seq<char>, NodeV)>,
    r: Result<Seq<(Seq<char>, NodeV)>, ErrorKind>,
    strict: bool,
    fuel: nat,
) -> bool
    decreases fuel, 2int,
{
    if fuel == 0 {
        r == Err::<Seq<(Seq<char>, NodeV)>, ErrorKind>(ErrorKind::DepthExceeded)
    } else if rem.len() == 0 {
        r == Ok::<Seq<(Seq<char>, NodeV)>, ErrorKind>(Seq::empty())
    } else {
        match r {
            Ok(out) => out.len() >= 1 && out[0].0 == rem[0].0 && entry_rel(
                rem[0].0,
                rem[0].1,
                Ok(out[0].1),
                strict,
                (fuel - 1) as nat,
            ) && dispatch_rel(rem.drop_first(), Ok(out.drop_first()), strict, (fuel - 1) as nat),
            Err(k2) => entry_rel(
                rem[0].0,
                rem[0].1,
                Err::<NodeV, ErrorKind>(k2),
                strict,
                (fuel - 1) as nat,
            ) || (exists|nv: NodeV|
                #[trigger] crate::node::picked(nv) && entry_rel(
                    rem[0].0,
                    rem[0].1,
                    Ok(nv),
                    strict,
                    (fuel - 1) as nat,
                ) && dispatch_rel(
                    rem.drop_first(),
                    Err::<Seq<(Seq<char>, NodeV)>, ErrorKind>(k2),
                    strict,
                    (fuel - 1) as nat,
                )),
        }
    }
}

/// How a whole scope may expand: the three move passes in order, then the
/// dispatch over what they left.
pub open spec fn scope_rel(
    e: Seq<(Seq<char>, NodeV)>,
    r: Result<Seq<(Seq<char>, NodeV)>, ErrorKind>,
    strict: bool,
    fuel: nat,
) -> bool
    decreases fuel, 4int,
{
    if fuel == 0 {
        r == Err::<Seq<(Seq<char>, NodeV)>, ErrorKind>(ErrorKind::DepthExceeded)
    } else {
        match shorthand_pass(e) {
            Err(k) => r == Err::<Seq<(Seq<char>, NodeV)>, ErrorKind>(k),
            Ok(m1) => match run_pass(m1) {
                Err(k) => r == Err::<Seq<(Seq<char>, NodeV)>, ErrorKind>(k),
                Ok(m2) => match implicit_pass(m2) {
                    Err(k) => r == Err::<Seq<(Seq<char>, NodeV)>, ErrorKind>(k),
                    Ok(m3) => dispatch_rel(m3, r, strict, (fuel - 1) as nat),
                },
            },
        }
    }
}

/// Expand one scope entry.
#[verifier::rlimit(60)]
fn expand_entry(
    path: &str,
    config_dir: &str,
    key: &String,
    v: ConfigNode,
    strict: bool,
    fuel: u64,
) -> (r: Result<ConfigNode, ConfigError>)
    ensures
        match r {
            Ok(out) => entry_rel(key@, v@, Ok(out@), strict, fuel as nat),
            Err(e) => entry_rel(key@, v@, Err(e.kind), strict, fuel as nat),
        },
    decreases fuel,
{
    if fuel == 0 {
        return Err(ConfigError::new(ErrorKind::DepthExceeded, String::from_str(path)));
    }
    let ghost va = v@;
    let b = crate::desugar::get_base_key(key.as_str(), true);
    if strutil::str_eq(b, "variables") {
        match v {
            ConfigNode::Mapping(mut me) => {
                proof {
                    crate::node::lemma_mapping_view(me);
                }
                match expand_variables(path, &mut me) {
                    Ok(_) => {},
                    Err(e) => {
                        proof {
                            assert(false);
                        }
                        return Err(e);
                    },
                }
                let out = ConfigNode::Mapping(me);
                proof {
                    crate::node::lemma_mapping_view(out->Mapping_0);
                    assert(entry_rel(key@, va, Ok::<NodeV, ErrorKind>(out@), strict, fuel as nat));
                }
                Ok(out)
            },
            _ => {
                proof {
                    assert(entry_rel(
                        key@,
                        va,
                        Err::<NodeV, ErrorKind>(ErrorKind::InvalidStructure),
                        strict,
                        fuel as nat,
                    ));
                }
                Err(ConfigError::new(ErrorKind::InvalidStructure, String::from_str(path)))
            },
        }
    } else if strutil::str_eq(b, "pre") || strutil::str_eq(b, "post") {
        let r = expand_task_collection(path, v);
        proof {
            if r is Ok {
                assert(entry_rel(key@, va, Ok::<NodeV, ErrorKind>(r->Ok_0@), strict, fuel as nat));
            } else {
                assert(entry_rel(
                    key@,
                    va,
                    Err::<NodeV, ErrorKind>(r->Err_0.kind),
                    strict,
                    fuel as nat,
                ));
            }
        }
        r
    } else if strutil::str_eq(b, "commands") {
        match v {
            ConfigNode::Mapping(mut me) => {
                proof {
                    crate::node::lemma_mapping_view(me);
                }
                match expand_commands(path, &mut me) {
                    Ok(_) => {
                        let out = ConfigNode::Mapping(me);
                        proof {
                            crate::node::lemma_mapping_view(out->Mapping_0);
                            assert(entry_rel(
                                key@,
                                va,
                                Ok::<NodeV, ErrorKind>(out@),
                                strict,
                                fuel as nat,
                            ));
                        }
                        Ok(out)
                    },
                    Err(e) => {
                        proof {
                            assert(entry_rel(
                                key@,
                                va,
                                Err::<NodeV, ErrorKind>(e.kind),
                                strict,
                                fuel as nat,
                            ));
                        }
                        Err(e)
                    },
                }
            },
            _ => {
                proof {
                    assert(entry_rel(
                        key@,
                        va,
                        Err::<NodeV, ErrorKind>(ErrorKind::InvalidStructure),
                        strict,
                        fuel as nat,
                    ));
                }
                Err(ConfigError::new(ErrorKind::InvalidStructure, String::from_str(path)))
            },
        }
    } else if strutil::str_eq(b, "in") {
        let r = expand_potential_path(path, config_dir, v);
        proof {
            if r is Ok {
                assert(entry_rel(key@, va, Ok::<NodeV, ErrorKind>(r->Ok_0@), strict, fuel as nat));
            } else {
                assert(entry_rel(
                    key@,
                    va,
                    Err::<NodeV, ErrorKind>(r->Err_0.kind),
                    strict,
                    fuel as nat,
                ));
            }
        }
        r
    } else if scope_reserved(key.as_str()) {
        proof {
            assert(entry_rel(
                key@,
                va,
                Err::<NodeV, ErrorKind>(ErrorKind::ReservedKey),
                strict,
                fuel as nat,
            ));
        }
        Err(ConfigError::new(ErrorKind::ReservedKey, String::from_str(path)))
    } else {
        match v {
            ConfigNode::Mapping(mut me) => {
                proof {
                    crate::node::lemma_mapping_view(me);
                }
                let ghost mev = entries_view(me@);
                match expand_scope_fueled(path, config_dir, &mut me, strict, fuel - 1) {
                    Ok(_) => {
                        let out = ConfigNode::Mapping(me);
                        proof {
                            crate::node::lemma_mapping_view(out->Mapping_0);
                            assert(scope_rel(
                                va->Mapping_0,
                                Ok(entries_view(me@)),
                                strict,
                                ((fuel as nat) - 1) as nat,
                            ));
                            assert(entry_rel(
                                key@,
                                va,
                                Ok::<NodeV, ErrorKind>(out@),
                                strict,
                                fuel as nat,
                            ));
                        }
                        Ok(out)
                    },
                    Err(e) => {
                        proof {
                            assert(scope_rel(
                                va->Mapping_0,
                                Err::<Seq<(Seq<char>, NodeV)>, ErrorKind>(e.kind),
                                strict,
                                ((fuel as nat) - 1) as nat,
                            ));
                            assert(entry_rel(
                                key@,
                                va,
                                Err::<NodeV, ErrorKind>(e.kind),
                                strict,
                                fuel as nat,
                            ));
                        }
                        Err(e)
                    },
                }
            },
            other => {
                if strict {
                    proof {
                        assert(entry_rel(
                            key@,
                            va,
                            Err::<NodeV, ErrorKind>(ErrorKind::UnknownKey),
                            strict,
                            fuel as nat,
                        ));
                    }
                    Err(ConfigError::new(ErrorKind::UnknownKey, String::from_str(path)))
                } else {
                    proof {
                        assert(entry_rel(
                            key@,
                            va,
                            Ok::<NodeV, ErrorKind>(other@),
                            strict,
                            fuel as nat,
                        ));
                    }
                    Ok(other)
                }
            },
        }
    }
}

/// Expand the entries of a scope from position `i` on.
#[verifier::rlimit(60)]
fn expand_scope_entries(
    path: &str,
    config_dir: &str,
    src: &Entries,
    i: usize,
    strict: bool,
    fuel: u64,
) -> (r: Result<Entries, ConfigError>)
    requires
        i <= src.len(),
    ensures
        match r {
            Ok(out) => dispatch_rel(
                entries_view(src@).skip(i as int),
                Ok(entries_view(out@)),
                strict,
                fuel as nat,
            ),
            Err(e) => dispatch_rel(
                entries_view(src@).skip(i as int),
                Err(e.kind),
                strict,
                fuel as nat,
            ),
        },
    decreases fuel,
{
    let ghost ev = entries_view(src@);
    if fuel == 0 {
        return Err(ConfigError::new(ErrorKind::DepthExceeded, String::from_str(path)));
    }
    if i >= src.len() {
        let out: Entries = Vec::new();
        proof {
            assert(ev.skip(i as int).len() == 0);
            assert(entries_view(out@) =~= Seq::<(Seq<char>, NodeV)>::empty());
        }
        return Ok(out);
    }
    proof {
        assert(ev.skip(i as int)[0] == ev[i as int]);
        assert(ev.skip(i as int).drop_first() =~= ev.skip(i as int + 1));
    }
    let key = src[i].0.clone();
    let v = src[i].1.deep_clone();
    match expand_entry(path, config_dir, &key, v, strict, fuel - 1) {
        Err(e) => {
            proof {
                assert(entry_rel(
                    ev[i as int].0,
                    ev[i as int].1,
                    Err::<NodeV, ErrorKind>(e.kind),
                    strict,
                    ((fuel as nat) - 1) as nat,
                ));
                assert(dispatch_rel(
                    ev.skip(i as int),
                    Err::<Seq<(Seq<char>, NodeV)>, ErrorKind>(e.kind),
                    strict,
                    fuel as nat,
                ));
            }
            Err(e)
        },
        Ok(nv) => {
            proof {
                assert(entry_rel(
                    ev[i as int].0,
                    ev[i as int].1,
                    Ok::<NodeV, ErrorKind>(nv@),
                    strict,
                    ((fuel as nat) - 1) as nat,
                ));
            }
            match expand_scope_entries(path, config_dir, src, i + 1, strict, fuel - 1) {
                Err(e) => {
                    proof {
                        assert(crate::node::picked(nv@));
                        assert(entry_rel(
                            ev.skip(i as int)[0].0,
                            ev.skip(i as int)[0].1,
                            Ok::<NodeV, ErrorKind>(nv@),
                            strict,
                            ((fuel as nat) - 1) as nat,
                        ));
                        assert(dispatch_rel(
                            ev.skip(i as int).drop_first(),
                            Err::<Seq<(Seq<char>, NodeV)>, ErrorKind>(e.kind),
                            strict,
                            ((fuel as nat) - 1) as nat,
                        ));
                        assert(dispatch_rel(
                            ev.skip(i as int),
                            Err::<Seq<(Seq<char>, NodeV)>, ErrorKind>(e.kind),
                            strict,
                            fuel as nat,
                        ));
                    }
                    Err(e)
                },
                Ok(mut rest) => {
                    let ghost restv = entries_view(rest@);
                    let ghost nvv = nv@;
                    rest.insert(0, (key, nv));
                    proof {
                        assert(entries_view(rest@) =~= seq![(ev[i as int].0, nvv)] + restv);
                        assert(entries_view(rest@).drop_first() =~= restv);
                        assert(entries_view(rest@)[0] == (ev.skip(i as int)[0].0, nvv));
                        assert(dispatch_rel(
                            ev.skip(i as int),
                            Ok::<Seq<(Seq<char>, NodeV)>, ErrorKind>(entries_view(rest@)),
                            strict,
                            fuel as nat,
                        ));
                    }
                    Ok(rest)
                },
            }
        },
    }
}

/// Expand one scope with an explicit depth budget.
pub(crate) fn expand_scope_fueled(
    path: &str,
    config_dir: &str,
    scope: &mut Entries,
    strict: bool,
    fuel: u64,
) -> (r: Result<(), ConfigError>)
    ensures
        match r {
            Ok(_) => scope_rel(
                entries_view(old(scope)@),
                Ok(entries_view(final(scope)@)),
                strict,
                fuel as nat,
            ),
            Err(e) => scope_rel(entries_view(old(scope)@), Err(e.kind), strict, fuel as nat),
        },
    decreases fuel,
{
    if fuel == 0 {
        return Err(ConfigError::new(ErrorKind::DepthExceeded, String::from_str(path)));
    }
    let keys = get_shorthand_variable_keys(scope);
    if keys.len() > 0 {
        match expand_shorthand_variables(path, scope, keys) {
            Ok(_) => {},
            Err(e) => {
                return Err(e);
            },
        }
    }
    let ghost m1 = entries_view(scope@);
    if has_key(scope, "run") {
        match expand_run(path, scope, "run") {
            Ok(_) => {},
            Err(e) => {
                return Err(e);
            },
        }
    }
    let ghost m2 = entries_view(scope@);
    let ikeys = get_implicit_command_keys(scope);
    if ikeys.len() > 0 {
        match expand_implicit_commands(path, scope, ikeys) {
            Ok(_) => {},
            Err(e) => {
                return Err(e);
            },
        }
    }
    let ghost m3 = entries_view(scope@);
    proof {
        assert(entries_view(scope@).skip(0) =~= entries_view(scope@));
    }
    let out = match expand_scope_entries(path, config_dir, scope, 0, strict, fuel - 1) {
        Ok(out) => out,
        Err(e) => {
            return Err(e);
        },
    };
    *scope = out;
    Ok(())
}

/// Expand one scope: the three move passes, then every entry dispatched by
/// its base key, sub-scopes recursively.
pub fn expand_scope(path: &str, config_dir: &str, scope: &mut Entries, strict: bool) -> (r: Result<
    (),
    ConfigError,
>)
    ensures
        match r {
            Ok(_) => scope_rel(
                entries_view(old(scope)@),
                Ok(entries_view(final(scope)@)),
                strict,
                u64::MAX as nat,
            ),
            Err(e) => scope_rel(entries_view(old(scope)@), Err(e.kind), strict, u64::MAX as nat),
        },
{
    expand_scope_fueled(path, config_dir, scope, strict, u64::MAX)
}

// ---------------------------------------------------------------------------
// The document root: only `workspaces`, `state` and `commands` may stand.
// ---------------------------------------------------------------------------

/// How one root entry may expand. An unknown root key is an error; a known
/// root key whose value is no mapping is left as it is.
pub open spec fn root_entry_rel(
    k: Seq<char>,
    v: NodeV,
    r0: Result<NodeV, ErrorKind>,
    fuel: nat,
) -> bool {
    if k == "workspaces"@ {
        if v is Mapping {
            match r0 {
                Ok(n) => n is Mapping && workspaces_rel(v->Mapping_0, Ok(n->Mapping_0)),
                Err(k2) => workspaces_rel(v->Mapping_0, Err(k2)),
            }
        } else {
            r0 == Ok::<NodeV, ErrorKind>(v)
        }
    } else if k == "state"@ {
        if v is Mapping {
            r0 == (match state_expanded(v->Mapping_0) {
                Ok(c) => Ok::<NodeV, ErrorKind>(NodeV::Mapping(c)),
                Err(k2) => Err(k2),
            })
        } else {
            r0 == Ok::<NodeV, ErrorKind>(v)
        }
    } else if k == "commands"@ {
        if v is Mapping {
            match r0 {
                Ok(n) => n is Mapping && scope_rel(v->Mapping_0, Ok(n->Mapping_0), true, fuel),
                Err(k2) => scope_rel(
                    v->Mapping_0,
                    Err::<Seq<(Seq<char>, NodeV)>, ErrorKind>(k2),
                    true,
                    fuel,
                ),
            }
        } else {
            r0 == Ok::<NodeV, ErrorKind>(v)
        }
    } else {
        r0 == Err::<NodeV, ErrorKind>(ErrorKind::UnknownKey)
    }
}

/// How the document root may expand, entry by entry in order.
pub open spec fn root_rel(
    rem: Seq<(Seq<char>, NodeV)>,
    r: Result<Seq<(Seq<char>, NodeV)>, ErrorKind>,
    fuel: nat,
) -> bool
    decreases rem.len(), 1int,
{
    if rem.len() == 0 {
        r == Ok::<Seq<(Seq<char>, NodeV)>, ErrorKind>(Seq::empty())
    } else {
        match r {
            Ok(out) => out.len() >= 1 && out[0].0 == rem[0].0 && root_entry_rel(
                rem[0].0,
                rem[0].1,
                Ok(out[0].1),
                fuel,
            ) && root_rel(rem.drop_first(), Ok(out.drop_first()), fuel),
            Err(k2) => root_entry_rel(rem[0].0, rem[0].1, Err::<NodeV, ErrorKind>(k2), fuel) || (
            exists|nv: NodeV|
                #[trigger] crate::node::picked(nv) && root_entry_rel(rem[0].0, rem[0].1, Ok(nv), fuel)
                    && root_rel(
                    rem.drop_first(),
                    Err::<Seq<(Seq<char>, NodeV)>, ErrorKind>(k2),
                    fuel,
                )),
        }
    }
}

fn expand_root_entries(config_dir: &str, src: &Entries, i: usize) -> (r: Result<
    Entries,
    ConfigError,
>)
    requires
        i <= src.len(),
    ensures
        match r {
            Ok(out) => root_rel(
                entries_view(src@).skip(i as int),
                Ok(entries_view(out@)),
                u64::MAX as nat,
            ),
            Err(e) => root_rel(entries_view(src@).skip(i as int), Err(e.kind), u64::MAX as nat),
        },
    decreases src.len() - i,
{
    let ghost ev = entries_view(src@);
    if i >= src.len() {
        let out: Entries = Vec::new();
        proof {
            assert(ev.skip(i as int).len() == 0);
            assert(entries_view(out@) =~= Seq::<(Seq<char>, NodeV)>::empty());
        }
        return Ok(out);
    }
    proof {
        assert(ev.skip(i as int)[0] == ev[i as int]);
        assert(ev.skip(i as int).drop_first() =~= ev.skip(i as int + 1));
    }
    let key = src[i].0.clone();
    let r0: Result<ConfigNode, ConfigError> = if strutil::str_eq(key.as_str(), "workspaces") {
        match &src[i].1 {
            ConfigNode::Mapping(me) => {
                proof {
                    crate::node::lemma_mapping_view(*me);
                }
                let mut ws = crate::node::entries_clone(me);
                match expand_workspaces("workspaces", config_dir, &mut ws) {
                    Ok(_) => {
                        let out = ConfigNode::Mapping(ws);
                        proof {
                            crate::node::lemma_mapping_view(out->Mapping_0);
                        }
                        Ok(out)
                    },
                    Err(e) => Err(e),
                }
            },
            _ => Ok(src[i].1.deep_clone()),
        }
    } else if strutil::str_eq(key.as_str(), "state") {
        match &src[i].1 {
            ConfigNode::Mapping(me) => {
                proof {
                    crate::node::lemma_mapping_view(*me);
                }
                let mut st = crate::node::entries_clone(me);
                match expand_state("state", &mut st) {
                    Ok(_) => {
                        let out = ConfigNode::Mapping(st);
                        proof {
                            crate::node::lemma_mapping_view(out->Mapping_0);
                        }
                        Ok(out)
                    },
                    Err(e) => Err(e),
                }
            },
            _ => Ok(src[i].1.deep_clone()),
        }
    } else if strutil::str_eq(key.as_str(), "commands") {
        match &src[i].1 {
            ConfigNode::Mapping(me) => {
                proof {
                    crate::node::lemma_mapping_view(*me);
                }
                let mut cm = crate::node::entries_clone(me);
                match expand_scope_fueled("commands", config_dir, &mut cm, true, u64::MAX) {
                    Ok(_) => {
                        let out = ConfigNode::Mapping(cm);
                        proof {
                            crate::node::lemma_mapping_view(out->Mapping_0);
                            assert(scope_rel(
                                ev[i as int].1->Mapping_0,
                                Ok(entries_view(cm@)),
                                true,
                                u64::MAX as nat,
                            ));
                        }
                        Ok(out)
                    },
                    Err(e) => {
                        proof {
                            assert(scope_rel(
                                ev[i as int].1->Mapping_0,
                                Err::<Seq<(Seq<char>, NodeV)>, ErrorKind>(e.kind),
                                true,
                                u64::MAX as nat,
                            ));
                        }
                        Err(e)
                    },
                }
            },
            _ => Ok(src[i].1.deep_clone()),
        }
    } else {
        Err(ConfigError::new(ErrorKind::UnknownKey, key.clone()))
    };
    match r0 {
        Err(e) => {
            proof {
                assert(root_entry_rel(
                    ev[i as int].0,
                    ev[i as int].1,
                    Err::<NodeV, ErrorKind>(e.kind),
                    u64::MAX as nat,
                ));
            }
            Err(e)
        },
        Ok(nv) => {
            proof {
                assert(root_entry_rel(
                    ev[i as int].0,
                    ev[i as int].1,
                    Ok::<NodeV, ErrorKind>(nv@),
                    u64::MAX as nat,
                ));
            }
            match expand_root_entries(config_dir, src, i + 1) {
                Err(e) => {
                    proof {
                        assert(crate::node::picked(nv@));
                        assert(root_entry_rel(
                            ev.skip(i as int)[0].0,
                            ev.skip(i as int)[0].1,
                            Ok::<NodeV, ErrorKind>(nv@),
                            u64::MAX as nat,
                        ));
                        assert(root_rel(
                            ev.skip(i as int).drop_first(),
                            Err::<Seq<(Seq<char>, NodeV)>, ErrorKind>(e.kind),
                            u64::MAX as nat,
                        ));
                        assert(root_rel(
                            ev.skip(i as int),
                            Err::<Seq<(Seq<char>, NodeV)>, ErrorKind>(e.kind),
                            u64::MAX as nat,
                        ));
                    }
                    Err(e)
                },
                Ok(mut rest) => {
                    let ghost restv = entries_view(rest@);
                    let ghost nvv = nv@;
                    rest.insert(0, (key, nv));
                    proof {
                        assert(entries_view(rest@) =~= seq![(ev[i as int].0, nvv)] + restv);
                        assert(entries_view(rest@).drop_first() =~= restv);
                    }
                    Ok(rest)
                },
            }
        },
    }
}

/// Expand the whole document: `workspaces`, `state` and `commands` each by
/// their pass; any other root key is an error.
pub fn expand_project_config(config_dir: &str, config: &mut Entries) -> (r: Result<
    (),
    ConfigError,
>)
    ensures
        match r {
            Ok(_) => root_rel(
                entries_view(old(config)@),
                Ok(entries_view(final(config)@)),
                u64::MAX as nat,
            ),
            Err(e) => root_rel(entries_view(old(config)@), Err(e.kind), u64::MAX as nat),
        },
{
    proof {
        assert(entries_view(config@).skip(0) =~= entries_view(config@));
    }
    let out = match expand_root_entries(config_dir, config, 0) {
        Ok(out) => out,
        Err(e) => {
            return Err(e);
        },
    };
    *config = out;
    Ok(())
}

// ---------------------------------------------------------------------------
// Task-collection expansion is idempotent.
// ---------------------------------------------------------------------------

/// A task string in canonical form: trimmed and free of the `&&` separator.
pub open spec fn canon_task(n: NodeV) -> bool {
    n is Str && strutil::trim_of(n->Str_0) == n->Str_0 && strutil::find_sub(n->Str_0, "&&"@)
        == -1
}

/// Splitting one raw task string yields only canonical tasks.
pub proof fn lemma_split_one_canon(x: NodeV)
    requires
        x is Str,
    ensures
        forall|i: int|
            0 <= i < split_one_task(x).len() ==> canon_task(#[trigger] split_one_task(x)[i]),
{
    reveal_strlit("&&");
    strutil::lemma_split_sub_pieces(x->Str_0, "&&"@);
    assert forall|i: int|
        0 <= i < split_one_task(x).len() implies canon_task(
        #[trigger] split_one_task(x)[i],
    ) by {
        let p = strutil::split_sub(x->Str_0, "&&"@)[i];
        strutil::lemma_trim_idempotent(p);
        strutil::lemma_no_sub_after_trim(p, "&&"@);
    }
}

/// Splitting raw task strings yields only canonical tasks.
pub proof fn lemma_split_tasks_canon(items: Seq<NodeV>)
    requires
        crate::normalize::all_str(items),
    ensures
        forall|i: int|
            0 <= i < split_tasks(items).len() ==> canon_task(#[trigger] split_tasks(items)[i]),
    decreases items.len(),
{
    if items.len() > 0 {
        lemma_split_one_canon(items[0]);
        lemma_split_tasks_canon(items.drop_first());
        let head = split_one_task(items[0]);
        assert(forall|i: int|
            head.len() <= i < split_tasks(items).len() ==> #[trigger] split_tasks(items)[i]
                == split_tasks(items.drop_first())[i - head.len()]);
    }
}

/// Splitting canonical tasks changes nothing.
pub proof fn lemma_split_tasks_id(flat: Seq<NodeV>)
    requires
        forall|i: int| 0 <= i < flat.len() ==> canon_task(#[trigger] flat[i]),
    ensures
        split_tasks(flat) == flat,
    decreases flat.len(),
{
    reveal_strlit("&&");
    if flat.len() == 0 {
        assert(split_tasks(flat) =~= flat);
    } else {
        let t = flat[0]->Str_0;
        strutil::lemma_split_sub_single(t, "&&"@);
        assert(split_one_task(flat[0]) =~= seq![flat[0]]);
        lemma_split_tasks_id(flat.drop_first());
        assert(split_tasks(flat) =~= flat);
    }
}

/// Expanding a task collection twice is a no-op: the canonical form is a
/// fixed point of the expansion.
pub proof fn lemma_task_collection_idempotent(v: NodeV, out: NodeV)
    requires
        tc_expanded(v) == Ok::<NodeV, ErrorKind>(out),
    ensures
        tc_expanded(out) == Ok::<NodeV, ErrorKind>(out),
{
    reveal_strlit("&&");
    let m = if v is Mapping {
        v->Mapping_0
    } else {
        seq![("tasks"@, v)]
    };
    let t0 = map_get(m, "tasks"@);
    let items = if t0 is Str {
        seq![t0]
    } else {
        t0->Sequence_0
    };
    let flat = split_tasks(items);
    let e2 = crate::node::map_set(m, "tasks"@, NodeV::Sequence(flat));
    assert(out == NodeV::Mapping(e2));
    crate::node::lemma_map_set_has(m, "tasks"@, NodeV::Sequence(flat));
    assert(crate::normalize::all_str(items));
    lemma_split_tasks_canon(items);
    assert(crate::normalize::all_str(flat));
    lemma_split_tasks_id(flat);
    crate::node::lemma_map_set_same(e2, "tasks"@);
    assert(tc_expanded(out) == Ok::<NodeV, ErrorKind>(
        NodeV::Mapping(crate::node::map_set(e2, "tasks"@, NodeV::Sequence(flat))),
    ));
    assert(crate::node::map_set(e2, "tasks"@, NodeV::Sequence(flat)) == e2);
}

/// The internal configuration needs no expansion; the hook mirrors the
/// project pass.
pub fn expand_internal_config(config: &mut Entries) -> (r: Result<(), ConfigError>)
    ensures
        r is Ok,
        final(config)@ == old(config)@,
{
    Ok(())
}

} // verus!
