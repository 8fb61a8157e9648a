//! The per-invocation execution plan. A [`CommandScope`] accumulates
//! inherited context while a command path is walked: variables, the working
//! directory, pre/post task groups and the command's own task collection.
//! Deeper scopes win per field; a `-` prefixed key resets its field.

use crate::node::{
    entries_view, map_get, map_has, ConfigNode, Entries, NodeV,
};
use vstd::prelude::*;

verus! {

/// A named, ordered group of task strings sharing a working directory and
/// concurrency markers.
#[derive(Debug)]
pub struct TaskCollection {
    pub working_dir: Option<String>,
    pub tasks: Vec<String>,
    pub background: bool,
    pub parallel: bool,
}

pub type TaskGrouping = Vec<TaskCollection>;

/// Model of a task collection.
pub struct TaskCollectionV {
    pub working_dir: Option<Seq<char>>,
    pub tasks: Seq<Seq<char>>,
    pub background: bool,
    pub parallel: bool,
}

impl View for TaskCollection {
    type V = TaskCollectionV;

    open spec fn view(&self) -> TaskCollectionV {
        TaskCollectionV {
            working_dir: match self.working_dir {
                Some(s) => Some(s@),
                None => None,
            },
            tasks: self.tasks@.map_values(|s: String| s@),
            background: self.background,
            parallel: self.parallel,
        }
    }
}

/// The accumulator folded along a command path.
#[derive(Debug)]
pub struct CommandScope {
    pub variables: Entries,
    pub working_dir: Option<String>,
    pub pre_tasks: Option<TaskGrouping>,
    pub command: TaskCollection,
    pub post_tasks: Option<TaskGrouping>,
}

/// Model of a command scope.
pub struct CommandScopeV {
    pub variables: Seq<(Seq<char>, NodeV)>,
    pub working_dir: Option<Seq<char>>,
    pub pre_tasks: Option<Seq<TaskCollectionV>>,
    pub command: TaskCollectionV,
    pub post_tasks: Option<Seq<TaskCollectionV>>,
}

impl View for CommandScope {
    type V = CommandScopeV;

    open spec fn view(&self) -> CommandScopeV {
        CommandScopeV {
            variables: entries_view(self.variables@),
            working_dir: match self.working_dir {
                Some(s) => Some(s@),
                None => None,
            },
            pre_tasks: match self.pre_tasks {
                Some(ts) => Some(ts@.map_values(|t: TaskCollection| t@)),
                None => None,
            },
            command: self.command@,
            post_tasks: match self.post_tasks {
                Some(ts) => Some(ts@.map_values(|t: TaskCollection| t@)),
                None => None,
            },
        }
    }
}

pub open spec fn empty_tc() -> TaskCollectionV {
    TaskCollectionV { working_dir: None, tasks: Seq::empty(), background: false, parallel: false }
}

pub open spec fn empty_scope() -> CommandScopeV {
    CommandScopeV {
        variables: Seq::empty(),
        working_dir: None,
        pre_tasks: None,
        command: empty_tc(),
        post_tasks: None,
    }
}

impl TaskCollection {
    pub fn new() -> (r: TaskCollection)
        ensures
            r@ == empty_tc(),
    {
        let r = TaskCollection {
            working_dir: None,
            tasks: Vec::new(),
            background: false,
            parallel: false,
        };
        proof {
            assert(r@.tasks =~= empty_tc().tasks);
        }
        r
    }
}

impl CommandScope {
    pub fn new() -> (r: CommandScope)
        ensures
            r@ == empty_scope(),
    {
        let r = CommandScope {
            variables: Vec::new(),
            working_dir: None,
            pre_tasks: None,
            command: TaskCollection::new(),
            post_tasks: None,
        };
        proof {
            assert(r@.variables =~= empty_scope().variables);
        }
        r
    }
}

impl Default for TaskCollection {
    fn default() -> (r: TaskCollection)
        ensures
            r@ == empty_tc(),
    {
        TaskCollection::new()
    }
}

impl Default for CommandScope {
    fn default() -> (r: CommandScope)
        ensures
            r@ == empty_scope(),
    {
        CommandScope::new()
    }
}

// ---------------------------------------------------------------------------
// The fold, at the model level.
// ---------------------------------------------------------------------------

/// A boolean marker read from a canonical mapping; anything that is not a
/// boolean counts as absent.
pub open spec fn bool_of(m: Seq<(Seq<char>, NodeV)>, k: Seq<char>) -> bool {
    map_has(m, k) && map_get(m, k) is Bool && map_get(m, k)->Bool_0
}

/// The canonical shape of a task list: a sequence of strings.
pub open spec fn tasks_shape_ok(m: Seq<(Seq<char>, NodeV)>) -> bool {
    map_has(m, "tasks"@) && map_get(m, "tasks"@) is Sequence && crate::normalize::all_str(
        map_get(m, "tasks"@)->Sequence_0,
    )
}

pub open spec fn tasks_strings(m: Seq<(Seq<char>, NodeV)>) -> Seq<Seq<char>> {
    map_get(m, "tasks"@)->Sequence_0.map_values(|n: NodeV| n->Str_0)
}

/// A `pre`/`post` group entry built from a canonical task-group mapping;
/// nothing when the mapping is not in canonical shape.
pub open spec fn group_tc_of(m: Seq<(Seq<char>, NodeV)>) -> Option<TaskCollectionV> {
    if tasks_shape_ok(m) {
        Some(
            TaskCollectionV {
                working_dir: if map_has(m, "in"@) && map_get(m, "in"@) is Str {
                    Some(map_get(m, "in"@)->Str_0)
                } else {
                    None
                },
                tasks: tasks_strings(m),
                background: bool_of(m, "background"@),
                parallel: bool_of(m, "parallel"@),
            },
        )
    } else {
        None
    }
}

/// The command's own task collection updated from a tasks-bearing mapping:
/// its `-in`/`in`, `-background`/`background` and `-parallel`/`parallel`
/// override only their own field.
pub open spec fn command_updated(c: TaskCollectionV, m: Seq<(Seq<char>, NodeV)>) -> TaskCollectionV {
    if tasks_shape_ok(m) {
        TaskCollectionV {
            working_dir: if map_has(m, "-in"@) {
                None
            } else if map_has(m, "in"@) && map_get(m, "in"@) is Str {
                Some(map_get(m, "in"@)->Str_0)
            } else {
                c.working_dir
            },
            tasks: tasks_strings(m),
            background: if map_has(m, "-background"@) {
                false
            } else if map_has(m, "background"@) && map_get(m, "background"@) is Bool {
                map_get(m, "background"@)->Bool_0
            } else {
                c.background
            },
            parallel: if map_has(m, "-parallel"@) {
                false
            } else if map_has(m, "parallel"@) && map_get(m, "parallel"@) is Bool {
                map_get(m, "parallel"@)->Bool_0
            } else {
                c.parallel
            },
        }
    } else {
        c
    }
}

/// Variable entries folded in, deepest wins by name; only canonical
/// `{value: v}` shapes are taken.
pub open spec fn vars_folded(
    vars: Seq<(Seq<char>, NodeV)>,
    m: Seq<(Seq<char>, NodeV)>,
) -> Seq<(Seq<char>, NodeV)>
    decreases m.len(),
{
    if m.len() == 0 {
        vars
    } else {
        let v = m[0].1;
        let vars1 = if v is Mapping && map_has(v->Mapping_0, "value"@) {
            crate::node::map_set(vars, m[0].0, map_get(v->Mapping_0, "value"@))
        } else {
            vars
        };
        vars_folded(vars1, m.drop_first())
    }
}

/// One scope entry folded into the accumulator.
pub open spec fn acc_step(s: CommandScopeV, k: Seq<char>, v: NodeV) -> CommandScopeV {
    if k == "variables"@ {
        if v is Mapping {
            CommandScopeV { variables: vars_folded(s.variables, v->Mapping_0), ..s }
        } else {
            s
        }
    } else if k == "-in"@ {
        CommandScopeV { working_dir: None, ..s }
    } else if k == "in"@ {
        if v is Str {
            CommandScopeV { working_dir: Some(v->Str_0), ..s }
        } else {
            s
        }
    } else if k == "-pre"@ {
        CommandScopeV { pre_tasks: None, ..s }
    } else if k == "-post"@ {
        CommandScopeV { post_tasks: None, ..s }
    } else if k == "pre"@ || k == "post"@ {
        if v is Mapping && group_tc_of(v->Mapping_0) is Some {
            let tc = group_tc_of(v->Mapping_0).unwrap();
            if k == "pre"@ {
                let cur = match s.pre_tasks {
                    Some(ts) => ts,
                    None => Seq::empty(),
                };
                CommandScopeV { pre_tasks: Some(cur.push(tc)), ..s }
            } else {
                let cur = match s.post_tasks {
                    Some(ts) => ts,
                    None => Seq::empty(),
                };
                CommandScopeV { post_tasks: Some(cur.push(tc)), ..s }
            }
        } else {
            s
        }
    } else if v is Mapping && map_has(v->Mapping_0, "tasks"@) {
        CommandScopeV { command: command_updated(s.command, v->Mapping_0), ..s }
    } else {
        s
    }
}

/// The whole mapping folded in, entry by entry in order.
pub open spec fn acc_fold(s: CommandScopeV, m: Seq<(Seq<char>, NodeV)>) -> CommandScopeV
    decreases m.len(),
{
    if m.len() == 0 {
        s
    } else {
        acc_fold(acc_step(s, m[0].0, m[0].1), m.drop_first())
    }
}

// ---------------------------------------------------------------------------
// The fold, executably.
// ---------------------------------------------------------------------------

fn get_bool(m: &Entries, k: &str) -> (r: bool)
    ensures
        r == bool_of(entries_view(m@), k@),
{
    match crate::node::entries_get(m, k) {
        Some(ConfigNode::Bool(b)) => *b,
        _ => false,
    }
}

/// The trimmed task strings of a canonical task list, when it has the
/// canonical shape.
#[verifier::loop_isolation(false)]
fn read_tasks(m: &Entries) -> (r: Option<Vec<String>>)
    ensures
        match r {
            Some(ts) => tasks_shape_ok(entries_view(m@)) && ts@.map_values(|s: String| s@)
                == tasks_strings(entries_view(m@)),
            None => !tasks_shape_ok(entries_view(m@)),
        },
{
    let ghost mv = entries_view(m@);
    let items = match crate::node::entries_get(m, "tasks") {
        Some(ConfigNode::Sequence(items)) => items,
        Some(_) => {
            return None;
        },
        None => {
            return None;
        },
    };
    proof {
        crate::node::lemma_sequence_view(*items);
    }
    let ghost iv = crate::node::nodes_view(items@);
    proof {
        assert(map_get(mv, "tasks"@)->Sequence_0 =~= iv);
    }
    let mut out: Vec<String> = Vec::new();
    let mut i: usize = 0;
    let n = items.len();
    while i < n
        invariant
            i <= n,
            items@.len() == n,
            crate::node::nodes_view(items@) == iv,
            out@.len() == i as int,
            forall|j: int| 0 <= j < i as int ==> (#[trigger] iv[j]) is Str,
            forall|j: int|
                0 <= j < i as int ==> (#[trigger] out@[j])@ == iv[j]->Str_0,
        decreases n - i,
    {
        proof {
            assert(iv[i as int] == items@[i as int]@);
        }
        match items[i].as_str() {
            Some(s) => {
                out.push(s.clone());
            },
            None => {
                proof {
                    assert(!crate::normalize::all_str(iv));
                }
                return None;
            },
        }
        i = i + 1;
    }
    proof {
        assert(crate::normalize::all_str(iv));
        assert(out@.map_values(|s: String| s@) =~= tasks_strings(mv));
    }
    Some(out)
}

fn read_in_dir(m: &Entries) -> (r: Option<String>)
    ensures
        match r {
            Some(s) => map_has(entries_view(m@), "in"@) && map_get(entries_view(m@), "in"@)
                == NodeV::Str(s@),
            None => !(map_has(entries_view(m@), "in"@) && map_get(entries_view(m@), "in"@)
                is Str),
        },
{
    match crate::node::entries_get(m, "in") {
        Some(ConfigNode::Str(s)) => Some(s.clone()),
        _ => None,
    }
}

impl CommandScope {
    /// Fold one canonical scope mapping into the accumulator: `variables`
    /// overwrite by name, `in`/`-in` set or clear the working directory,
    /// `pre`/`post` append task groups (`-pre`/`-post` clear them), and a
    /// tasks-bearing mapping sets the command itself.
    #[verifier::loop_isolation(false)]
    pub fn accumulate_from_mapping(&mut self, mapping: &Entries)
        ensures
            final(self)@ == acc_fold(old(self)@, entries_view(mapping@)),
    {
        let ghost s0 = self@;
        let ghost mv = entries_view(mapping@);
        let mut i: usize = 0;
        let n = mapping.len();
        proof {
            assert(mv.skip(0) =~= mv);
        }
        while i < n
            invariant
                i <= n,
                mapping@.len() == n,
                entries_view(mapping@) == mv,
                acc_fold(self@, mv.skip(i as int)) == acc_fold(s0, mv),
            decreases n - i,
        {
            let ghost cur = self@;
            proof {
                assert(mv.skip(i as int)[0] == mv[i as int]);
                assert(mv.skip(i as int).drop_first() =~= mv.skip(i as int + 1));
            }
            let k = &mapping[i].0;
            let v = &mapping[i].1;
            proof {
                assert(mv[i as int] == (k@, v@));
            }
            if crate::strutil::str_eq(k.as_str(), "variables") {
                match v {
                    ConfigNode::Mapping(ventries) => {
                        proof {
                            crate::node::lemma_mapping_view(*ventries);
                        }
                        self.fold_variables(ventries);
                    },
                    _ => {},
                }
            } else if crate::strutil::str_eq(k.as_str(), "-in") {
                self.working_dir = None;
            } else if crate::strutil::str_eq(k.as_str(), "in") {
                match v {
                    ConfigNode::Str(s) => {
                        self.working_dir = Some(s.clone());
                    },
                    _ => {},
                }
            } else if crate::strutil::str_eq(k.as_str(), "-pre") {
                self.pre_tasks = None;
            } else if crate::strutil::str_eq(k.as_str(), "-post") {
                self.post_tasks = None;
            } else if crate::strutil::str_eq(k.as_str(), "pre") || crate::strutil::str_eq(
                k.as_str(),
                "post",
            ) {
                match v {
                    ConfigNode::Mapping(gm) => {
                        proof {
                            crate::node::lemma_mapping_view(*gm);
                        }
                        let ghost gv = entries_view(gm@);
                        match read_tasks(gm) {
                            Some(ts) => {
                                let tc = TaskCollection {
                                    working_dir: read_in_dir(gm),
                                    tasks: ts,
                                    background: get_bool(gm, "background"),
                                    parallel: get_bool(gm, "parallel"),
                                };
                                proof {
                                    assert(group_tc_of(gv) == Some(tc@));
                                }
                                if crate::strutil::str_eq(k.as_str(), "pre") {
                                    let mut cur_ts = match self.pre_tasks.take() {
                                        Some(ts2) => ts2,
                                        None => Vec::new(),
                                    };
                                    let ghost curv = cur_ts@.map_values(|t: TaskCollection| t@);
                                    proof {
                                        if cur.pre_tasks is None {
                                            assert(curv =~= Seq::<TaskCollectionV>::empty());
                                        }
                                    }
                                    cur_ts.push(tc);
                                    proof {
                                        assert(cur_ts@.map_values(|t: TaskCollection| t@)
                                            =~= curv.push(group_tc_of(gv).unwrap()));
                                    }
                                    self.pre_tasks = Some(cur_ts);
                                } else {
                                    let mut cur_ts = match self.post_tasks.take() {
                                        Some(ts2) => ts2,
                                        None => Vec::new(),
                                    };
                                    let ghost curv = cur_ts@.map_values(|t: TaskCollection| t@);
                                    proof {
                                        if cur.post_tasks is None {
                                            assert(curv =~= Seq::<TaskCollectionV>::empty());
                                        }
                                    }
                                    cur_ts.push(tc);
                                    proof {
                                        assert(cur_ts@.map_values(|t: TaskCollection| t@)
                                            =~= curv.push(group_tc_of(gv).unwrap()));
                                    }
                                    self.post_tasks = Some(cur_ts);
                                }
                            },
                            None => {},
                        }
                    },
                    _ => {},
                }
            } else {
                match v {
                    ConfigNode::Mapping(cm) => {
                        proof {
                            crate::node::lemma_mapping_view(*cm);
                        }
                        if crate::node::entries_contains(cm, "tasks") {
                            let ghost cv = entries_view(cm@);
                            match read_tasks(cm) {
                                Some(ts) => {
                                    if crate::node::entries_contains(cm, "-in") {
                                        self.command.working_dir = None;
                                    } else {
                                        match read_in_dir(cm) {
                                            Some(s) => {
                                                self.command.working_dir = Some(s);
                                            },
                                            None => {},
                                        }
                                    }
                                    self.command.tasks = ts;
                                    if crate::node::entries_contains(cm, "-background") {
                                        self.command.background = false;
                                    } else {
                                        match crate::node::entries_get(cm, "background") {
                                            Some(ConfigNode::Bool(b)) => {
                                                self.command.background = *b;
                                            },
                                            _ => {},
                                        }
                                    }
                                    if crate::node::entries_contains(cm, "-parallel") {
                                        self.command.parallel = false;
                                    } else {
                                        match crate::node::entries_get(cm, "parallel") {
                                            Some(ConfigNode::Bool(b)) => {
                                                self.command.parallel = *b;
                                            },
                                            _ => {},
                                        }
                                    }
                                    proof {
                                        assert(self@.command == command_updated(
                                            cur.command,
                                            cv,
                                        ));
                                    }
                                },
                                None => {},
                            }
                        }
                    },
                    _ => {},
                }
            }
            proof {
                assert(self@ == acc_step(cur, mv[i as int].0, mv[i as int].1));
            }
            i = i + 1;
        }
        proof {
            assert(mv.skip(n as int).len() == 0);
        }
    }

    /// Fold a canonical variables mapping in, deepest wins by name.
    #[verifier::loop_isolation(false)]
    fn fold_variables(&mut self, ventries: &Entries)
        ensures
            final(self)@ == (CommandScopeV {
                variables: vars_folded(old(self)@.variables, entries_view(ventries@)),
                ..old(self)@
            }),
    {
        let ghost s0 = self@;
        let ghost vv = entries_view(ventries@);
        let mut i: usize = 0;
        let n = ventries.len();
        proof {
            assert(vv.skip(0) =~= vv);
        }
        while i < n
            invariant
                i <= n,
                ventries@.len() == n,
                entries_view(ventries@) == vv,
                self@ == (CommandScopeV {
                    variables: self@.variables,
                    ..s0
                }),
                vars_folded(self@.variables, vv.skip(i as int)) == vars_folded(
                    s0.variables,
                    vv,
                ),
            decreases n - i,
        {
            let ghost curv = self@.variables;
            proof {
                assert(vv.skip(i as int)[0] == vv[i as int]);
                assert(vv.skip(i as int).drop_first() =~= vv.skip(i as int + 1));
                assert(vv[i as int] == (ventries@[i as int].0@, ventries@[i as int].1@));
            }
            match &ventries[i].1 {
                ConfigNode::Mapping(inner) => {
                    proof {
                        crate::node::lemma_mapping_view(*inner);
                    }
                    match crate::node::entries_get(inner, "value") {
                        Some(value_node) => {
                            let owned = value_node.deep_clone();
                            crate::node::entries_insert(
                                &mut self.variables,
                                ventries[i].0.clone(),
                                owned,
                            );
                        },
                        None => {},
                    }
                },
                _ => {},
            }
            i = i + 1;
        }
        proof {
            assert(vv.skip(n as int).len() == 0);
        }
    }
}

} // verus!
