//! The load orchestrator: expand the whole document, desugar the commands
//! tree (shorthand may survive expansion, since expansion synthesizes
//! structure), auto-capture workspaces from the discovered subdirectories,
//! then desugar the commands tree once more as a safety net. Any step's
//! failure aborts the whole load.

use crate::autocapture::capture_fold;
use crate::desugar::desugar_rel;
use crate::node::picked;
use crate::errors::{ConfigError, ErrorKind};
use crate::expand::root_rel;
use crate::node::{
    entries_view, map_get, map_has, map_set, ConfigNode, Entries, NodeV,
};
use vstd::prelude::*;

verus! {

/// One desugar pass over the document's `commands` mapping; a document
/// without a commands mapping is untouched.
pub open spec fn commands_pass(
    e: Seq<(Seq<char>, NodeV)>,
    r: Result<Seq<(Seq<char>, NodeV)>, ErrorKind>,
    fuel: nat,
) -> bool {
    if map_has(e, "commands"@) && map_get(e, "commands"@) is Mapping {
        let cm = map_get(e, "commands"@)->Mapping_0;
        match r {
            Ok(out) => exists|c2: Seq<(Seq<char>, NodeV)>|
                #[trigger] picked(c2) && desugar_rel(cm, Ok(c2), fuel) && out == map_set(
                    e,
                    "commands"@,
                    NodeV::Mapping(c2),
                ),
            Err(k) => desugar_rel(cm, Err::<Seq<(Seq<char>, NodeV)>, ErrorKind>(k), fuel),
        }
    } else {
        r == Ok::<Seq<(Seq<char>, NodeV)>, ErrorKind>(e)
    }
}

/// The auto-capture pass over the document's `workspaces` mapping; it
/// cannot fail.
pub open spec fn workspaces_pass(
    e: Seq<(Seq<char>, NodeV)>,
    subs: Seq<(Seq<char>, Seq<char>)>,
) -> Seq<(Seq<char>, NodeV)> {
    if map_has(e, "workspaces"@) && map_get(e, "workspaces"@) is Mapping {
        map_set(
            e,
            "workspaces"@,
            NodeV::Mapping(capture_fold(map_get(e, "workspaces"@)->Mapping_0, subs)),
        )
    } else {
        e
    }
}

/// How the whole load may answer: expansion, a commands desugar pass,
/// auto-capture, and a second desugar pass, in that order.
pub open spec fn load_rel(
    e0: Seq<(Seq<char>, NodeV)>,
    subs: Seq<(Seq<char>, Seq<char>)>,
    r: Result<Seq<(Seq<char>, NodeV)>, ErrorKind>,
    fuel: nat,
) -> bool {
    match r {
        Ok(out) => exists|e1: Seq<(Seq<char>, NodeV)>, e2: Seq<(Seq<char>, NodeV)>|
            #[trigger] picked((e1, e2)) && root_rel(e0, Ok(e1), fuel) && commands_pass(
                e1,
                Ok(e2),
                fuel,
            ) && commands_pass(workspaces_pass(e2, subs), Ok(out), fuel),
        Err(k) => root_rel(e0, Err::<Seq<(Seq<char>, NodeV)>, ErrorKind>(k), fuel) || (exists|
            e1: Seq<(Seq<char>, NodeV)>,
        |
            #[trigger] picked(e1) && root_rel(e0, Ok(e1), fuel) && (commands_pass(
                e1,
                Err::<Seq<(Seq<char>, NodeV)>, ErrorKind>(k),
                fuel,
            ) || (exists|e2: Seq<(Seq<char>, NodeV)>|
                #[trigger] picked(e2) && commands_pass(e1, Ok(e2), fuel) && commands_pass(
                    workspaces_pass(e2, subs),
                    Err::<Seq<(Seq<char>, NodeV)>, ErrorKind>(k),
                    fuel,
                )))),
    }
}

/// One desugar pass over the document's commands mapping.
fn desugar_commands(config: &mut Entries) -> (r: Result<(), ConfigError>)
    ensures
        match r {
            Ok(_) => commands_pass(
                entries_view(old(config)@),
                Ok(entries_view(final(config)@)),
                u64::MAX as nat,
            ),
            Err(e) => commands_pass(entries_view(old(config)@), Err(e.kind), u64::MAX as nat),
        },
{
    let ghost e0 = entries_view(config@);
    let idx = match crate::node::entries_find(config, "commands") {
        Some(idx) => idx,
        None => {
            proof {
                crate::node::lemma_key_index(e0, "commands"@);
            }
            return Ok(());
        },
    };
    proof {
        crate::node::lemma_key_index(e0, "commands"@);
        assert(e0[idx as int].0 == "commands"@);
        assert(map_get(e0, "commands"@) == e0[idx as int].1);
    }
    let pair = config.remove(idx);
    match pair.1 {
        ConfigNode::Mapping(mut cm) => {
            proof {
                crate::node::lemma_mapping_view(cm);
            }
            match crate::desugar::desugar_mapping("commands", &mut cm) {
                Ok(_) => {
                    let ghost c2 = entries_view(cm@);
                    proof {
                        crate::node::lemma_mapping_view(cm);
                        assert(picked(c2));
                    }
                    config.insert(idx, (pair.0, ConfigNode::Mapping(cm)));
                    proof {
                        assert(entries_view(config@) =~= map_set(
                            e0,
                            "commands"@,
                            NodeV::Mapping(c2),
                        ));
                    }
                    Ok(())
                },
                Err(e) => Err(e),
            }
        },
        other => {
            config.insert(idx, (pair.0, other));
            proof {
                assert(entries_view(config@) =~= e0);
            }
            Ok(())
        },
    }
}

/// Run the whole canonicalization pipeline over a loaded document. The
/// discovered subdirectories of the document's directory come in as plain
/// name/path pairs.
pub fn process_project_config(
    config_dir: &str,
    config: &mut Entries,
    subdirs: &Vec<(String, String)>,
) -> (r: Result<(), ConfigError>)
    ensures
        match r {
            Ok(_) => load_rel(
                entries_view(old(config)@),
                subdirs@.map_values(|d: (String, String)| (d.0@, d.1@)),
                Ok(entries_view(final(config)@)),
                u64::MAX as nat,
            ),
            Err(e) => load_rel(
                entries_view(old(config)@),
                subdirs@.map_values(|d: (String, String)| (d.0@, d.1@)),
                Err(e.kind),
                u64::MAX as nat,
            ),
        },
{
    let ghost e0 = entries_view(config@);
    let ghost subs = subdirs@.map_values(|d: (String, String)| (d.0@, d.1@));
    match crate::expand::expand_project_config(config_dir, config) {
        Ok(_) => {},
        Err(e) => {
            return Err(e);
        },
    }
    let ghost e1 = entries_view(config@);
    match desugar_commands(config) {
        Ok(_) => {},
        Err(e) => {
            proof {
                assert(picked(e1));
            }
            return Err(e);
        },
    }
    let ghost e2 = entries_view(config@);
    let ghost w0 = entries_view(config@);
    let idx = match crate::node::entries_find(config, "workspaces") {
        Some(idx) => Some(idx),
        None => {
            proof {
                crate::node::lemma_key_index(w0, "workspaces"@);
            }
            None
        },
    };
    match idx {
        Some(idx) => {
            proof {
                crate::node::lemma_key_index(w0, "workspaces"@);
                assert(w0[idx as int].0 == "workspaces"@);
            }
            let pair = config.remove(idx);
            match pair.1 {
                ConfigNode::Mapping(mut ws) => {
                    proof {
                        crate::node::lemma_mapping_view(ws);
                    }
                    match crate::autocapture::auto_capture_workspaces(
                        "workspaces",
                        &mut ws,
                        subdirs,
                    ) {
                        Ok(_) => {},
                        Err(e) => {
                            proof {
                                assert(false);
                            }
                            return Err(e);
                        },
                    }
                    let ghost wsv = entries_view(ws@);
                    proof {
                        crate::node::lemma_mapping_view(ws);
                    }
                    config.insert(idx, (pair.0, ConfigNode::Mapping(ws)));
                    proof {
                        assert(entries_view(config@) =~= map_set(
                            w0,
                            "workspaces"@,
                            NodeV::Mapping(wsv),
                        ));
                    }
                },
                other => {
                    config.insert(idx, (pair.0, other));
                    proof {
                        assert(entries_view(config@) =~= w0);
                    }
                },
            }
        },
        None => {},
    }
    proof {
        assert(entries_view(config@) == workspaces_pass(e2, subs));
    }
    match desugar_commands(config) {
        Ok(_) => {},
        Err(e) => {
            proof {
                assert(picked(e1));
                assert(picked(e2));
            }
            return Err(e);
        },
    }
    proof {
        assert(picked((e1, e2)));
    }
    Ok(())
}

} // verus!
