//! Workspace auto-capture: the immediate, non-dot-prefixed subdirectories
//! of the working directory become workspaces, unless their name or path
//! already stands in the user's own entries. Purely additive; conflicting
//! candidates are skipped, never merged.

use crate::errors::ConfigError;
use crate::node::{entries_view, map_has, map_set, ConfigNode, Entries, NodeV};
use crate::strutil;
use vstd::prelude::*;

verus! {

/// Some workspace value is exactly the string `p`.
pub open spec fn has_value_str(e: Seq<(Seq<char>, NodeV)>, p: Seq<char>) -> bool {
    exists|i: int| 0 <= i < e.len() && (#[trigger] e[i]).1 == NodeV::Str(p)
}

/// One discovered subdirectory folded in: dot-prefixed names are skipped,
/// spaces in the name become dashes, and a candidate whose name or path is
/// already present is dropped.
pub open spec fn capture_step(e: Seq<(Seq<char>, NodeV)>, name: Seq<char>, p: Seq<char>) -> Seq<
    (Seq<char>, NodeV),
> {
    if name.len() > 0 && name[0] == '.' {
        e
    } else {
        let fixed = strutil::replace_sub(name, " "@, "-"@);
        if map_has(e, fixed) || has_value_str(e, p) {
            e
        } else {
            map_set(e, fixed, NodeV::Str(p))
        }
    }
}

pub open spec fn capture_fold(
    e: Seq<(Seq<char>, NodeV)>,
    subs: Seq<(Seq<char>, Seq<char>)>,
) -> Seq<(Seq<char>, NodeV)>
    decreases subs.len(),
{
    if subs.len() == 0 {
        e
    } else {
        capture_fold(capture_step(e, subs[0].0, subs[0].1), subs.drop_first())
    }
}

/// Whether any workspace value is exactly the string `p`.
#[verifier::loop_isolation(false)]
fn values_contain(ws: &Entries, p: &str) -> (r: bool)
    ensures
        r == has_value_str(entries_view(ws@), p@),
{
    let ghost ev = entries_view(ws@);
    let mut i: usize = 0;
    while i < ws.len()
        invariant
            i <= ws.len(),
            forall|j: int| 0 <= j < i as int ==> (#[trigger] ev[j]).1 != NodeV::Str(p@),
        decreases ws.len() - i,
    {
        match ws[i].1.as_str() {
            Some(s) => {
                if strutil::str_eq(s.as_str(), p) {
                    proof {
                        assert(ev[i as int].1 == NodeV::Str(p@));
                    }
                    return true;
                }
            },
            None => {},
        }
        proof {
            assert(ev[i as int].1 != NodeV::Str(p@));
        }
        i = i + 1;
    }
    false
}

/// Add every discovered subdirectory that conflicts with nothing already
/// authored.
#[verifier::loop_isolation(false)]
pub fn auto_capture_workspaces(
    path: &str,
    workspaces: &mut Entries,
    subdirs: &Vec<(String, String)>,
) -> (r: Result<(), ConfigError>)
    ensures
        r is Ok,
        entries_view(final(workspaces)@) == capture_fold(
            entries_view(old(workspaces)@),
            subdirs@.map_values(|d: (String, String)| (d.0@, d.1@)),
        ),
{
    let ghost w0 = entries_view(old(workspaces)@);
    let ghost sv = subdirs@.map_values(|d: (String, String)| (d.0@, d.1@));
    let mut i: usize = 0;
    let n = subdirs.len();
    proof {
        assert(sv.skip(0) =~= sv);
    }
    while i < n
        invariant
            i <= n,
            subdirs@.len() == n,
            capture_fold(entries_view(workspaces@), sv.skip(i as int)) == capture_fold(w0, sv),
        decreases n - i,
    {
        let ghost cur = entries_view(workspaces@);
        proof {
            assert(sv.skip(i as int)[0] == sv[i as int]);
            assert(sv.skip(i as int).drop_first() =~= sv.skip(i as int + 1));
            assert(sv[i as int] == (subdirs@[i as int].0@, subdirs@[i as int].1@));
        }
        let name = &subdirs[i].0;
        let p = &subdirs[i].1;
        if !strutil::first_char_is(name.as_str(), '.') {
            proof {
                reveal_strlit(" ");
                reveal_strlit("-");
            }
            let fixed = strutil::replace_substr(name.as_str(), " ", "-");
            if !crate::node::entries_contains(workspaces, fixed.as_str()) && !values_contain(
                workspaces,
                p.as_str(),
            ) {
                crate::node::entries_insert(
                    workspaces,
                    fixed,
                    ConfigNode::Str(p.clone()),
                );
            }
        }
        i = i + 1;
    }
    proof {
        assert(sv.skip(n as int).len() == 0);
    }
    Ok(())
}

} // verus!
