//! The key desugarer: rewrites every authored key of a mapping to its base
//! key, soft-merging the key's shorthand properties into its value, depth
//! first through the whole tree. The rewrite carries a depth budget, since
//! shorthand properties synthesize new structure of unbounded depth.

use crate::errors::{ConfigError, ErrorKind};
use crate::node::{
    entries_view, map_del, map_get, map_has, map_set, picked, soft_merge_v, ConfigNode, Entries,
    NodeV,
};
use crate::normalize::{base_key_of, normalized_key};
use crate::strutil;
use vstd::prelude::*;
use vstd::string::StrSliceExecFns;
use vstd::string::StringExecFns;

verus! {

/// The keys of a mapping, in order.
pub open spec fn keys_of(e: Seq<(Seq<char>, NodeV)>) -> Seq<Seq<char>> {
    Seq::new(e.len(), |i: int| e[i].0)
}

// ---------------------------------------------------------------------------
// How desugaring may answer, key by key.
// ---------------------------------------------------------------------------

/// Every sequence element desugared in place: mappings recursively, other
/// elements untouched.
pub open spec fn elems_ok(items: Seq<NodeV>, out: Seq<NodeV>, fuel: nat) -> bool
    decreases fuel, 0int, 0int,
{
    if fuel == 0 {
        false
    } else {
        out.len() == items.len() && forall|j: int|
        0 <= j < items.len() ==> (if (#[trigger] items[j]) is Mapping {
            out[j] is Mapping && desugar_rel(
                items[j]->Mapping_0,
                Ok(out[j]->Mapping_0),
                (fuel - 1) as nat,
            )
        } else {
            out[j] == items[j]
        })
    }
}

/// How one plain key's value may desugar: a mapping recursively, a sequence
/// element by element, anything else untouched.
pub open spec fn val_rel(v: NodeV, r0: Result<NodeV, ErrorKind>, fuel: nat) -> bool
    decreases fuel, 1int, 0int,
{
    if fuel == 0 {
        r0 == Err::<NodeV, ErrorKind>(ErrorKind::DepthExceeded)
    } else {
        match v {
            NodeV::Mapping(me) => match r0 {
                Ok(n) => n is Mapping && desugar_rel(me, Ok(n->Mapping_0), (fuel - 1) as nat),
                Err(k2) => desugar_rel(
                    me,
                    Err::<Seq<(Seq<char>, NodeV)>, ErrorKind>(k2),
                    (fuel - 1) as nat,
                ),
            },
            NodeV::Sequence(items) => match r0 {
                Ok(n) => n is Sequence && elems_ok(items, n->Sequence_0, fuel),
                Err(k2) => exists|j: int|
                    #[trigger] picked(j) && 0 <= j < items.len() && items[j] is Mapping
                        && desugar_rel(
                        items[j]->Mapping_0,
                        Err::<Seq<(Seq<char>, NodeV)>, ErrorKind>(k2),
                        (fuel - 1) as nat,
                    ),
            },
            _ => r0 == Ok::<NodeV, ErrorKind>(v),
        }
    }
}

/// Every sequence element soft-merged with the shorthand properties and
/// desugared; a non-mapping element cannot take the merge.
pub open spec fn merge_elems_ok(
    items: Seq<NodeV>,
    px: Seq<(Seq<char>, NodeV)>,
    out: Seq<NodeV>,
    fuel: nat,
) -> bool
    decreases fuel, 0int, 0int,
{
    if fuel == 0 {
        false
    } else {
        out.len() == items.len() && forall|j: int|
        0 <= j < items.len() ==> (#[trigger] items[j]) is Mapping && out[j] is Mapping
            && desugar_rel(
            soft_merge_v(items[j]->Mapping_0, px),
            Ok(out[j]->Mapping_0),
            (fuel - 1) as nat,
        )
    }
}

/// How a shorthand key's value may desugar: the expanded properties
/// soft-merge into it (a mapping directly, a sequence per element), then it
/// desugars; a scalar cannot take the merge.
pub open spec fn merge_rel(
    v: NodeV,
    px: Seq<(Seq<char>, NodeV)>,
    r0: Result<NodeV, ErrorKind>,
    fuel: nat,
) -> bool
    decreases fuel, 1int, 0int,
{
    if fuel == 0 {
        r0 == Err::<NodeV, ErrorKind>(ErrorKind::DepthExceeded)
    } else {
        match v {
            NodeV::Mapping(me) => match r0 {
                Ok(n) => n is Mapping && desugar_rel(
                    soft_merge_v(me, px),
                    Ok(n->Mapping_0),
                    (fuel - 1) as nat,
                ),
                Err(k2) => desugar_rel(
                    soft_merge_v(me, px),
                    Err::<Seq<(Seq<char>, NodeV)>, ErrorKind>(k2),
                    (fuel - 1) as nat,
                ),
            },
            NodeV::Sequence(items) => match r0 {
                Ok(n) => n is Sequence && merge_elems_ok(items, px, n->Sequence_0, fuel),
                Err(k2) => (exists|j: int|
                    #[trigger] picked(j) && 0 <= j < items.len() && (if items[j] is Mapping {
                        desugar_rel(
                            soft_merge_v(items[j]->Mapping_0, px),
                            Err::<Seq<(Seq<char>, NodeV)>, ErrorKind>(k2),
                            (fuel - 1) as nat,
                        )
                    } else {
                        k2 == ErrorKind::MergeTarget
                    })),
            },
            _ => r0 == Err::<NodeV, ErrorKind>(ErrorKind::MergeTarget),
        }
    }
}

/// One key handled against the accumulator, its shorthand properties
/// already expanded to `px`.
pub open spec fn step_rel(
    keys: Seq<Seq<char>>,
    acc: Seq<(Seq<char>, NodeV)>,
    base: Seq<char>,
    px: Seq<(Seq<char>, NodeV)>,
    r: Result<Seq<(Seq<char>, NodeV)>, ErrorKind>,
    fuel: nat,
) -> bool
    decreases fuel, 2int, 0int,
{
    if fuel == 0 {
        r == Err::<Seq<(Seq<char>, NodeV)>, ErrorKind>(ErrorKind::DepthExceeded)
    } else {
        let key = keys[0];
        if !map_has(acc, key) {
            keys_rel(keys.drop_first(), acc, r, (fuel - 1) as nat)
        } else if base == key {
            (match r {
                Err(k2) => val_rel(
                    map_get(acc, key),
                    Err::<NodeV, ErrorKind>(k2),
                    (fuel - 1) as nat,
                ),
                Ok(_) => false,
            }) || (exists|v2: NodeV|
                #[trigger] picked(v2) && val_rel(map_get(acc, key), Ok(v2), (fuel - 1) as nat)
                    && keys_rel(keys.drop_first(), map_set(acc, key, v2), r, (fuel - 1) as nat))
        } else {
            (match r {
                Err(k2) => merge_rel(
                    map_get(acc, key),
                    px,
                    Err::<NodeV, ErrorKind>(k2),
                    (fuel - 1) as nat,
                ),
                Ok(_) => false,
            }) || (exists|v2: NodeV|
                #[trigger] picked(v2) && merge_rel(map_get(acc, key), px, Ok(v2), (fuel - 1) as nat)
                    && keys_rel(
                    keys.drop_first(),
                    map_set(map_del(acc, key), base, v2),
                    r,
                    (fuel - 1) as nat,
                ))
        }
    }
}

/// The fold over the snapshot of authored keys: each key normalizes and is
/// rewritten against the evolving accumulator.
pub open spec fn keys_rel(
    keys: Seq<Seq<char>>,
    acc: Seq<(Seq<char>, NodeV)>,
    r: Result<Seq<(Seq<char>, NodeV)>, ErrorKind>,
    fuel: nat,
) -> bool
    decreases fuel, 3int, 0int,
{
    if fuel == 0 {
        r == Err::<Seq<(Seq<char>, NodeV)>, ErrorKind>(ErrorKind::DepthExceeded)
    } else if keys.len() == 0 {
        r == Ok::<Seq<(Seq<char>, NodeV)>, ErrorKind>(acc)
    } else {
        match normalized_key(keys[0]) {
            Err(k) => r == Err::<Seq<(Seq<char>, NodeV)>, ErrorKind>(k),
            Ok(bp) => step_rel(keys, acc, bp.0, bp.1, r, (fuel - 1) as nat),
        }
    }
}

/// How a whole mapping may desugar.
pub open spec fn desugar_rel(
    e: Seq<(Seq<char>, NodeV)>,
    r: Result<Seq<(Seq<char>, NodeV)>, ErrorKind>,
    fuel: nat,
) -> bool
    decreases fuel, 4int, 0int,
{
    keys_rel(keys_of(e), e, r, fuel)
}

/// The base of `key`: the `!` prefix stripped when `allow_implicit_scope`,
/// then everything before the first `?`.
pub fn get_base_key(key: &str, allow_implicit_scope: bool) -> (r: &str)
    ensures
        r@ == base_key_of(key@, allow_implicit_scope),
{
    let n = key.unicode_len();
    let stripped: &str = if allow_implicit_scope && strutil::first_char_is(key, '!') {
        let sub = key.substring_char(1, n);
        proof {
            assert(sub@ =~= key@.drop_first());
        }
        sub
    } else {
        key
    };
    proof {
        strutil::lemma_split_on_first(stripped@, '?');
    }
    match strutil::find_char(stripped, '?') {
        None => stripped,
        Some(i) => {
            let r = stripped.substring_char(0, i);
            proof {
                assert(r@ =~= stripped@.take(i as int));
            }
            r
        },
    }
}

// ---------------------------------------------------------------------------
// The desugarer.
// ---------------------------------------------------------------------------

/// The snapshot of a mapping's keys.
#[verifier::loop_isolation(false)]
fn collect_keys(m: &Entries) -> (r: Vec<String>)
    ensures
        r@.map_values(|s: String| s@) == keys_of(entries_view(m@)),
{
    let mut out: Vec<String> = Vec::new();
    let mut i: usize = 0;
    while i < m.len()
        invariant
            i <= m.len(),
            out@.len() == i as int,
            forall|j: int| 0 <= j < i as int ==> (#[trigger] out@[j])@ == entries_view(m@)[j].0,
        decreases m.len() - i,
    {
        out.push(m[i].0.clone());
        i = i + 1;
    }
    proof {
        assert(out@.map_values(|s: String| s@) =~= keys_of(entries_view(m@)));
    }
    out
}

/// Desugar one plain key's value.
#[verifier::loop_isolation(false)]
fn desugar_value(path: &str, v: ConfigNode, fuel: u64) -> (r: Result<
    ConfigNode,
    ConfigError,
>)
    ensures
        match r {
            Ok(out) => val_rel(v@, Ok(out@), fuel as nat),
            Err(e) => val_rel(v@, Err(e.kind), fuel as nat),
        },
    decreases fuel, 0int,
{
    if fuel == 0 {
        return Err(ConfigError::new(ErrorKind::DepthExceeded, String::from_str(path)));
    }
    let ghost va = v@;
    match v {
        ConfigNode::Mapping(mut me) => {
            proof {
                crate::node::lemma_mapping_view(me);
            }
            match desugar_fueled(path, &mut me, fuel - 1) {
                Ok(_) => {
                    let out = ConfigNode::Mapping(me);
                    proof {
                        crate::node::lemma_mapping_view(out->Mapping_0);
                        assert(desugar_rel(
                            va->Mapping_0,
                            Ok(entries_view(me@)),
                            ((fuel as nat) - 1) as nat,
                        ));
                    }
                    Ok(out)
                },
                Err(e) => {
                    proof {
                        assert(desugar_rel(
                            va->Mapping_0,
                            Err::<Seq<(Seq<char>, NodeV)>, ErrorKind>(e.kind),
                            ((fuel as nat) - 1) as nat,
                        ));
                    }
                    Err(e)
                },
            }
        },
        ConfigNode::Sequence(items) => {
            let ghost iv = crate::node::nodes_view(items@);
            proof {
                crate::node::lemma_sequence_view(items);
                assert(va->Sequence_0 =~= iv);
            }
            let mut out: Vec<ConfigNode> = Vec::new();
            let mut j: usize = 0;
            let n = items.len();
            while j < n
                invariant
                    j <= n,
                    items@.len() == n,
                    crate::node::nodes_view(items@) == iv,
                    out@.len() == j as int,
                    forall|q: int|
                        0 <= q < j as int ==> (if (#[trigger] iv[q]) is Mapping {
                            crate::node::nodes_view(out@)[q] is Mapping && desugar_rel(
                                iv[q]->Mapping_0,
                                Ok(crate::node::nodes_view(out@)[q]->Mapping_0),
                                ((fuel as nat) - 1) as nat,
                            )
                        } else {
                            crate::node::nodes_view(out@)[q] == iv[q]
                        }),
                decreases n - j,
            {
                let ghost outprev = crate::node::nodes_view(out@);
                match &items[j] {
                    ConfigNode::Mapping(me) => {
                        proof {
                            crate::node::lemma_mapping_view(*me);
                        }
                        let mut copy = crate::node::entries_clone(me);
                        match desugar_fueled(path, &mut copy, fuel - 1) {
                            Ok(_) => {
                                let nn = ConfigNode::Mapping(copy);
                                proof {
                                    crate::node::lemma_mapping_view(nn->Mapping_0);
                                }
                                out.push(nn);
                            },
                            Err(e) => {
                                proof {
                                    assert(picked(j as int));
                                    assert(iv[j as int] is Mapping && desugar_rel(
                                        iv[j as int]->Mapping_0,
                                        Err::<Seq<(Seq<char>, NodeV)>, ErrorKind>(e.kind),
                                        ((fuel as nat) - 1) as nat,
                                    ));
                                }
                                return Err(e);
                            },
                        }
                    },
                    other => {
                        out.push(other.deep_clone());
                    },
                }
                proof {
                    assert(forall|q: int|
                        0 <= q < j as int ==> #[trigger] crate::node::nodes_view(out@)[q]
                            == outprev[q]);
                }
                j = j + 1;
            }
            let outn = ConfigNode::Sequence(out);
            proof {
                crate::node::lemma_sequence_view(outn->Sequence_0);
                assert(crate::node::nodes_view(outn->Sequence_0@) =~= outn@->Sequence_0);
                assert(elems_ok(iv, outn@->Sequence_0, fuel as nat));
            }
            Ok(outn)
        },
        other => Ok(other),
    }
}

/// Soft-merge the expanded shorthand properties into one value and desugar
/// the result.
#[verifier::loop_isolation(false)]
fn desugar_merge_value(path: &str, v: ConfigNode, props: &Entries, fuel: u64) -> (r: Result<ConfigNode, ConfigError>)
    ensures
        match r {
            Ok(out) => merge_rel(v@, entries_view(props@), Ok(out@), fuel as nat),
            Err(e) => merge_rel(v@, entries_view(props@), Err(e.kind), fuel as nat),
        },
    decreases fuel, 0int,
{
    if fuel == 0 {
        return Err(ConfigError::new(ErrorKind::DepthExceeded, String::from_str(path)));
    }
    let ghost va = v@;
    let ghost px = entries_view(props@);
    match v {
        ConfigNode::Mapping(mut me) => {
            proof {
                crate::node::lemma_mapping_view(me);
            }
            crate::node::soft_merge_mappings(&mut me, props);
            match desugar_fueled(path, &mut me, fuel - 1) {
                Ok(_) => {
                    let out = ConfigNode::Mapping(me);
                    proof {
                        crate::node::lemma_mapping_view(out->Mapping_0);
                        assert(desugar_rel(
                            soft_merge_v(va->Mapping_0, px),
                            Ok(entries_view(me@)),
                            ((fuel as nat) - 1) as nat,
                        ));
                    }
                    Ok(out)
                },
                Err(e) => {
                    proof {
                        assert(desugar_rel(
                            soft_merge_v(va->Mapping_0, px),
                            Err::<Seq<(Seq<char>, NodeV)>, ErrorKind>(e.kind),
                            ((fuel as nat) - 1) as nat,
                        ));
                    }
                    Err(e)
                },
            }
        },
        ConfigNode::Sequence(items) => {
            let ghost iv = crate::node::nodes_view(items@);
            proof {
                crate::node::lemma_sequence_view(items);
                assert(va->Sequence_0 =~= iv);
            }
            let mut out: Vec<ConfigNode> = Vec::new();
            let mut j: usize = 0;
            let n = items.len();
            while j < n
                invariant
                    j <= n,
                    items@.len() == n,
                    crate::node::nodes_view(items@) == iv,
                    out@.len() == j as int,
                    forall|q: int|
                        0 <= q < j as int ==> (#[trigger] iv[q]) is Mapping
                            && crate::node::nodes_view(out@)[q] is Mapping && desugar_rel(
                            soft_merge_v(iv[q]->Mapping_0, px),
                            Ok(crate::node::nodes_view(out@)[q]->Mapping_0),
                            ((fuel as nat) - 1) as nat,
                        ),
                decreases n - j,
            {
                let ghost outprev = crate::node::nodes_view(out@);
                match &items[j] {
                    ConfigNode::Mapping(me) => {
                        proof {
                            crate::node::lemma_mapping_view(*me);
                        }
                        let mut copy = crate::node::entries_clone(me);
                        crate::node::soft_merge_mappings(&mut copy, props);
                        match desugar_fueled(path, &mut copy, fuel - 1) {
                            Ok(_) => {
                                let nn = ConfigNode::Mapping(copy);
                                proof {
                                    crate::node::lemma_mapping_view(nn->Mapping_0);
                                }
                                out.push(nn);
                            },
                            Err(e) => {
                                proof {
                                    assert(picked(j as int));
                                    assert(iv[j as int] is Mapping && desugar_rel(
                                        soft_merge_v(iv[j as int]->Mapping_0, px),
                                        Err::<Seq<(Seq<char>, NodeV)>, ErrorKind>(e.kind),
                                        ((fuel as nat) - 1) as nat,
                                    ));
                                }
                                return Err(e);
                            },
                        }
                    },
                    _ => {
                        proof {
                            assert(picked(j as int));
                            assert(!(iv[j as int] is Mapping));
                        }
                        return Err(
                            ConfigError::new(ErrorKind::MergeTarget, String::from_str(path)),
                        );
                    },
                }
                proof {
                    assert(forall|q: int|
                        0 <= q < j as int ==> #[trigger] crate::node::nodes_view(out@)[q]
                            == outprev[q]);
                }
                j = j + 1;
            }
            let outn = ConfigNode::Sequence(out);
            proof {
                crate::node::lemma_sequence_view(outn->Sequence_0);
                assert(crate::node::nodes_view(outn->Sequence_0@) =~= outn@->Sequence_0);
                assert(merge_elems_ok(iv, px, outn@->Sequence_0, fuel as nat));
            }
            Ok(outn)
        },
        _ => Err(ConfigError::new(ErrorKind::MergeTarget, String::from_str(path))),
    }
}

/// Rewrite the keys of the snapshot from position `i` on, against the
/// evolving mapping.
#[verifier::rlimit(60)]
#[verifier::loop_isolation(false)]
fn desugar_keys(path: &str, keys: &Vec<String>, i: usize, acc: &mut Entries, fuel: u64) -> (r: Result<(), ConfigError>)
    requires
        i <= keys@.len(),
    ensures
        match r {
            Ok(_) => keys_rel(
                keys@.map_values(|s: String| s@).skip(i as int),
                entries_view(old(acc)@),
                Ok(entries_view(final(acc)@)),
                fuel as nat,
            ),
            Err(e) => keys_rel(
                keys@.map_values(|s: String| s@).skip(i as int),
                entries_view(old(acc)@),
                Err(e.kind),
                fuel as nat,
            ),
        },
    decreases fuel, 1int,
{
    let ghost keysv = keys@.map_values(|s: String| s@);
    let ghost acc0 = entries_view(acc@);
    if fuel == 0 {
        return Err(ConfigError::new(ErrorKind::DepthExceeded, String::from_str(path)));
    }
    if i >= keys.len() {
        proof {
            assert(keysv.skip(i as int).len() == 0);
        }
        return Ok(());
    }
    proof {
        assert(keysv.skip(i as int)[0] == keysv[i as int]);
        assert(keysv.skip(i as int).drop_first() =~= keysv.skip(i as int + 1));
        assert(keysv[i as int] == keys@[i as int]@);
    }
    let key = &keys[i];
    let (base, props) = match crate::normalize::normalize_key(key.as_str()) {
        Ok(bp) => bp,
        Err(e) => {
            return Err(e);
        },
    };
    let ghost px = entries_view(props@);
    let f1 = fuel - 1;
    if f1 == 0 {
        proof {
            assert(step_rel(
                keysv.skip(i as int),
                acc0,
                base@,
                px,
                Err::<Seq<(Seq<char>, NodeV)>, ErrorKind>(ErrorKind::DepthExceeded),
                ((fuel as nat) - 1) as nat,
            ));
        }
        return Err(ConfigError::new(ErrorKind::DepthExceeded, String::from_str(path)));
    }
    if !crate::node::entries_contains(acc, key.as_str()) {
        let r = desugar_keys(path, keys, i + 1, acc, f1 - 1);
        proof {
            match r {
                Ok(_) => {
                    assert(step_rel(
                        keysv.skip(i as int),
                        acc0,
                        base@,
                        px,
                        Ok::<Seq<(Seq<char>, NodeV)>, ErrorKind>(entries_view(acc@)),
                        ((fuel as nat) - 1) as nat,
                    ));
                },
                Err(ref e) => {
                    assert(step_rel(
                        keysv.skip(i as int),
                        acc0,
                        base@,
                        px,
                        Err::<Seq<(Seq<char>, NodeV)>, ErrorKind>(e.kind),
                        ((fuel as nat) - 1) as nat,
                    ));
                },
            }
        }
        return r;
    }
    let base_is_key = strutil::str_eq(base.as_str(), key.as_str());
    let idx = match crate::node::entries_find(acc, key.as_str()) {
        Some(idx) => idx,
        None => {
            proof {
                assert(false);
            }
            return Err(ConfigError::new(ErrorKind::DepthExceeded, String::from_str(path)));
        },
    };
    proof {
        crate::node::lemma_key_index(acc0, key@);
        assert(acc0[idx as int].0 == key@);
        assert(map_get(acc0, key@) == acc0[idx as int].1);
    }
    if base_is_key {
        let pair = acc.remove(idx);
        let nv = match desugar_value(path, pair.1, f1 - 1) {
            Ok(nv) => nv,
            Err(e) => {
                proof {
                    assert(step_rel(
                        keysv.skip(i as int),
                        acc0,
                        base@,
                        px,
                        Err::<Seq<(Seq<char>, NodeV)>, ErrorKind>(e.kind),
                        ((fuel as nat) - 1) as nat,
                    ));
                }
                return Err(e);
            },
        };
        let ghost nvv = nv@;
        acc.insert(idx, (pair.0, nv));
        proof {
            assert(entries_view(acc@) =~= map_set(acc0, key@, nvv));
            assert(picked(nvv));
        }
        let r = desugar_keys(path, keys, i + 1, acc, f1 - 1);
        proof {
            match r {
                Ok(_) => {
                    assert(keys_rel(
                        keysv.skip(i as int + 1),
                        map_set(acc0, key@, nvv),
                        Ok::<Seq<(Seq<char>, NodeV)>, ErrorKind>(entries_view(acc@)),
                        ((f1 as nat) - 1) as nat,
                    ));
                    assert(step_rel(
                        keysv.skip(i as int),
                        acc0,
                        base@,
                        px,
                        Ok::<Seq<(Seq<char>, NodeV)>, ErrorKind>(entries_view(acc@)),
                        ((fuel as nat) - 1) as nat,
                    ));
                },
                Err(ref e) => {
                    assert(step_rel(
                        keysv.skip(i as int),
                        acc0,
                        base@,
                        px,
                        Err::<Seq<(Seq<char>, NodeV)>, ErrorKind>(e.kind),
                        ((fuel as nat) - 1) as nat,
                    ));
                },
            }
        }
        r
    } else {
        let v = match crate::node::entries_remove(acc, key.as_str()) {
            Some(v) => v,
            None => {
                proof {
                    assert(false);
                }
                return Err(ConfigError::new(ErrorKind::DepthExceeded, String::from_str(path)));
            },
        };
        let ghost accdel = entries_view(acc@);
        let nv = match desugar_merge_value(path, v, &props, f1 - 1) {
            Ok(nv) => nv,
            Err(e) => {
                proof {
                    assert(step_rel(
                        keysv.skip(i as int),
                        acc0,
                        base@,
                        px,
                        Err::<Seq<(Seq<char>, NodeV)>, ErrorKind>(e.kind),
                        ((fuel as nat) - 1) as nat,
                    ));
                }
                return Err(e);
            },
        };
        let ghost nvv = nv@;
        crate::node::entries_insert(acc, base, nv);
        proof {
            assert(entries_view(acc@) == map_set(map_del(acc0, key@), base@, nvv));
            assert(picked(nvv));
        }
        let r = desugar_keys(path, keys, i + 1, acc, f1 - 1);
        proof {
            match r {
                Ok(_) => {
                    assert(step_rel(
                        keysv.skip(i as int),
                        acc0,
                        base@,
                        px,
                        Ok::<Seq<(Seq<char>, NodeV)>, ErrorKind>(entries_view(acc@)),
                        ((fuel as nat) - 1) as nat,
                    ));
                },
                Err(ref e) => {
                    assert(step_rel(
                        keysv.skip(i as int),
                        acc0,
                        base@,
                        px,
                        Err::<Seq<(Seq<char>, NodeV)>, ErrorKind>(e.kind),
                        ((fuel as nat) - 1) as nat,
                    ));
                },
            }
        }
        r
    }
}

/// Desugar one mapping with an explicit depth budget.
pub(crate) fn desugar_fueled(path: &str, mapping: &mut Entries, fuel: u64) -> (r: Result<(), ConfigError>)
    ensures
        match r {
            Ok(_) => desugar_rel(
                entries_view(old(mapping)@),
                Ok(entries_view(final(mapping)@)),
                fuel as nat,
            ),
            Err(e) => desugar_rel(entries_view(old(mapping)@), Err(e.kind), fuel as nat),
        },
    decreases fuel, 2int,
{
    let keys = collect_keys(mapping);
    proof {
        assert(keys@.map_values(|s: String| s@).skip(0) =~= keys_of(entries_view(mapping@)));
    }
    desugar_keys(path, &keys, 0, mapping, fuel)
}

/// Desugar every authored key of a mapping, depth first: each key's
/// shorthand properties soft-merge into its value and the entry is
/// reinserted under its base key.
pub fn desugar_mapping(path: &str, mapping: &mut Entries) -> (r: Result<(), ConfigError>)
    ensures
        match r {
            Ok(_) => desugar_rel(
                entries_view(old(mapping)@),
                Ok(entries_view(final(mapping)@)),
                u64::MAX as nat,
            ),
            Err(e) => desugar_rel(entries_view(old(mapping)@), Err(e.kind), u64::MAX as nat),
        },
{
    desugar_fueled(path, mapping, u64::MAX)
}

// ---------------------------------------------------------------------------
// Desugaring an already-canonical tree is a no-op.
// ---------------------------------------------------------------------------

/// A key free of authoring sugar: normalizing it yields the key itself with
/// no shorthand properties.
pub open spec fn plain_key(k: Seq<char>) -> bool {
    normalized_key(k) == Ok::<(Seq<char>, Seq<(Seq<char>, NodeV)>), ErrorKind>(
        (k, Seq::empty()),
    )
}

/// A node free of authoring sugar: every mapping key is plain, recursively,
/// through mappings and the mapping elements of sequences.
pub open spec fn canonical_node(v: NodeV) -> bool
    decreases v,
{
    match v {
        NodeV::Mapping(me) => forall|i: int|
            0 <= i < me.len() ==> plain_key((#[trigger] me[i]).0) && canonical_node(me[i].1),
        NodeV::Sequence(items) => forall|i: int|
            0 <= i < items.len() ==> ((#[trigger] items[i]) is Mapping ==> canonical_node(
                items[i],
            )),
        _ => true,
    }
}

pub open spec fn canonical_entries(e: Seq<(Seq<char>, NodeV)>) -> bool {
    canonical_node(NodeV::Mapping(e))
}

/// On a canonical value, the value rewrite can only hand the value back (or
/// run out of budget).
proof fn lemma_val_id(v: NodeV, r0: Result<NodeV, ErrorKind>, fuel: nat)
    requires
        canonical_node(v),
        val_rel(v, r0, fuel),
    ensures
        r0 == Ok::<NodeV, ErrorKind>(v) || r0 == Err::<NodeV, ErrorKind>(
            ErrorKind::DepthExceeded,
        ),
    decreases fuel, 0int,
{
    if fuel == 0 {
    } else {
        match v {
            NodeV::Mapping(me) => {
                match r0 {
                    Ok(n) => {
                        lemma_desugar_id(me, Ok(n->Mapping_0), (fuel - 1) as nat);
                        if Ok::<Seq<(Seq<char>, NodeV)>, ErrorKind>(n->Mapping_0) == Err::<
                            Seq<(Seq<char>, NodeV)>,
                            ErrorKind,
                        >(ErrorKind::DepthExceeded) {
                            assert(false);
                        }
                        assert(n == v);
                    },
                    Err(k2) => {
                        lemma_desugar_id(
                            me,
                            Err::<Seq<(Seq<char>, NodeV)>, ErrorKind>(k2),
                            (fuel - 1) as nat,
                        );
                    },
                }
            },
            NodeV::Sequence(items) => {
                match r0 {
                    Ok(n) => {
                        assert forall|j: int| 0 <= j < items.len() implies n->Sequence_0[j]
                            == items[j] by {
                            if items[j] is Mapping {
                                lemma_desugar_id(
                                    items[j]->Mapping_0,
                                    Ok(n->Sequence_0[j]->Mapping_0),
                                    (fuel - 1) as nat,
                                );
                                assert(n->Sequence_0[j] is Mapping);
                                assert(n->Sequence_0[j]->Mapping_0 == items[j]->Mapping_0);
                            }
                        }
                        assert(n->Sequence_0 =~= items);
                        assert(n == v);
                    },
                    Err(k2) => {
                        let j = choose|j: int|
                            #[trigger] picked(j) && 0 <= j < items.len() && items[j] is Mapping
                                && desugar_rel(
                                items[j]->Mapping_0,
                                Err::<Seq<(Seq<char>, NodeV)>, ErrorKind>(k2),
                                (fuel - 1) as nat,
                            );
                        lemma_desugar_id(
                            items[j]->Mapping_0,
                            Err::<Seq<(Seq<char>, NodeV)>, ErrorKind>(k2),
                            (fuel - 1) as nat,
                        );
                    },
                }
            },
            _ => {},
        }
    }
}

/// On plain keys over a canonical accumulator, the key fold can only hand
/// the accumulator back (or run out of budget).
proof fn lemma_keys_id(
    keys: Seq<Seq<char>>,
    acc: Seq<(Seq<char>, NodeV)>,
    r: Result<Seq<(Seq<char>, NodeV)>, ErrorKind>,
    fuel: nat,
)
    requires
        forall|i: int| 0 <= i < keys.len() ==> plain_key(#[trigger] keys[i]),
        canonical_entries(acc),
        keys_rel(keys, acc, r, fuel),
    ensures
        r == Ok::<Seq<(Seq<char>, NodeV)>, ErrorKind>(acc) || r == Err::<
            Seq<(Seq<char>, NodeV)>,
            ErrorKind,
        >(ErrorKind::DepthExceeded),
    decreases fuel, 1int,
{
    if fuel == 0 || keys.len() == 0 {
    } else {
        let key = keys[0];
        assert(plain_key(key));
        let f1 = (fuel - 1) as nat;
        if f1 == 0 {
        } else if !map_has(acc, key) {
            lemma_keys_id(keys.drop_first(), acc, r, (f1 - 1) as nat);
        } else {
            crate::node::lemma_key_index(acc, key);
            let ki = crate::node::key_index(acc, key);
            assert(canonical_node(acc[ki].1)) by {
                assert((NodeV::Mapping(acc))->Mapping_0[ki] == acc[ki]);
            }
            assert(map_get(acc, key) == acc[ki].1);
            if (match r {
                Err(k2) => val_rel(map_get(acc, key), Err::<NodeV, ErrorKind>(k2), (f1 - 1) as nat),
                Ok(_) => false,
            }) {
                lemma_val_id(map_get(acc, key), Err(r->Err_0), (f1 - 1) as nat);
            } else {
                let v2 = choose|v2: NodeV|
                    #[trigger] picked(v2) && val_rel(map_get(acc, key), Ok(v2), (f1 - 1) as nat)
                        && keys_rel(
                        keys.drop_first(),
                        map_set(acc, key, v2),
                        r,
                        (f1 - 1) as nat,
                    );
                lemma_val_id(map_get(acc, key), Ok(v2), (f1 - 1) as nat);
                assert(v2 == map_get(acc, key));
                crate::node::lemma_map_set_same(acc, key);
                lemma_keys_id(keys.drop_first(), acc, r, (f1 - 1) as nat);
            }
        }
    }
}

/// Desugaring an already-canonical tree is a no-op (short of exhausting the
/// astronomically large depth budget): it can only answer with the tree
/// unchanged. Desugaring such a tree twice therefore equals desugaring it
/// once.
pub proof fn lemma_desugar_id(
    e: Seq<(Seq<char>, NodeV)>,
    r: Result<Seq<(Seq<char>, NodeV)>, ErrorKind>,
    fuel: nat,
)
    requires
        canonical_entries(e),
        desugar_rel(e, r, fuel),
    ensures
        r == Ok::<Seq<(Seq<char>, NodeV)>, ErrorKind>(e) || r == Err::<
            Seq<(Seq<char>, NodeV)>,
            ErrorKind,
        >(ErrorKind::DepthExceeded),
    decreases fuel, 2int,
{
    assert forall|i: int| 0 <= i < keys_of(e).len() implies plain_key(
        #[trigger] keys_of(e)[i],
    ) by {
        assert((NodeV::Mapping(e))->Mapping_0[i] == e[i]);
        assert(keys_of(e)[i] == e[i].0);
    }
    lemma_keys_id(keys_of(e), e, r, fuel);
}

} // verus!
