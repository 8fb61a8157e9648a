//! The dynamically typed configuration tree. A document is a tree of
//! [`ConfigNode`] values; mappings are ordered entry lists with string keys.
//! The mathematical model of a node is [`NodeV`], reached through `@`.

use vstd::prelude::*;

verus! {

broadcast use {
    vstd::seq::axiom_seq_index_decreases,
    vstd::std_specs::vec::axiom_vec_decreases_to_view,
    vstd::std_specs::vec::axiom_vec_index_decreases,
};

/// One entry list of a mapping node: ordered, keys expected unique.
pub type Entries = Vec<(String, ConfigNode)>;

/// A trigger marker for naming witnesses.
pub open spec fn picked<A>(x: A) -> bool {
    true
}

/// A dynamically typed configuration tree node: the universal currency of
/// the pipeline.
#[derive(Debug, PartialEq, Eq)]
pub enum ConfigNode {
    Null,
    Bool(bool),
    Int(i64),
    /// A non-integer numeric scalar, carried as its source text; the
    /// pipeline never computes with numbers.
    Real(String),
    Str(String),
    Sequence(Vec<ConfigNode>),
    Mapping(Entries),
}

/// Mathematical model of a [`ConfigNode`].
pub enum NodeV {
    Null,
    Bool(bool),
    Int(int),
    Real(Seq<char>),
    Str(Seq<char>),
    Sequence(Seq<NodeV>),
    Mapping(Seq<(Seq<char>, NodeV)>),
}

/// The model of a node.
pub open spec fn node_view(n: &ConfigNode) -> NodeV
    decreases n,
{
    match n {
        ConfigNode::Null => NodeV::Null,
        ConfigNode::Bool(b) => NodeV::Bool(*b),
        ConfigNode::Int(i) => NodeV::Int(*i as int),
        ConfigNode::Real(s) => NodeV::Real(s@),
        ConfigNode::Str(s) => NodeV::Str(s@),
        ConfigNode::Sequence(items) => NodeV::Sequence(
            Seq::new(
                items@.len(),
                |i: int|
                    if 0 <= i < items@.len() {
                        node_view(&items@[i])
                    } else {
                        NodeV::Null
                    },
            ),
        ),
        ConfigNode::Mapping(entries) => NodeV::Mapping(
            Seq::new(
                entries@.len(),
                |i: int|
                    if 0 <= i < entries@.len() {
                        (entries@[i].0@, node_view(&entries@[i].1))
                    } else {
                        (Seq::empty(), NodeV::Null)
                    },
            ),
        ),
    }
}

impl View for ConfigNode {
    type V = NodeV;

    open spec fn view(&self) -> NodeV {
        node_view(self)
    }
}

/// The model of an exec entry list.
pub open spec fn entries_view(s: Seq<(String, ConfigNode)>) -> Seq<(Seq<char>, NodeV)> {
    Seq::new(s.len(), |i: int| (s[i].0@, s[i].1@))
}

/// The model of an exec node list.
pub open spec fn nodes_view(s: Seq<ConfigNode>) -> Seq<NodeV> {
    Seq::new(s.len(), |i: int| s[i]@)
}

/// A structural copy of a node list whose model is the same.
pub fn nodes_clone(items: &Vec<ConfigNode>) -> (r: Vec<ConfigNode>)
    ensures
        nodes_view(r@) == nodes_view(items@),
        r@.len() == items@.len(),
{
    let mut out: Vec<ConfigNode> = Vec::new();
    let mut i: usize = 0;
    while i < items.len()
        invariant
            i <= items.len(),
            out@.len() == i as int,
            forall|j: int| 0 <= j < i as int ==> (#[trigger] out@[j])@ == items@[j]@,
        decreases items.len() - i,
    {
        out.push(items[i].deep_clone());
        i = i + 1;
    }
    proof {
        assert(nodes_view(out@) =~= nodes_view(items@));
    }
    out
}

/// A structural copy of an entry list whose model is the same.
pub fn entries_clone(entries: &Entries) -> (r: Entries)
    ensures
        entries_view(r@) == entries_view(entries@),
        r@.len() == entries@.len(),
{
    let mut out: Entries = Vec::new();
    let mut i: usize = 0;
    while i < entries.len()
        invariant
            i <= entries.len(),
            out@.len() == i as int,
            forall|j: int|
                0 <= j < i as int ==> (#[trigger] out@[j]).0@ == entries@[j].0@ && out@[j].1@
                    == entries@[j].1@,
        decreases entries.len() - i,
    {
        out.push((entries[i].0.clone(), entries[i].1.deep_clone()));
        i = i + 1;
    }
    proof {
        assert(entries_view(out@) =~= entries_view(entries@));
    }
    out
}

pub proof fn lemma_mapping_view(entries: Vec<(String, ConfigNode)>)
    ensures
        (ConfigNode::Mapping(entries))@ == NodeV::Mapping(entries_view(entries@)),
{
    let v = (ConfigNode::Mapping(entries))@;
    assert(v is Mapping);
    assert(v->Mapping_0 =~= entries_view(entries@));
}

pub proof fn lemma_sequence_view(items: Vec<ConfigNode>)
    ensures
        (ConfigNode::Sequence(items))@ == NodeV::Sequence(
            Seq::new(items@.len(), |i: int| items@[i]@),
        ),
{
    let v = (ConfigNode::Sequence(items))@;
    assert(v is Sequence);
    assert(v->Sequence_0 =~= Seq::new(items@.len(), |i: int| items@[i]@));
}

// ---------------------------------------------------------------------------
// Size of a node, used as a termination measure.
// ---------------------------------------------------------------------------

impl NodeV {
    pub open spec fn count(self) -> nat
        decreases self,
    {
        match self {
            NodeV::Sequence(items) => 1 + NodeV::count_seq(items),
            NodeV::Mapping(entries) => 1 + NodeV::count_entries(entries),
            _ => 1,
        }
    }

    pub open spec fn count_seq(items: Seq<NodeV>) -> nat
        decreases items,
    {
        if items.len() == 0 {
            0
        } else {
            items[0].count() + NodeV::count_seq(items.drop_first())
        }
    }

    pub open spec fn count_entries(entries: Seq<(Seq<char>, NodeV)>) -> nat
        decreases entries,
    {
        if entries.len() == 0 {
            0
        } else {
            1 + entries[0].1.count() + NodeV::count_entries(entries.drop_first())
        }
    }
}

/// Every entry value of a mapping weighs less than the whole.
pub proof fn lemma_count_entries_elem(entries: Seq<(Seq<char>, NodeV)>, i: int)
    requires
        0 <= i < entries.len(),
    ensures
        entries[i].1.count() < NodeV::count_entries(entries),
    decreases entries.len(),
{
    if i > 0 {
        lemma_count_entries_elem(entries.drop_first(), i - 1);
    }
}

// ---------------------------------------------------------------------------
// Mapping lookup, insert and remove, at the model level.
// ---------------------------------------------------------------------------

/// Index of the first entry with key `k`, or -1.
pub open spec fn key_index(e: Seq<(Seq<char>, NodeV)>, k: Seq<char>) -> int
    decreases e.len(),
{
    if e.len() == 0 {
        -1
    } else if e[0].0 == k {
        0
    } else {
        let r = key_index(e.drop_first(), k);
        if r == -1 {
            -1
        } else {
            1 + r
        }
    }
}

pub open spec fn map_has(e: Seq<(Seq<char>, NodeV)>, k: Seq<char>) -> bool {
    key_index(e, k) >= 0
}

/// Value of the first entry with key `k`; meaningful only when `map_has`.
pub open spec fn map_get(e: Seq<(Seq<char>, NodeV)>, k: Seq<char>) -> NodeV {
    e[key_index(e, k)].1
}

/// Insert: replace the value in place if the key exists, else append.
pub open spec fn map_set(e: Seq<(Seq<char>, NodeV)>, k: Seq<char>, v: NodeV) -> Seq<
    (Seq<char>, NodeV),
> {
    if map_has(e, k) {
        e.update(key_index(e, k), (k, v))
    } else {
        e.push((k, v))
    }
}

/// Remove the first entry with key `k`, preserving the order of the rest.
pub open spec fn map_del(e: Seq<(Seq<char>, NodeV)>, k: Seq<char>) -> Seq<(Seq<char>, NodeV)> {
    if map_has(e, k) {
        e.remove(key_index(e, k))
    } else {
        e
    }
}

/// `key_index` finds the first occurrence, inside bounds.
pub proof fn lemma_key_index(e: Seq<(Seq<char>, NodeV)>, k: Seq<char>)
    ensures
        -1 <= key_index(e, k) < e.len(),
        key_index(e, k) >= 0 ==> e[key_index(e, k)].0 == k,
        forall|j: int| 0 <= j < key_index(e, k) ==> (#[trigger] e[j]).0 != k,
        key_index(e, k) == -1 ==> forall|j: int| 0 <= j < e.len() ==> (#[trigger] e[j]).0 != k,
    decreases e.len(),
{
    if e.len() > 0 && e[0].0 != k {
        lemma_key_index(e.drop_first(), k);
        assert(forall|j: int|
            1 <= j < e.len() ==> (#[trigger] e[j]) == e.drop_first()[j - 1]);
    }
}

/// Any position that is a first occurrence of `k` is `key_index`.
pub proof fn lemma_key_index_of(e: Seq<(Seq<char>, NodeV)>, k: Seq<char>, i: int)
    requires
        0 <= i < e.len(),
        e[i].0 == k,
        forall|j: int| 0 <= j < i ==> (#[trigger] e[j]).0 != k,
    ensures
        key_index(e, k) == i,
{
    lemma_key_index(e, k);
}

// ---------------------------------------------------------------------------
// Exec node operations.
// ---------------------------------------------------------------------------

impl ConfigNode {
    pub fn is_mapping(&self) -> (r: bool)
        ensures
            r == (self@ is Mapping),
    {
        match self {
            ConfigNode::Mapping(_) => true,
            _ => false,
        }
    }

    pub fn is_string(&self) -> (r: bool)
        ensures
            r == (self@ is Str),
    {
        match self {
            ConfigNode::Str(_) => true,
            _ => false,
        }
    }

    pub fn as_str(&self) -> (r: Option<&String>)
        ensures
            match r {
                Some(s) => self@ == NodeV::Str(s@),
                None => !(self@ is Str),
            },
    {
        match self {
            ConfigNode::Str(s) => Some(s),
            _ => None,
        }
    }

    pub fn as_entries(&self) -> (r: Option<&Entries>)
        ensures
            match r {
                Some(m) => self@ == NodeV::Mapping(entries_view(m@)),
                None => !(self@ is Mapping),
            },
    {
        match self {
            ConfigNode::Mapping(m) => {
                proof {
                    lemma_mapping_view(*m);
                }
                Some(m)
            },
            _ => None,
        }
    }

    /// A structural copy whose model is the same.
    #[verifier::loop_isolation(false)]
    pub fn deep_clone(&self) -> (r: ConfigNode)
        ensures
            r@ == self@,
        decreases self,
    {
        match self {
            ConfigNode::Null => ConfigNode::Null,
            ConfigNode::Bool(b) => ConfigNode::Bool(*b),
            ConfigNode::Int(i) => ConfigNode::Int(*i),
            ConfigNode::Real(s) => ConfigNode::Real(s.clone()),
            ConfigNode::Str(s) => ConfigNode::Str(s.clone()),
            ConfigNode::Sequence(items) => {
                let mut out: Vec<ConfigNode> = Vec::new();
                let mut i: usize = 0;
                while i < items.len()
                    invariant
                        i <= items.len(),
                        out@.len() == i as int,
                        forall|j: int| 0 <= j < i as int ==> (#[trigger] out@[j])@ == items@[j]@,
                    decreases items.len() - i,
                {
                    let item = &items[i];
                    proof {
                        assert(decreases_to!(*self => *items));
                    }
                    out.push(item.deep_clone());
                    i = i + 1;
                }
                let r = ConfigNode::Sequence(out);
                proof {
                    assert(r@ is Sequence && self@ is Sequence);
                    assert(r@->Sequence_0 =~= self@->Sequence_0);
                }
                r
            },
            ConfigNode::Mapping(entries) => {
                let mut out: Entries = Vec::new();
                let mut i: usize = 0;
                while i < entries.len()
                    invariant
                        i <= entries.len(),
                        out@.len() == i as int,
                        forall|j: int|
                            0 <= j < i as int ==> (#[trigger] out@[j]).0@ == entries@[j].0@
                                && out@[j].1@ == entries@[j].1@,
                    decreases entries.len() - i,
                {
                    let pair = &entries[i];
                    proof {
                        assert(decreases_to!(*self => *entries));
                    }
                    out.push((pair.0.clone(), pair.1.deep_clone()));
                    i = i + 1;
                }
                let r = ConfigNode::Mapping(out);
                proof {
                    assert(r@ is Mapping && self@ is Mapping);
                    assert(r@->Mapping_0 =~= self@->Mapping_0);
                }
                r
            },
        }
    }
}

// ---------------------------------------------------------------------------
// Exec mapping operations over entry lists.
// ---------------------------------------------------------------------------

/// Position of the first entry whose key is `k`.
pub fn entries_find(m: &Entries, k: &str) -> (r: Option<usize>)
    ensures
        match r {
            Some(i) => i < m@.len() && key_index(entries_view(m@), k@) == i as int,
            None => key_index(entries_view(m@), k@) == -1,
        },
{
    let mut i: usize = 0;
    while i < m.len()
        invariant
            i <= m.len(),
            forall|j: int| 0 <= j < i as int ==> (#[trigger] entries_view(m@)[j]).0 != k@,
        decreases m.len() - i,
    {
        if crate::strutil::str_eq(m[i].0.as_str(), k) {
            proof {
                lemma_key_index_of(entries_view(m@), k@, i as int);
            }
            return Some(i);
        }
        i = i + 1;
    }
    proof {
        lemma_key_index(entries_view(m@), k@);
    }
    None
}

pub fn entries_contains(m: &Entries, k: &str) -> (r: bool)
    ensures
        r == map_has(entries_view(m@), k@),
{
    entries_find(m, k).is_some()
}

/// Borrow the value of the first entry with key `k`.
pub fn entries_get<'a>(m: &'a Entries, k: &str) -> (r: Option<&'a ConfigNode>)
    ensures
        match r {
            Some(v) => map_has(entries_view(m@), k@) && v@ == map_get(entries_view(m@), k@),
            None => !map_has(entries_view(m@), k@),
        },
{
    match entries_find(m, k) {
        Some(i) => Some(&m[i].1),
        None => None,
    }
}

/// Insert: replace in place when the key exists, else append at the end.
pub fn entries_insert(m: &mut Entries, k: String, v: ConfigNode)
    ensures
        entries_view(final(m)@) == map_set(entries_view(old(m)@), k@, v@),
{
    let ghost e0 = entries_view(old(m)@);
    match entries_find(m, k.as_str()) {
        Some(i) => {
            m.set(i, (k, v));
            proof {
                assert(entries_view(m@) =~= map_set(e0, k@, v@));
            }
        },
        None => {
            m.push((k, v));
            proof {
                assert(entries_view(m@) =~= map_set(e0, k@, v@));
            }
        },
    }
}

/// Remove the first entry with key `k`, keeping the order of the rest;
/// hand back its value when it was there.
pub fn entries_remove(m: &mut Entries, k: &str) -> (r: Option<ConfigNode>)
    ensures
        entries_view(final(m)@) == map_del(entries_view(old(m)@), k@),
        match r {
            Some(v) => map_has(entries_view(old(m)@), k@) && v@ == map_get(
                entries_view(old(m)@),
                k@,
            ),
            None => !map_has(entries_view(old(m)@), k@),
        },
{
    let ghost e0 = entries_view(old(m)@);
    match entries_find(m, k) {
        Some(i) => {
            let pair = m.remove(i);
            proof {
                assert(entries_view(m@) =~= map_del(e0, k@));
            }
            Some(pair.1)
        },
        None => {
            proof {
                assert(entries_view(m@) =~= map_del(e0, k@));
            }
            None
        },
    }
}

/// `map_set` makes its key present with its value.
pub proof fn lemma_map_set_has(e: Seq<(Seq<char>, NodeV)>, k: Seq<char>, v: NodeV)
    ensures
        map_has(map_set(e, k, v), k),
        map_get(map_set(e, k, v), k) == v,
{
    lemma_key_index(e, k);
    let e2 = map_set(e, k, v);
    if map_has(e, k) {
        let i = key_index(e, k);
        assert(e2[i].0 == k);
        assert(forall|j: int| 0 <= j < i ==> (#[trigger] e2[j]) == e[j]);
        lemma_key_index_of(e2, k, i);
    } else {
        let i = e.len() as int;
        assert(e2[i].0 == k);
        assert(forall|j: int| 0 <= j < i ==> (#[trigger] e2[j]) == e[j]);
        lemma_key_index_of(e2, k, i);
    }
}

// ---------------------------------------------------------------------------
// Soft merge: defaults that never override.
// ---------------------------------------------------------------------------

/// Soft merge at the model level: a merger entry whose key is absent is
/// appended; where both sides hold mappings under one key, the merge
/// recurses; any other collision leaves the target untouched.
pub open spec fn soft_merge_v(
    b: Seq<(Seq<char>, NodeV)>,
    m: Seq<(Seq<char>, NodeV)>,
) -> Seq<(Seq<char>, NodeV)>
    decreases NodeV::count_entries(m),
    via soft_merge_v_decreases
{
    if m.len() == 0 {
        b
    } else {
        let k = m[0].0;
        let v = m[0].1;
        let b1 = if !map_has(b, k) {
            map_set(b, k, v)
        } else if v is Mapping && map_get(b, k) is Mapping {
            map_set(
                b,
                k,
                NodeV::Mapping(soft_merge_v(map_get(b, k)->Mapping_0, v->Mapping_0)),
            )
        } else {
            b
        };
        soft_merge_v(b1, m.drop_first())
    }
}

#[via_fn]
proof fn soft_merge_v_decreases(b: Seq<(Seq<char>, NodeV)>, m: Seq<(Seq<char>, NodeV)>) {
    if m.len() > 0 {
        assert(NodeV::count_entries(m) == 1 + m[0].1.count() + NodeV::count_entries(
            m.drop_first(),
        ));
        if m[0].1 is Mapping {
            assert(m[0].1.count() == 1 + NodeV::count_entries(m[0].1->Mapping_0));
        }
    }
}

/// Merge `merger` into `base` without overriding anything `base` already
/// states.
#[verifier::loop_isolation(false)]
pub fn soft_merge_mappings(base: &mut Entries, merger: &Entries)
    ensures
        entries_view(final(base)@) == soft_merge_v(entries_view(old(base)@), entries_view(merger@)),
    decreases NodeV::count_entries(entries_view(merger@)),
{
    let ghost b0 = entries_view(old(base)@);
    let ghost mv = entries_view(merger@);
    let mut i: usize = 0;
    let n = merger.len();
    proof {
        assert(mv.skip(0) =~= mv);
    }
    while i < n
        invariant
            i <= n,
            soft_merge_v(entries_view(base@), mv.skip(i as int)) == soft_merge_v(b0, mv),
        decreases n - i,
    {
        let ghost cur = entries_view(base@);
        proof {
            assert(mv.skip(i as int)[0] == mv[i as int]);
            assert(mv.skip(i as int).drop_first() =~= mv.skip(i as int + 1));
            lemma_count_entries_skip(mv, i as int);
        }
        let k = &merger[i].0;
        match entries_find(base, k.as_str()) {
            None => {
                entries_insert(base, k.clone(), merger[i].1.deep_clone());
            },
            Some(idx) => {
                proof {
                    lemma_key_index(cur, k@);
                    assert(cur[idx as int].0 == k@);
                }
                let both = match (&merger[i].1, &base[idx].1) {
                    (ConfigNode::Mapping(_), ConfigNode::Mapping(_)) => true,
                    _ => false,
                };
                if both {
                    let pair = base.remove(idx);
                    match (pair.1, &merger[i].1) {
                        (ConfigNode::Mapping(mut bm), ConfigNode::Mapping(vm)) => {
                            proof {
                                lemma_mapping_view(bm);
                                lemma_mapping_view(*vm);
                                lemma_count_entries_elem(mv.skip(i as int), 0);
                                assert(NodeV::count_entries(entries_view(vm@))
                                    < mv[i as int].1.count());
                                assert(NodeV::count_entries(entries_view(vm@))
                                    < NodeV::count_entries(entries_view(merger@)));
                            }
                            soft_merge_mappings(&mut bm, vm);
                            let ghost bmv = entries_view(bm@);
                            proof {
                                lemma_mapping_view(bm);
                            }
                            base.insert(idx, (pair.0, ConfigNode::Mapping(bm)));
                            proof {
                                assert(entries_view(base@) =~= map_set(
                                    cur,
                                    k@,
                                    NodeV::Mapping(bmv),
                                ));
                            }
                        },
                        _ => {
                            proof {
                                assert(false);
                            }
                        },
                    }
                }
            },
        }
        i = i + 1;
    }
    proof {
        assert(mv.skip(n as int).len() == 0);
    }
}

/// The tail of a mapping weighs no more than the whole.
pub proof fn lemma_count_entries_skip(entries: Seq<(Seq<char>, NodeV)>, i: int)
    requires
        0 <= i <= entries.len(),
    ensures
        NodeV::count_entries(entries.skip(i)) <= NodeV::count_entries(entries),
    decreases i,
{
    if i > 0 {
        lemma_count_entries_skip(entries, i - 1);
        assert(entries.skip(i - 1).drop_first() =~= entries.skip(i));
        assert(NodeV::count_entries(entries.skip(i)) <= NodeV::count_entries(
            entries.skip(i - 1),
        ));
    } else {
        assert(entries.skip(0) =~= entries);
    }
}

/// Writing a key's own value back changes nothing.
pub proof fn lemma_map_set_same(e: Seq<(Seq<char>, NodeV)>, k: Seq<char>)
    requires
        map_has(e, k),
    ensures
        map_set(e, k, map_get(e, k)) == e,
{
    lemma_key_index(e, k);
    let i = key_index(e, k);
    assert(e[i] == (k, e[i].1));
    assert(e.update(i, (k, e[i].1)) =~= e);
}

} // verus!
