//! The shorthand query parser. A key has the form `["!"]base["?"query]`: an
//! optional implicit-scope prefix, a base key, and an optional URL-style
//! query carrying default properties. Query values coerce like document
//! literals; an empty value means `true`.

use crate::errors::{ConfigError, ErrorKind};
use crate::node::{entries_view, map_has, ConfigNode, Entries, NodeV};
use crate::strutil;
use vstd::prelude::*;
use vstd::string::StringExecFns;

verus! {

// ---------------------------------------------------------------------------
// Trusted bridge to the query-string and document-literal parsers.
// ---------------------------------------------------------------------------

#[verifier::external_type_specification]
#[verifier::external_body]
pub struct ExYamlValue(serde_yaml::Value);

#[verifier::external_type_specification]
#[verifier::external_body]
pub struct ExYamlMapping(serde_yaml::Mapping);

/// What the query-string parser yields on a given input: a mapping when the
/// input parses, nothing otherwise. A function of the input alone.
pub uninterp spec fn query_of(s: Seq<char>) -> Option<Seq<(Seq<char>, NodeV)>>;

/// What the document-literal parser yields on a given scalar text. A
/// function of the input alone.
pub uninterp spec fn yaml_scalar_of(s: Seq<char>) -> Option<NodeV>;

/// Relies on the shape of `serde_yaml::Value`: each variant is carried over
/// one for one; integers keep their value, other numbers keep their text, a
/// tag is dropped in favour of the tagged value.
#[verifier::external_body]
fn value_to_node(v: &serde_yaml::Value) -> ConfigNode {
    match v {
        serde_yaml::Value::Null => ConfigNode::Null,
        serde_yaml::Value::Bool(b) => ConfigNode::Bool(*b),
        serde_yaml::Value::Number(n) => match n.as_i64() {
            Some(i) => ConfigNode::Int(i),
            None => ConfigNode::Real(n.to_string()),
        },
        serde_yaml::Value::String(s) => ConfigNode::Str(s.clone()),
        serde_yaml::Value::Sequence(items) => ConfigNode::Sequence(
            items.iter().map(value_to_node).collect(),
        ),
        serde_yaml::Value::Mapping(m) => ConfigNode::Mapping(mapping_to_entries(m)),
        serde_yaml::Value::Tagged(t) => value_to_node(&t.value),
    }
}

/// Relies on `serde_yaml::Mapping` iteration: entries come in insertion
/// order. Non-string keys cannot arise from a parsed query string and are
/// dropped.
#[verifier::external_body]
fn mapping_to_entries(m: &serde_yaml::Mapping) -> Entries {
    m.iter().filter_map(
        |(k, v): (&serde_yaml::Value, &serde_yaml::Value)|
            k.as_str().map(|ks| (ks.to_string(), value_to_node(v))),
    ).collect()
}

/// Relies on `serde_qs::from_str`: decodes a URL query string into a mapping
/// (bracket-index notation builds nested sequences and mappings); the result
/// depends on the input alone.
#[verifier::external_body]
fn parse_query(s: &str) -> (r: Option<Entries>)
    ensures
        match r {
            Some(m) => query_of(s@) == Some(entries_view(m@)),
            None => query_of(s@) is None,
        },
{
    match serde_qs::from_str::<serde_yaml::Mapping>(s) {
        Ok(m) => Some(mapping_to_entries(&m)),
        Err(_) => None,
    }
}

/// Relies on `serde_yaml::from_str`: parses one document literal; the result
/// depends on the input alone.
#[verifier::external_body]
fn parse_scalar(s: &str) -> (r: Option<ConfigNode>)
    ensures
        match r {
            Some(n) => yaml_scalar_of(s@) == Some(n@),
            None => yaml_scalar_of(s@) is None,
        },
{
    match serde_yaml::from_str::<serde_yaml::Value>(s) {
        Ok(v) => Some(value_to_node(&v)),
        Err(_) => None,
    }
}

// ---------------------------------------------------------------------------
// Value coercion.
// ---------------------------------------------------------------------------

pub open spec fn all_str(items: Seq<NodeV>) -> bool {
    forall|i: int| 0 <= i < items.len() ==> (#[trigger] items[i]) is Str
}

pub open spec fn seq_parses(items: Seq<NodeV>) -> bool {
    forall|i: int| 0 <= i < items.len() ==> yaml_scalar_of((#[trigger] items[i])->Str_0) is Some
}

/// A sequence whose elements are all raw strings has each element re-parsed
/// as a document literal; any other sequence stays as it is.
pub open spec fn seq_coerced(items: Seq<NodeV>) -> Result<Seq<NodeV>, ErrorKind> {
    if !all_str(items) {
        Ok(items)
    } else if seq_parses(items) {
        Ok(Seq::new(items.len(), |i: int| yaml_scalar_of(items[i]->Str_0).unwrap()))
    } else {
        Err(ErrorKind::LiteralParse)
    }
}

/// An empty value (a valueless flag, or an empty string) becomes `true`; a
/// non-empty string is parsed as a document literal; an all-string sequence
/// is re-parsed element by element; everything else stays.
pub open spec fn value_coerced(v: NodeV) -> Result<NodeV, ErrorKind> {
    match v {
        NodeV::Null => Ok(NodeV::Bool(true)),
        NodeV::Str(s) => if s.len() == 0 {
            Ok(NodeV::Bool(true))
        } else {
            match yaml_scalar_of(s) {
                Some(n) => Ok(n),
                None => Err(ErrorKind::LiteralParse),
            }
        },
        NodeV::Sequence(items) => match seq_coerced(items) {
            Ok(its) => Ok(NodeV::Sequence(its)),
            Err(e) => Err(e),
        },
        _ => Ok(v),
    }
}

pub open spec fn entries_coerce_ok(e: Seq<(Seq<char>, NodeV)>) -> bool {
    forall|i: int| 0 <= i < e.len() ==> value_coerced((#[trigger] e[i]).1) is Ok
}

/// Every entry value of a parsed query coerced in place.
pub open spec fn entries_coerced(e: Seq<(Seq<char>, NodeV)>) -> Result<
    Seq<(Seq<char>, NodeV)>,
    ErrorKind,
> {
    if entries_coerce_ok(e) {
        Ok(Seq::new(e.len(), |i: int| (e[i].0, value_coerced(e[i].1).unwrap())))
    } else {
        Err(ErrorKind::LiteralParse)
    }
}

/// If every element of `items` is a raw string, re-parse each as a document
/// literal in place; otherwise leave the sequence untouched.
#[verifier::loop_isolation(false)]
pub fn parse_unserialized_sequence(items: &mut Vec<ConfigNode>) -> (r: Result<(), ConfigError>)
    ensures
        match r {
            Ok(_) => seq_coerced(crate::node::nodes_view(old(items)@)) == Ok::<_, ErrorKind>(
                crate::node::nodes_view(final(items)@),
            ),
            Err(e) => seq_coerced(crate::node::nodes_view(old(items)@)) == Err::<Seq<NodeV>,
                _,
            >(e.kind),
        },
{
    let ghost v0 = crate::node::nodes_view(old(items)@);
    let mut i: usize = 0;
    let n = items.len();
    while i < n
        invariant
            i <= n,
            items@.len() == n,
            forall|j: int| 0 <= j < n ==> (#[trigger] items@[j])@ == v0[j],
            forall|j: int| 0 <= j < i as int ==> v0[j] is Str,
        decreases n - i,
    {
        if !items[i].is_string() {
            proof {
                assert(!all_str(v0));
                assert(crate::node::nodes_view(items@) =~= v0);
            }
            return Ok(());
        }
        i = i + 1;
    }
    proof {
        assert(all_str(v0));
    }
    let mut out: Vec<ConfigNode> = Vec::new();
    let mut k: usize = 0;
    while k < n
        invariant
            k <= n,
            items@.len() == n,
            out@.len() == k as int,
            forall|j: int| 0 <= j < n ==> (#[trigger] items@[j])@ == v0[j],
            forall|j: int| 0 <= j < k as int ==> yaml_scalar_of((#[trigger] v0[j])->Str_0) is Some,
            forall|j: int|
                0 <= j < k as int ==> (#[trigger] out@[j])@ == yaml_scalar_of(
                    v0[j]->Str_0,
                ).unwrap(),
        decreases n - k,
    {
        proof {
            assert(items@[k as int]@ == v0[k as int]);
            assert(v0[k as int] is Str);
        }
        let s = match items[k].as_str() {
            Some(s) => s,
            None => {
                proof {
                    assert(false);
                }
                return Ok(());
            },
        };
        let ghost outprev = out@;
        match parse_scalar(s.as_str()) {
            Some(node) => {
                out.push(node);
                proof {
                    assert(yaml_scalar_of(v0[k as int]->Str_0) is Some);
                    assert(out@[k as int]@ == yaml_scalar_of(v0[k as int]->Str_0).unwrap());
                    assert(forall|j: int|
                        0 <= j < k as int ==> (#[trigger] out@[j]) == outprev[j]);
                }
            },
            None => {
                proof {
                    assert(yaml_scalar_of(v0[k as int]->Str_0) is None);
                    assert(!seq_parses(v0) && all_str(v0));
                }
                return Err(ConfigError::new(ErrorKind::LiteralParse, String::from_str(s.as_str())));
            },
        }
        k = k + 1;
    }
    *items = out;
    proof {
        assert(seq_parses(v0));
        assert(crate::node::nodes_view(items@) =~= Seq::new(
            v0.len(),
            |i: int| yaml_scalar_of(v0[i]->Str_0).unwrap(),
        ));
    }
    Ok(())
}

/// One query value coerced, building a fresh node.
fn coerce_value(v: &ConfigNode) -> (r: Result<ConfigNode, ConfigError>)
    ensures
        match r {
            Ok(n) => value_coerced(v@) == Ok::<_, ErrorKind>(n@),
            Err(e) => value_coerced(v@) == Err::<NodeV, _>(e.kind),
        },
{
    match v {
        ConfigNode::Null => Ok(ConfigNode::Bool(true)),
        ConfigNode::Str(s) => {
            if s.as_str().unicode_len() == 0 {
                proof {
                    assert(v@->Str_0.len() == 0);
                }
                Ok(ConfigNode::Bool(true))
            } else {
                match parse_scalar(s.as_str()) {
                    Some(n) => Ok(n),
                    None => Err(ConfigError::new(ErrorKind::LiteralParse, s.clone())),
                }
            }
        },
        ConfigNode::Sequence(items) => {
            let mut copy = crate::node::nodes_clone(items);
            let ghost iv = crate::node::nodes_view(items@);
            proof {
                crate::node::lemma_sequence_view(*items);
                assert(v@->Sequence_0 =~= iv);
            }
            match parse_unserialized_sequence(&mut copy) {
                Ok(_) => {
                    let r = ConfigNode::Sequence(copy);
                    proof {
                        crate::node::lemma_sequence_view(r->Sequence_0);
                        assert(r@->Sequence_0 =~= crate::node::nodes_view(r->Sequence_0@));
                    }
                    Ok(r)
                },
                Err(e) => Err(e),
            }
        },
        _ => Ok(v.deep_clone()),
    }
}

// ---------------------------------------------------------------------------
// Key normalization.
// ---------------------------------------------------------------------------

/// The base of a key: the implicit-scope prefix stripped when allowed, then
/// everything before the first `?`.
pub open spec fn base_key_of(key: Seq<char>, allow_implicit: bool) -> Seq<char> {
    let stripped = if allow_implicit && key.len() > 0 && key[0] == '!' {
        key.drop_first()
    } else {
        key
    };
    strutil::split_on(stripped, '?')[0]
}

/// What normalizing a key yields: its base key and its coerced shorthand
/// properties, with `in: base` injected for an implicit scope whose query
/// did not set `in` itself.
pub open spec fn normalized_key(key: Seq<char>) -> Result<
    (Seq<char>, Seq<(Seq<char>, NodeV)>),
    ErrorKind,
> {
    let implicit = key.len() > 0 && key[0] == '!';
    let stripped = if implicit {
        key.drop_first()
    } else {
        key
    };
    let parts = strutil::split_on(stripped, '?');
    if parts.len() == 1 && !implicit {
        Ok((parts[0], Seq::empty()))
    } else if parts.len() > 2 {
        Err(ErrorKind::ShorthandSyntax)
    } else {
        let q: Result<Seq<(Seq<char>, NodeV)>, ErrorKind> = if parts.len() == 2 {
            match query_of(parts[1]) {
                None => Err(ErrorKind::QueryParse),
                Some(m) => entries_coerced(m),
            }
        } else {
            Ok(Seq::empty())
        };
        match q {
            Err(e) => Err(e),
            Ok(props0) => {
                let props = if implicit && !map_has(props0, "in"@) {
                    props0.push(("in"@, NodeV::Str(parts[0])))
                } else {
                    props0
                };
                Ok((parts[0], props))
            },
        }
    }
}

/// The base of `key`: `!` stripped, then everything before the first `?`.
pub fn get_base_key(key: &str) -> (r: &str)
    ensures
        r@ == base_key_of(key@, true),
{
    crate::desugar::get_base_key(key, true)
}

/// Parse one authored key into its base and its shorthand properties.
#[verifier::loop_isolation(false)]
pub fn normalize_key(key: &str) -> (r: Result<(String, Entries), ConfigError>)
    ensures
        match r {
            Ok(bp) => normalized_key(key@) == Ok::<_, ErrorKind>((bp.0@, entries_view(bp.1@))),
            Err(e) => normalized_key(key@) matches Err(k) && k == e.kind,
        },
{
    let implicit = strutil::first_char_is(key, '!');
    let stripped: String = if implicit {
        strutil::skip_chars(key, 1)
    } else {
        String::from_str(key)
    };
    proof {
        assert(stripped@ == (if key@.len() > 0 && key@[0] == '!' {
            key@.drop_first()
        } else {
            key@
        }));
    }
    let parts = strutil::split_char(stripped.as_str(), '?');
    let ghost sparts = strutil::split_on(stripped@, '?');
    proof {
        strutil::lemma_split_on_len(stripped@, '?');
        assert(parts@.map_values(|p: String| p@).len() == sparts.len());
    }
    if parts.len() == 1 && !implicit {
        let base = parts[0].clone();
        proof {
            assert(base@ == sparts[0]);
            assert(entries_view(Seq::<(String, ConfigNode)>::empty()) =~= Seq::<
                (Seq<char>, NodeV),
            >::empty());
        }
        return Ok((base, Vec::new()));
    }
    if parts.len() > 2 {
        return Err(ConfigError::new(ErrorKind::ShorthandSyntax, String::from_str(key)));
    }
    let mut props: Entries = Vec::new();
    if parts.len() == 2 {
        let raw = match parse_query(parts[1].as_str()) {
            Some(m) => m,
            None => {
                proof {
                    assert(parts@.map_values(|p: String| p@)[1] == sparts[1]);
                }
                return Err(ConfigError::new(ErrorKind::QueryParse, String::from_str(key)));
            },
        };
        let ghost rawv = entries_view(raw@);
        proof {
            assert(parts@.map_values(|p: String| p@)[1] == sparts[1]);
        }
        let mut i: usize = 0;
        let n = raw.len();
        while i < n
            invariant
                i <= n,
                raw@.len() == n,
                rawv == entries_view(raw@),
                props@.len() == i as int,
                forall|j: int|
                    0 <= j < i as int ==> value_coerced((#[trigger] rawv[j]).1) is Ok,
                forall|j: int|
                    0 <= j < i as int ==> (#[trigger] entries_view(props@)[j]) == (
                        rawv[j].0,
                        value_coerced(rawv[j].1).unwrap(),
                    ),
            decreases n - i,
        {
            let k = raw[i].0.clone();
            proof {
                assert(rawv[i as int] == (raw@[i as int].0@, raw@[i as int].1@));
            }
            let ghost pprev = props@;
            match coerce_value(&raw[i].1) {
                Ok(nv) => {
                    props.push((k, nv));
                    proof {
                        assert(entries_view(props@)[i as int].0 == rawv[i as int].0);
                        assert(entries_view(props@)[i as int].1 == value_coerced(
                            rawv[i as int].1,
                        ).unwrap());
                        assert forall|j: int|
                            0 <= j < i as int implies #[trigger] entries_view(props@)[j]
                            == entries_view(pprev)[j] by {
                            assert(props@[j] == pprev[j]);
                        }
                    }
                },
                Err(e) => {
                    proof {
                        assert(!entries_coerce_ok(rawv));
                    }
                    return Err(ConfigError::new(e.kind, String::from_str(key)));
                },
            }
            i = i + 1;
        }
        proof {
            assert(entries_coerce_ok(rawv));
            assert(entries_view(props@) =~= entries_coerced(rawv).unwrap());
        }
    } else {
        proof {
            assert(entries_view(props@) =~= Seq::<(Seq<char>, NodeV)>::empty());
        }
    }
    let base = parts[0].clone();
    proof {
        assert(base@ == sparts[0]);
    }
    if implicit && !crate::node::entries_contains(&props, "in") {
        let ghost before = entries_view(props@);
        props.push((String::from_str("in"), ConfigNode::Str(base.clone())));
        proof {
            assert(entries_view(props@) =~= before.push(("in"@, NodeV::Str(base@))));
        }
    }
    Ok((base, props))
}

} // verus!
