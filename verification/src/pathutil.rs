//! Path classification. A value "looks like" a path exactly when it holds a
//! path separator; such a value is expanded (`~/`), joined onto a base
//! directory and canonicalized against the filesystem. What the filesystem
//! answers is outside the logic: the wrappers promise nothing about it.

use crate::errors::{ConfigError, ErrorKind};
use crate::strutil;
use vstd::prelude::*;
use vstd::string::StringExecFns;

verus! {

// ---------------------------------------------------------------------------
// Trusted bridge to the filesystem and the path library.
// ---------------------------------------------------------------------------

/// Relies on `home::home_dir`; the answer depends on the environment, so
/// nothing is promised of it.
#[verifier::external_body]
fn home_dir_string() -> Option<String> {
    match home::home_dir() {
        Some(p) => camino::Utf8PathBuf::from_path_buf(p).ok().map(|b| b.into_string()),
        None => None,
    }
}

/// Relies on `camino::Utf8Path::is_absolute`; the answer depends on the
/// platform, so nothing is promised of it.
#[verifier::external_body]
fn path_is_absolute(s: &str) -> bool {
    camino::Utf8Path::new(s).is_absolute()
}

/// Relies on `camino::Utf8Path::join`; the layout of the joined path depends
/// on the platform, so nothing is promised of it.
#[verifier::external_body]
fn path_join(base: &str, rel: &str) -> String {
    camino::Utf8Path::new(base).join(rel).into_string()
}

/// Relies on `dunce::canonicalize`; the answer depends on what is on disk,
/// so nothing is promised of it.
#[verifier::external_body]
fn canonicalize_path(s: &str) -> Option<String> {
    match dunce::canonicalize(s) {
        Ok(p) => camino::Utf8PathBuf::from_path_buf(p).ok().map(|b| b.into_string()),
        Err(_) => None,
    }
}

/// Relies on `camino::Utf8Path::is_dir`; the answer depends on what is on
/// disk, so nothing is promised of it.
#[verifier::external_body]
fn path_is_dir(s: &str) -> bool {
    camino::Utf8Path::new(s).is_dir()
}

// ---------------------------------------------------------------------------
// The pure classification heuristic.
// ---------------------------------------------------------------------------

/// A value is taken for a path exactly when it holds a path separator.
/// Absolute paths, relative markers (`./`, `../`), home markers (`~/`),
/// UNC prefixes and drive-letter forms all do.
pub open spec fn looks_like_path_of(s: Seq<char>) -> bool {
    strutil::contains_char(s, '/') || strutil::contains_char(s, '\\')
}

pub fn looks_like_path(s: &str) -> (r: bool)
    ensures
        r == looks_like_path_of(s@),
{
    strutil::find_char(s, '/').is_some() || strutil::find_char(s, '\\').is_some()
}

// ---------------------------------------------------------------------------
// Home expansion and canonicalization.
// ---------------------------------------------------------------------------

/// `s` starts with a home marker (`~/` or `~\`).
pub open spec fn has_home_prefix(s: Seq<char>) -> bool {
    s.len() >= 2 && s[0] == '~' && (s[1] == '/' || s[1] == '\\')
}

/// How home expansion may answer: a value without a home marker comes back
/// unchanged; one with a marker becomes some path under the machine's home
/// directory, or fails when no home directory is known.
pub open spec fn home_rel(s: Seq<char>, r: Result<Seq<char>, ErrorKind>) -> bool {
    if !has_home_prefix(s) {
        r == Ok::<Seq<char>, ErrorKind>(s)
    } else {
        r is Ok || r == Err::<Seq<char>, ErrorKind>(ErrorKind::NoHomeDir)
    }
}

/// Replace a leading `~/` or `~\` by the machine's home directory.
pub fn expand_home(value: &str) -> (r: Result<String, ConfigError>)
    ensures
        match r {
            Ok(s) => home_rel(value@, Ok(s@)),
            Err(e) => home_rel(value@, Err(e.kind)),
        },
{
    let n = value.unicode_len();
    let marked = n >= 2 && value.get_char(0) == '~' && {
        let c1 = value.get_char(1);
        c1 == '/' || c1 == '\\'
    };
    if !marked {
        return Ok(String::from_str(value));
    }
    let rest = strutil::skip_chars(value, 2);
    match home_dir_string() {
        Some(h) => Ok(path_join(h.as_str(), rest.as_str())),
        None => Err(ConfigError::new(ErrorKind::NoHomeDir, String::from_str(value))),
    }
}

/// How classification may answer: a value without a separator is no path; a
/// value with one either canonicalizes to some path or fails on the
/// filesystem.
pub open spec fn try_path_rel(v: Seq<char>, r: Result<Option<Seq<char>>, ErrorKind>) -> bool {
    if !looks_like_path_of(v) {
        r == Ok::<Option<Seq<char>>, ErrorKind>(None::<Seq<char>>)
    } else {
        match r {
            Ok(p) => p is Some,
            Err(k) => k == ErrorKind::NoHomeDir || k == ErrorKind::PathNotFound,
        }
    }
}

/// Classify `value`: `None` when it does not look like a path, else its
/// canonical absolute form, resolved against `working_dir` when it is
/// relative (or against the process directory when none is given).
pub fn try_get_path(value: &str, working_dir: Option<&str>) -> (r: Result<
    Option<String>,
    ConfigError,
>)
    ensures
        match r {
            Ok(p) => try_path_rel(
                value@,
                Ok(
                    match p {
                        Some(s) => Some(s@),
                        None => None,
                    },
                ),
            ),
            Err(e) => try_path_rel(value@, Err(e.kind)),
        },
{
    if !looks_like_path(value) {
        return Ok(None);
    }
    let expanded = match expand_home(value) {
        Ok(s) => s,
        Err(e) => {
            return Err(e);
        },
    };
    let n = expanded.as_str().unicode_len();
    let unc = n >= 2 && expanded.as_str().get_char(0) == '\\' && expanded.as_str().get_char(1)
        == '\\';
    let joined: String = if path_is_absolute(expanded.as_str()) || unc {
        expanded
    } else {
        match working_dir {
            Some(wd) => path_join(wd, expanded.as_str()),
            None => expanded,
        }
    };
    match canonicalize_path(joined.as_str()) {
        Some(p) => Ok(Some(p)),
        None => Err(ConfigError::new(ErrorKind::PathNotFound, String::from_str(value))),
    }
}

/// Replace `value` by the canonical path, which must name a directory.
pub fn process_path(value: &mut crate::node::ConfigNode, path: String) -> (r: Result<
    (),
    ConfigError,
>)
    ensures
        match r {
            Ok(_) => final(value)@ == crate::node::NodeV::Str(path@),
            Err(e) => e.kind == ErrorKind::NotADirectory && *final(value) == *old(value),
        },
{
    if !path_is_dir(path.as_str()) {
        return Err(ConfigError::new(ErrorKind::NotADirectory, path));
    }
    *value = crate::node::ConfigNode::Str(path);
    Ok(())
}

} // verus!
