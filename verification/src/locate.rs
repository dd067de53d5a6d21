//! Recovering a (framework, file stem) identity from a source-location path,
//! and parsing the `Framework/Header.h` shape of inclusion-directive names.
//! The path conventions are an assumption about SDK layout stability: a path
//! under the frameworks root that does not fit them is a contract violation,
//! reported as an error rather than a recoverable condition.

use vstd::prelude::*;
use crate::strutil::{
    ends_with, find, find_char, is_prefix_of, is_suffix_of, rfind, rfind_char, starts_with,
    strip_suffix, substring,
};

verus! {

/// Why a path under the frameworks root could not be given an identity.
#[derive(Clone, Copy, Debug, PartialEq, Eq, Structural)]
pub enum LocateError {
    /// Nothing follows the frameworks root.
    NoComponents,
    /// The first component does not carry the framework container suffix.
    NotAFramework,
    /// No file component follows the framework container.
    NoFileName,
}

/// Why an inclusion-directive name addressed to the current framework is
/// malformed.
#[derive(Clone, Copy, Debug, PartialEq, Eq, Structural)]
pub enum InclusionError {
    /// No header component after the framework component.
    MissingHeaderComponent,
    /// The header component does not end in `.h`.
    NotAHeader,
    /// More path components follow the header component.
    ExtraComponents,
}

/// `path` lies under the directory `root`: it extends `root` at a component
/// boundary. The root itself counts as under the root, with nothing left.
pub open spec fn under_root(path: Seq<char>, root: Seq<char>) -> bool {
    is_prefix_of(root, path) && (path.len() == root.len() || path[root.len() as int] == '/')
}

/// What remains of `path` after `root` and the separator.
pub open spec fn rest_after_root(path: Seq<char>, root: Seq<char>) -> Seq<char> {
    if path.len() == root.len() {
        Seq::empty()
    } else {
        path.skip(root.len() as int + 1)
    }
}

/// The leading path component of `s`: everything before the first `/`, or
/// all of `s` when it has no separator.
pub open spec fn first_component(s: Seq<char>) -> Seq<char> {
    match find_char(s, '/') {
        Some(i) => s.take(i),
        None => s,
    }
}

/// What follows the leading component's separator, empty when there is none.
pub open spec fn after_first_component(s: Seq<char>) -> Seq<char> {
    match find_char(s, '/') {
        Some(i) => s.skip(i + 1),
        None => Seq::empty(),
    }
}

/// The final path component of `s`.
pub open spec fn last_component(s: Seq<char>) -> Seq<char> {
    match rfind_char(s, '/') {
        Some(i) => s.skip(i + 1),
        None => s,
    }
}

/// A file name without its extension: the part before the final `.`, the
/// whole name when it has no `.` or when its only `.` leads.
pub open spec fn stem_of(name: Seq<char>) -> Seq<char> {
    match rfind_char(name, '.') {
        Some(i) => if i == 0 {
            name
        } else {
            name.take(i)
        },
        None => name,
    }
}

/// The identity a source-location path resolves to: `Ok(None)` for a path
/// outside the frameworks root (not attributed to any tracked framework),
/// `Ok(Some((library, stem)))` for a well-shaped path under it, and an error
/// for a path under the root that breaks the layout convention.
pub open spec fn spec_identify(path: Seq<char>, root: Seq<char>) -> Result<
    Option<(Seq<char>, Seq<char>)>,
    LocateError,
> {
    if !under_root(path, root) {
        Ok(None)
    } else {
        let rest = rest_after_root(path, root);
        if rest.len() == 0 {
            Err(LocateError::NoComponents)
        } else {
            let first = first_component(rest);
            if !is_suffix_of(".framework"@, first) {
                Err(LocateError::NotAFramework)
            } else {
                let library = first.take(first.len() - ".framework"@.len());
                let remaining = after_first_component(rest);
                if remaining.len() == 0 || last_component(remaining).len() == 0 {
                    Err(LocateError::NoFileName)
                } else {
                    Ok(Some((library, stem_of(last_component(remaining)))))
                }
            }
        }
    }
}

/// The exec result agrees with the specification-level identity.
pub open spec fn identify_matches(
    r: Result<Option<(String, String)>, LocateError>,
    s: Result<Option<(Seq<char>, Seq<char>)>, LocateError>,
) -> bool {
    match r {
        Ok(Some((library, stem))) => s == Ok::<Option<(Seq<char>, Seq<char>)>, LocateError>(
            Some((library@, stem@)),
        ),
        Ok(None) => s == Ok::<Option<(Seq<char>, Seq<char>)>, LocateError>(None),
        Err(e) => s == Err::<Option<(Seq<char>, Seq<char>)>, LocateError>(e),
    }
}

/// Resolve a source path to its (framework, file stem) identity relative to
/// `frameworks_root`, exactly as `spec_identify` describes.
pub fn extract_framework_name(path: &str, frameworks_root: &str) -> (r: Result<
    Option<(String, String)>,
    LocateError,
>)
    ensures
        identify_matches(r, spec_identify(path@, frameworks_root@)),
{
    let path_len = path.unicode_len();
    let root_len = frameworks_root.unicode_len();
    if !starts_with(path, frameworks_root) {
        return Ok(None);
    }
    if path_len == root_len {
        return Err(LocateError::NoComponents);
    }
    if path.get_char(root_len) != '/' {
        return Ok(None);
    }
    let rest = substring(path, root_len + 1, path_len);
    proof {
        assert(rest@ == rest_after_root(path@, frameworks_root@));
    }
    if rest.as_str().unicode_len() == 0 {
        return Err(LocateError::NoComponents);
    }
    let first = match find(rest.as_str(), '/') {
        Some(i) => substring(rest.as_str(), 0, i),
        None => rest.clone(),
    };
    proof {
        assert(first@ == first_component(rest@));
    }
    let library = match strip_suffix(first.as_str(), ".framework") {
        Some(l) => l,
        None => {
            return Err(LocateError::NotAFramework);
        },
    };
    let remaining = match find(rest.as_str(), '/') {
        Some(i) => substring(rest.as_str(), i + 1, rest.as_str().unicode_len()),
        None => String::new(),
    };
    proof {
        assert(remaining@ == after_first_component(rest@));
    }
    if remaining.as_str().unicode_len() == 0 {
        return Err(LocateError::NoFileName);
    }
    let file = match rfind(remaining.as_str(), '/') {
        Some(i) => substring(remaining.as_str(), i + 1, remaining.as_str().unicode_len()),
        None => remaining.clone(),
    };
    proof {
        assert(file@ == last_component(remaining@));
    }
    if file.as_str().unicode_len() == 0 {
        return Err(LocateError::NoFileName);
    }
    let stem = match rfind(file.as_str(), '.') {
        Some(i) => if i == 0 {
            file.clone()
        } else {
            substring(file.as_str(), 0, i)
        },
        None => file.clone(),
    };
    proof {
        assert(stem@ == stem_of(file@));
    }
    Ok(Some((library, stem)))
}

/// The framework an inclusion directive addresses: its leading component.
pub fn inclusion_framework(name: &str) -> (r: String)
    ensures
        r@ == first_component(name@),
{
    match find(name, '/') {
        Some(i) => substring(name, 0, i),
        None => name.to_owned(),
    }
}

/// The header a well-formed inclusion of the shape `Framework/Header.h`
/// names, without its `.h` suffix; an error describes how the name departs
/// from that shape. Only inclusions addressed to the current framework are
/// ever held to it.
pub open spec fn spec_inclusion_header(name: Seq<char>) -> Result<Seq<char>, InclusionError> {
    match find_char(name, '/') {
        None => Err(InclusionError::MissingHeaderComponent),
        Some(i) => {
            let rest = name.skip(i + 1);
            let file = first_component(rest);
            if !is_suffix_of(".h"@, file) {
                Err(InclusionError::NotAHeader)
            } else if find_char(rest, '/') is Some {
                Err(InclusionError::ExtraComponents)
            } else {
                Ok(file.take(file.len() - ".h"@.len()))
            }
        },
    }
}

/// The exec result agrees with `spec_inclusion_header`.
pub open spec fn inclusion_matches(
    r: Result<String, InclusionError>,
    s: Result<Seq<char>, InclusionError>,
) -> bool {
    match r {
        Ok(header) => s == Ok::<Seq<char>, InclusionError>(header@),
        Err(e) => s == Err::<Seq<char>, InclusionError>(e),
    }
}

/// Parse the header component of an inclusion name, exactly as
/// `spec_inclusion_header` describes.
pub fn inclusion_header(name: &str) -> (r: Result<String, InclusionError>)
    ensures
        inclusion_matches(r, spec_inclusion_header(name@)),
{
    let n = name.unicode_len();
    let i = match find(name, '/') {
        Some(i) => i,
        None => {
            return Err(InclusionError::MissingHeaderComponent);
        },
    };
    let rest = substring(name, i + 1, n);
    let file = match find(rest.as_str(), '/') {
        Some(j) => substring(rest.as_str(), 0, j),
        None => rest.clone(),
    };
    proof {
        assert(file@ == first_component(rest@));
    }
    if !ends_with(file.as_str(), ".h") {
        return Err(InclusionError::NotAHeader);
    }
    if find(rest.as_str(), '/').is_some() {
        return Err(InclusionError::ExtraComponents);
    }
    proof {
        reveal_strlit(".h");
        assert(file@.len() >= 2);
    }
    let header = substring(file.as_str(), 0, file.as_str().unicode_len() - 2);
    proof {
        assert(header@ == file@.take(file@.len() - ".h"@.len()));
    }
    Ok(header)
}

} // verus!
