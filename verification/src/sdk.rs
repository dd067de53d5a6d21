//! SDK discovery and target enumeration: each supported platform must
//! resolve to exactly one non-symlinked SDK whose declared platform agrees
//! with its directory, and a static table maps each platform to the target
//! triples actually parsed — a platform mapping to none is skipped for the
//! whole run, which is not an error.

use vstd::prelude::*;
use vstd::string::StringExecFns;

verus! {

/// A supported target OS family. Identity only.
#[derive(Clone, Copy, Debug, PartialEq, Eq, Structural)]
pub enum Platform {
    MacOsX,
    IPhoneOs,
    IPhoneSimulator,
    AppleTvOs,
    AppleTvSimulator,
    WatchOs,
    WatchSimulator,
    DriverKit,
}

/// One SDK root found while scanning a platform directory, reduced to what
/// selection reads: the platform it declares, whether the root is a
/// symlink, and where it lies.
#[derive(Debug)]
pub struct SdkCandidate {
    pub platform: Platform,
    pub is_symlink: bool,
    pub path: String,
}

/// The single SDK selected for a platform.
#[derive(Debug)]
pub struct SdkPath {
    pub platform: Platform,
    pub path: String,
}

/// A fatal discovery failure: not exactly one usable SDK for a platform.
#[derive(Debug)]
pub enum SdkError {
    WrongCount { platform: Platform, count: usize },
}

/// A candidate that selection keeps: not a symlink, and declaring the
/// platform whose directory it was found in.
pub open spec fn eligible(c: SdkCandidate, platform: Platform) -> bool {
    !c.is_symlink && c.platform == platform
}

/// The candidates that survive filtering, in scan order.
pub open spec fn eligible_of(cands: Seq<SdkCandidate>, platform: Platform) -> Seq<SdkCandidate> {
    cands.filter(|c: SdkCandidate| eligible(c, platform))
}

/// Select the one SDK for `platform` among `candidates`: succeeds exactly
/// when one candidate survives filtering, and otherwise reports the
/// platform and how many survived.
pub fn select_sdk(platform: Platform, candidates: &Vec<SdkCandidate>) -> (r: Result<
    SdkPath,
    SdkError,
>)
    ensures
        match r {
            Ok(s) => {
                &&& eligible_of(candidates@, platform).len() == 1
                &&& s.platform == platform
                &&& s.path@ == eligible_of(candidates@, platform)[0].path@
            },
            Err(SdkError::WrongCount { platform: p, count }) => {
                &&& p == platform
                &&& count == eligible_of(candidates@, platform).len()
                &&& count != 1
            },
        },
{
    let n = candidates.len();
    let mut count: usize = 0;
    let mut found: Option<SdkPath> = None;
    let mut i: usize = 0;
    proof {
        reveal(Seq::filter);
        assert(eligible_of(candidates@.take(0), platform) =~= Seq::<SdkCandidate>::empty());
    }
    while i < n
        invariant
            n == candidates@.len(),
            i <= n,
            count == eligible_of(candidates@.take(i as int), platform).len(),
            count <= i,
            match found {
                Some(s) => count >= 1 && s.platform == platform && s.path@ == eligible_of(
                    candidates@.take(i as int),
                    platform,
                )[0].path@,
                None => count == 0,
            },
        decreases n - i,
    {
        let ghost prefix = candidates@.take(i as int);
        let ghost ext = candidates@.take(i as int + 1);
        let c = &candidates[i];
        if !c.is_symlink && platform_eq(&c.platform, &platform) {
            proof {
                reveal(Seq::filter);
                assert(ext.drop_last() =~= prefix);
                assert(ext.last() == candidates@[i as int]);
                assert(eligible_of(ext, platform) == eligible_of(prefix, platform).push(
                    candidates@[i as int],
                ));
            }
            count = count + 1;
            if found.is_none() {
                found = Some(SdkPath { platform, path: c.path.clone() });
            }
        } else {
            proof {
                reveal(Seq::filter);
                assert(ext.drop_last() =~= prefix);
                assert(ext.last() == candidates@[i as int]);
                assert(eligible_of(ext, platform) == eligible_of(prefix, platform));
            }
        }
        i = i + 1;
    }
    proof {
        assert(candidates@.take(n as int) =~= candidates@);
    }
    if count == 1 {
        Ok(found.unwrap())
    } else {
        Err(SdkError::WrongCount { platform, count })
    }
}

/// Structural equality of two platforms.
pub fn platform_eq(a: &Platform, b: &Platform) -> (r: bool)
    ensures
        r == (a == b),
{
    *a == *b
}

/// Run selection over every platform's scan, in order. Succeeds only when
/// every platform selects; the first platform that does not aborts
/// discovery with its error.
pub fn discover(per_platform: &Vec<(Platform, Vec<SdkCandidate>)>) -> (r: Result<
    Vec<SdkPath>,
    SdkError,
>)
    ensures
        match r {
            Ok(v) => {
                &&& v@.len() == per_platform@.len()
                &&& forall|i: int|
                    0 <= i < per_platform@.len() ==> {
                        let (p, cands) = #[trigger] per_platform@[i];
                        &&& eligible_of(cands@, p).len() == 1
                        &&& v@[i].platform == p
                        &&& v@[i].path@ == eligible_of(cands@, p)[0].path@
                    }
            },
            Err(e) => exists|i: int|
                {
                    let (p, cands) = #[trigger] per_platform@[i];
                    &&& 0 <= i < per_platform@.len()
                    &&& eligible_of(cands@, p).len() != 1
                    &&& e matches SdkError::WrongCount { platform, count } && platform == p
                        && count == eligible_of(cands@, p).len()
                    &&& forall|j: int|
                        0 <= j < i ==> eligible_of(
                            (#[trigger] per_platform@[j]).1@,
                            per_platform@[j].0,
                        ).len() == 1
                },
        },
{
    let n = per_platform.len();
    let mut out: Vec<SdkPath> = Vec::new();
    let mut i: usize = 0;
    while i < n
        invariant
            n == per_platform@.len(),
            i <= n,
            out@.len() == i,
            forall|j: int|
                0 <= j < i ==> {
                    let (p, cands) = #[trigger] per_platform@[j];
                    &&& eligible_of(cands@, p).len() == 1
                    &&& out@[j].platform == p
                    &&& out@[j].path@ == eligible_of(cands@, p)[0].path@
                },
        decreases n - i,
    {
        let platform = per_platform[i].0;
        match select_sdk(platform, &per_platform[i].1) {
            Ok(s) => {
                out.push(s);
            },
            Err(e) => {
                return Err(e);
            },
        }
        i = i + 1;
    }
    Ok(out)
}

/// The static table of target triples parsed for each platform: `None`
/// skips the platform for the whole run, while an empty list keeps it with
/// nothing to parse.
pub fn llvm_targets(platform: &Platform) -> (r: Option<Vec<String>>)
    ensures
        match platform {
            Platform::MacOsX => r matches Some(v) && v@.len() == 1 && v@[0]@
                == "x86_64-apple-macosx10.7.0"@,
            Platform::IPhoneOs => r matches Some(v) && v@.len() == 0,
            _ => r is None,
        },
{
    match platform {
        Platform::MacOsX => {
            let mut v: Vec<String> = Vec::new();
            v.push(String::from_str("x86_64-apple-macosx10.7.0"));
            Some(v)
        },
        Platform::IPhoneOs => Some(Vec::new()),
        _ => None,
    }
}

/// The canonical platform: the one whose validated result is handed to the
/// output stage.
pub fn is_canonical_platform(platform: &Platform) -> (r: bool)
    ensures
        r == (platform is MacOsX),
{
    match platform {
        Platform::MacOsX => true,
        _ => false,
    }
}

} // verus!
