//! The cross-target consistency check. Two independent parses of the same
//! logical input under different target triples must produce
//! library-for-library identical content; the comparison requires identical
//! key sets — they are fixed by the configuration regardless of triple — and
//! reports the first diverging library by name. A single inconsistency
//! invalidates the whole run.

use vstd::prelude::*;
use crate::model::{
    lemma_entries_map_contains, lemma_entries_map_value, spec_append_statements, File, Library,
    StrMap,
};

verus! {

/// A structural divergence between two parses' models.
#[derive(Debug)]
pub enum MismatchError {
    /// The two models do not track the same framework set.
    KeySetMismatch,
    /// The named framework's content differs between the two models.
    Divergence { library: String },
}

/// Statement-for-statement equality of two files' contents.
pub fn file_eq(a: &File, b: &File) -> (r: bool)
    ensures
        r == (a@ == b@),
{
    let n = a.statements.len();
    if n != b.statements.len() {
        proof {
            assert(a@.len() == a.statements@.len());
            assert(b@.len() == b.statements@.len());
        }
        return false;
    }
    let mut i: usize = 0;
    while i < n
        invariant
            n == a.statements@.len(),
            n == b.statements@.len(),
            i <= n,
            forall|j: int| 0 <= j < i ==> a@[j] == b@[j],
        decreases n - i,
    {
        if !a.statements[i].same_content(&b.statements[i]) {
            assert(a@[i as int] != b@[i as int]);
            return false;
        }
        i = i + 1;
    }
    proof {
        assert(a@ =~= b@);
    }
    true
}

/// File-for-file equality of two libraries' contents.
pub fn library_eq(a: &Library, b: &Library) -> (r: bool)
    requires
        a.wf(),
        b.wf(),
    ensures
        r == (a@ == b@),
{
    let n = a.files.entries.len();
    let mut i: usize = 0;
    while i < n
        invariant
            a.wf(),
            b.wf(),
            n == a.files.entries@.len(),
            i <= n,
            forall|j: int|
                0 <= j < i ==> b@.contains_key((#[trigger] a.files.entries@[j]).0@) && b@[
                    a.files.entries@[j].0@
                ] == a.files.entries@[j].1@,
        decreases n - i,
    {
        proof {
            lemma_entries_map_value(a.files.entries@, i as int);
        }
        let key = &a.files.entries[i].0;
        let file = &a.files.entries[i].1;
        match b.files.get(key.as_str()) {
            None => {
                proof {
                    assert(a@.contains_key(key@) && !b@.contains_key(key@));
                }
                return false;
            },
            Some(other) => {
                if !file_eq(file, other) {
                    proof {
                        assert(a@[key@] != b@[key@]);
                    }
                    return false;
                }
            },
        }
        i = i + 1;
    }
    let m = b.files.entries.len();
    let mut p: usize = 0;
    while p < m
        invariant
            a.wf(),
            b.wf(),
            m == b.files.entries@.len(),
            p <= m,
            forall|j: int|
                0 <= j < a.files.entries@.len() ==> b@.contains_key(
                    (#[trigger] a.files.entries@[j]).0@,
                ) && b@[a.files.entries@[j].0@] == a.files.entries@[j].1@,
            forall|j: int| 0 <= j < p ==> a@.contains_key((#[trigger] b.files.entries@[j]).0@),
        decreases m - p,
    {
        proof {
            lemma_entries_map_value(b.files.entries@, p as int);
        }
        let key = &b.files.entries[p].0;
        if !a.files.contains_key(key.as_str()) {
            proof {
                assert(b@.contains_key(key@) && !a@.contains_key(key@));
            }
            return false;
        }
        p = p + 1;
    }
    proof {
        assert forall|k: Seq<char>| #[trigger] a@.contains_key(k) implies b@.contains_key(k) && a@[k]
            == b@[k] by {
            lemma_entries_map_contains(a.files.entries@, k);
            let j = choose|j: int| 0 <= j < a.files.entries@.len() && a.files.entries@[j].0@ == k;
            lemma_entries_map_value(a.files.entries@, j);
        }
        assert forall|k: Seq<char>| #[trigger] b@.contains_key(k) implies a@.contains_key(k) by {
            lemma_entries_map_contains(b.files.entries@, k);
            let j = choose|j: int| 0 <= j < b.files.entries@.len() && b.files.entries@[j].0@ == k;
        }
        assert(a@ =~= b@);
    }
    true
}

/// All values stored in a library map are themselves well formed.
pub open spec fn libraries_wf(m: &StrMap<Library>) -> bool {
    forall|i: int| 0 <= i < m.entries@.len() ==> (#[trigger] m.entries@[i].1).wf()
}

/// Deep structural comparison of two parses' models. `Ok` exactly when the
/// models agree; a key-set difference is its own fatal error, and otherwise
/// the first diverging framework is reported by name.
pub fn compare_results(a: &StrMap<Library>, b: &StrMap<Library>) -> (r: Result<(), MismatchError>)
    requires
        a.wf(),
        b.wf(),
        libraries_wf(a),
        libraries_wf(b),
    ensures
        match r {
            Ok(()) => a@ == b@,
            Err(MismatchError::KeySetMismatch) => a@.dom() != b@.dom(),
            Err(MismatchError::Divergence { library }) => {
                &&& a@.contains_key(library@)
                &&& b@.contains_key(library@)
                &&& a@[library@] != b@[library@]
            },
        },
{
    let n = a.entries.len();
    let mut i: usize = 0;
    while i < n
        invariant
            a.wf(),
            b.wf(),
            n == a.entries@.len(),
            i <= n,
            forall|j: int| 0 <= j < i ==> b@.contains_key((#[trigger] a.entries@[j]).0@),
        decreases n - i,
    {
        proof {
            lemma_entries_map_value(a.entries@, i as int);
        }
        if !b.contains_key(a.entries[i].0.as_str()) {
            proof {
                let k = a.entries@[i as int].0@;
                assert(a@.contains_key(k) && !b@.contains_key(k));
                assert(a@.dom() != b@.dom()) by {
                    assert(a@.dom().contains(k) && !b@.dom().contains(k));
                }
            }
            return Err(MismatchError::KeySetMismatch);
        }
        i = i + 1;
    }
    let m = b.entries.len();
    let mut p: usize = 0;
    while p < m
        invariant
            a.wf(),
            b.wf(),
            m == b.entries@.len(),
            p <= m,
            forall|j: int|
                0 <= j < a.entries@.len() ==> b@.contains_key((#[trigger] a.entries@[j]).0@),
            forall|j: int| 0 <= j < p ==> a@.contains_key((#[trigger] b.entries@[j]).0@),
        decreases m - p,
    {
        proof {
            lemma_entries_map_value(b.entries@, p as int);
        }
        if !a.contains_key(b.entries[p].0.as_str()) {
            proof {
                let k = b.entries@[p as int].0@;
                assert(a@.dom() != b@.dom()) by {
                    assert(b@.dom().contains(k) && !a@.dom().contains(k));
                }
            }
            return Err(MismatchError::KeySetMismatch);
        }
        p = p + 1;
    }
    let mut q: usize = 0;
    while q < n
        invariant
            a.wf(),
            b.wf(),
            libraries_wf(a),
            libraries_wf(b),
            n == a.entries@.len(),
            q <= n,
            forall|j: int|
                0 <= j < a.entries@.len() ==> b@.contains_key((#[trigger] a.entries@[j]).0@),
            forall|j: int|
                0 <= j < b.entries@.len() ==> a@.contains_key((#[trigger] b.entries@[j]).0@),
            forall|j: int|
                0 <= j < q ==> b@[(#[trigger] a.entries@[j]).0@] == a.entries@[j].1@,
        decreases n - q,
    {
        proof {
            lemma_entries_map_value(a.entries@, q as int);
        }
        let key = &a.entries[q].0;
        let lib_a = &a.entries[q].1;
        let lib_b = b.get(key.as_str()).unwrap();
        proof {
            let j = choose|j: int| 0 <= j < b.entries@.len() && b.entries@[j].1 == *lib_b;
            assert(lib_b.wf());
        }
        if !library_eq(lib_a, lib_b) {
            proof {
                assert(a@[key@] != b@[key@]);
            }
            return Err(MismatchError::Divergence { library: key.clone() });
        }
        q = q + 1;
    }
    proof {
        assert forall|k: Seq<char>| #[trigger] a@.contains_key(k) implies b@.contains_key(k) && a@[k]
            == b@[k] by {
            lemma_entries_map_contains(a.entries@, k);
            let j = choose|j: int| 0 <= j < a.entries@.len() && a.entries@[j].0@ == k;
            lemma_entries_map_value(a.entries@, j);
        }
        assert forall|k: Seq<char>| #[trigger] b@.contains_key(k) implies a@.contains_key(k) by {
            lemma_entries_map_contains(b.entries@, k);
            let j = choose|j: int| 0 <= j < b.entries@.len() && b.entries@[j].0@ == k;
        }
        assert(a@ =~= b@);
    }
    Ok(())
}

/// Injecting one extra statement into one library of one parse's model makes
/// that library differ, so the comparison reports it by name rather than
/// accepting the pair.
pub proof fn lemma_injected_statement_diverges(
    m: Map<Seq<char>, Map<Seq<char>, Seq<Seq<char>>>>,
    library: Seq<char>,
    stem: Seq<char>,
    row: Seq<char>,
)
    requires
        m.contains_key(library),
        m[library].contains_key(stem),
    ensures
        ({
            let tampered = m.insert(
                library,
                spec_append_statements(m[library], stem, seq![row]),
            );
            &&& tampered.contains_key(library)
            &&& tampered[library] != m[library]
        }),
{
    let l1 = m[library];
    let l2 = spec_append_statements(l1, stem, seq![row]);
    assert(l2[stem].len() == l1[stem].len() + 1);
}

} // verus!
