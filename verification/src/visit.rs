//! The visitation engine: a one-way `Preprocessing` → `Declarations` state
//! machine that dispatches each top-level entity of one parse, in source
//! order, into the per-framework model. Inclusion directives seen while
//! preprocessing discover files; macro entities carry no model effect;
//! anything else ends preprocessing and appends its translated statements to
//! the file its source location identifies, which an earlier inclusion must
//! already have created.

use vstd::prelude::*;
use crate::config::Config;
use crate::locate::{
    extract_framework_name, first_component, inclusion_framework, inclusion_header,
    spec_identify, spec_inclusion_header, InclusionError, LocateError,
};
use crate::model::{
    spec_append_statements, spec_ensure_file, stmt_views, value_among, Library, Statement, StrMap,
};
use crate::strutil::str_eq;

verus! {

/// One top-level entity of a parse, reduced to what the dispatch reads: its
/// kind, the included name for an inclusion directive (as the parser
/// reported it, when it did), and, for a declaration, the statements the
/// external grammar produced from it under the owning framework's
/// configuration.
#[derive(Debug)]
pub enum EntityInfo {
    Inclusion(Option<String>),
    MacroExpansion,
    MacroDefinition,
    Declaration(Vec<Statement>),
}

/// A fatal traversal contract violation.
#[derive(Debug)]
pub enum VisitError {
    /// A source path under the frameworks root breaks the layout convention.
    Path(LocateError),
    /// An inclusion directive carries no name.
    MissingInclusionName,
    /// An inclusion addressed to the current framework is malformed.
    Inclusion(InclusionError),
    /// A declaration's file was never created by an umbrella inclusion.
    MissingFile { library: String, file: String },
}

/// What an inclusion directive named `name`, seen in a file of the
/// configured framework `library`, does to that framework's content: only an
/// inclusion addressed to the framework itself is read at all, it must then
/// have the `Framework/Header.h` shape, and it creates the header's file
/// empty on first sight unless it names the framework's own umbrella header.
pub open spec fn spec_include(
    lib: Map<Seq<char>, Seq<Seq<char>>>,
    library: Seq<char>,
    name: Seq<char>,
) -> Result<Map<Seq<char>, Seq<Seq<char>>>, InclusionError> {
    if first_component(name) != library {
        Ok(lib)
    } else {
        match spec_inclusion_header(name) {
            Err(e) => Err(e),
            Ok(header) => if header != library {
                Ok(spec_ensure_file(lib, header))
            } else {
                Ok(lib)
            },
        }
    }
}

/// The statements an entity contributes when it reaches the declaration
/// branch of the dispatch: what the grammar produced for a declaration,
/// nothing for any other kind.
pub open spec fn entity_rows(info: EntityInfo) -> Seq<Seq<char>> {
    match info {
        EntityInfo::Declaration(stmts) => stmt_views(stmts@),
        _ => Seq::empty(),
    }
}

/// The engine neither changed phase nor touched the model.
pub open spec fn unchanged(pre: Visitor, post: Visitor) -> bool {
    post.preprocessing == pre.preprocessing && post.libraries@ == pre.libraries@
}

/// The declaration branch: statements land, in order, in the file the
/// source location identified; a file never created by an inclusion is a
/// fatal contract violation that names it and leaves the model as it was.
pub open spec fn declaration_post(
    pre: Visitor,
    post: Visitor,
    library: Seq<char>,
    stem: Seq<char>,
    rows: Seq<Seq<char>>,
    r: Result<(), VisitError>,
) -> bool {
    &&& post.preprocessing == false
    &&& if pre.libraries@[library].contains_key(stem) {
        &&& r == Ok::<(), VisitError>(())
        &&& post.libraries@ == pre.libraries@.insert(
            library,
            spec_append_statements(pre.libraries@[library], stem, rows),
        )
    } else {
        &&& r matches Err(VisitError::MissingFile { library: l, file: f }) && l@ == library && f@
            == stem
        &&& post.libraries@ == pre.libraries@
    }
}

/// The decision table of one dispatch step, keyed by the resolved identity,
/// the configuration, the entity kind and the current phase.
pub open spec fn visit_post(
    pre: Visitor,
    post: Visitor,
    path: Seq<char>,
    info: EntityInfo,
    r: Result<(), VisitError>,
) -> bool {
    match spec_identify(path, pre.frameworks_root@) {
        Err(e) => r == Err::<(), VisitError>(VisitError::Path(e)) && unchanged(pre, post),
        Ok(None) => r == Ok::<(), VisitError>(()) && unchanged(pre, post),
        Ok(Some((library, stem))) => {
            if !pre.libraries@.contains_key(library) {
                r == Ok::<(), VisitError>(()) && unchanged(pre, post)
            } else if pre.preprocessing {
                match info {
                    EntityInfo::Inclusion(name_opt) => match name_opt {
                        None => r == Err::<(), VisitError>(VisitError::MissingInclusionName)
                            && unchanged(pre, post),
                        Some(name) => match spec_include(
                            pre.libraries@[library],
                            library,
                            name@,
                        ) {
                            Err(e) => r == Err::<(), VisitError>(VisitError::Inclusion(e))
                                && unchanged(pre, post),
                            Ok(newlib) => {
                                &&& r == Ok::<(), VisitError>(())
                                &&& post.preprocessing == true
                                &&& post.libraries@ == pre.libraries@.insert(library, newlib)
                            },
                        },
                    },
                    EntityInfo::MacroExpansion => r == Ok::<(), VisitError>(()) && unchanged(
                        pre,
                        post,
                    ),
                    EntityInfo::MacroDefinition => r == Ok::<(), VisitError>(()) && unchanged(
                        pre,
                        post,
                    ),
                    EntityInfo::Declaration(stmts) => declaration_post(
                        pre,
                        post,
                        library,
                        stem,
                        stmt_views(stmts@),
                        r,
                    ),
                }
            } else {
                declaration_post(pre, post, library, stem, entity_rows(info), r)
            }
        },
    }
}

/// An umbrella inclusion of a header makes that header's file exist, and a
/// declaration located in the header then lands there: the library holds
/// the file with at least one statement.
pub proof fn lemma_umbrella_then_declaration(
    lib: Map<Seq<char>, Seq<Seq<char>>>,
    header: Seq<char>,
    rows: Seq<Seq<char>>,
)
    requires
        rows.len() >= 1,
    ensures
        ({
            let with_file = spec_ensure_file(lib, header);
            &&& with_file.contains_key(header)
            &&& spec_append_statements(with_file, header, rows).contains_key(header)
            &&& spec_append_statements(with_file, header, rows)[header].len() >= 1
        }),
{
    let with_file = spec_ensure_file(lib, header);
    assert(spec_append_statements(with_file, header, rows)[header] == with_file[header] + rows);
}

/// Issuing the same inclusion twice creates the file only once: the second
/// sighting is an idempotent no-op on the model.
pub proof fn lemma_inclusion_idempotent(
    lib: Map<Seq<char>, Seq<Seq<char>>>,
    library: Seq<char>,
    name: Seq<char>,
)
    ensures
        spec_include(lib, library, name) matches Ok(once) ==> spec_include(once, library, name)
            == Ok::<Map<Seq<char>, Seq<Seq<char>>>, InclusionError>(once),
{
}

/// One dispatch step is deterministic: from equal engine states, the same
/// entity leads to equal states and the same success or failure, so two
/// independent passes over the same entity sequence accumulate identical
/// models.
pub proof fn lemma_visit_deterministic(
    pre: Visitor,
    post1: Visitor,
    post2: Visitor,
    path: Seq<char>,
    info: EntityInfo,
    r1: Result<(), VisitError>,
    r2: Result<(), VisitError>,
)
    requires
        visit_post(pre, post1, path, info, r1),
        visit_post(pre, post2, path, info, r2),
    ensures
        post1.preprocessing == post2.preprocessing,
        post1.libraries@ == post2.libraries@,
        r1 is Ok <==> r2 is Ok,
{
    match spec_identify(path, pre.frameworks_root@) {
        Err(e) => {},
        Ok(None) => {},
        Ok(Some((library, stem))) => {
            if pre.libraries@.contains_key(library) && pre.preprocessing {
                match info {
                    EntityInfo::Inclusion(name_opt) => {},
                    EntityInfo::MacroExpansion => {},
                    EntityInfo::MacroDefinition => {},
                    EntityInfo::Declaration(stmts) => {},
                }
            }
        },
    }
}

/// A macro-definition entity visited while preprocessing never creates a
/// file and never moves the engine out of the preprocessing phase, wherever
/// its location resolved to.
pub proof fn lemma_macro_definition_no_effect(
    pre: Visitor,
    post: Visitor,
    path: Seq<char>,
    r: Result<(), VisitError>,
)
    requires
        pre.preprocessing,
        visit_post(pre, post, path, EntityInfo::MacroDefinition, r),
    ensures
        post.preprocessing == true,
        post.libraries@ == pre.libraries@,
{
    match spec_identify(path, pre.frameworks_root@) {
        Err(e) => {},
        Ok(None) => {},
        Ok(Some((library, stem))) => {},
    }
}

/// Re-inserting the value a key already holds changes nothing.
proof fn lemma_reinsert_same(m: Map<Seq<char>, Map<Seq<char>, Seq<Seq<char>>>>, k: Seq<char>)
    requires
        m.contains_key(k),
    ensures
        m.insert(k, m[k]) == m,
{
    assert(m.insert(k, m[k]) =~= m);
}

/// Well-formedness of every stored library survives a take followed by an
/// insert of a well-formed value.
proof fn wf_values_after(
    pre: Seq<(String, Library)>,
    mid: Seq<(String, Library)>,
    post: Seq<(String, Library)>,
    v: Library,
)
    requires
        forall|p: int| 0 <= p < mid.len() ==> value_among(pre, #[trigger] mid[p].1),
        forall|p: int|
            0 <= p < post.len() ==> #[trigger] post[p].1 == v || value_among(mid, post[p].1),
        forall|j: int| 0 <= j < pre.len() ==> (#[trigger] pre[j].1).wf(),
        v.wf(),
    ensures
        forall|p: int| 0 <= p < post.len() ==> (#[trigger] post[p].1).wf(),
{
    assert forall|p: int| 0 <= p < post.len() implies (#[trigger] post[p].1).wf() by {
        if post[p].1 != v {
            let q = choose|q: int| 0 <= q < mid.len() && mid[q].1 == post[p].1;
            let j = choose|j: int| 0 <= j < pre.len() && pre[j].1 == mid[q].1;
            assert(pre[j].1.wf());
        }
    }
}

/// The engine's per-parse state: the one-way phase flag, the frameworks root
/// every source location is resolved against, and the accumulated model, one
/// library per configured framework. Construct it through `new`.
pub struct Visitor {
    pub preprocessing: bool,
    pub frameworks_root: String,
    pub libraries: StrMap<Library>,
}

impl Visitor {
    /// Key uniqueness in the outer map and in every library's file map.
    pub open spec fn wf(&self) -> bool {
        &&& self.libraries.wf()
        &&& forall|i: int|
            0 <= i < self.libraries.entries@.len() ==> (
            #[trigger] self.libraries.entries@[i].1).wf()
    }

    /// A fresh engine for one parse pass: in the preprocessing phase, with
    /// one empty library per configured framework, whether or not any
    /// content is ever found for it.
    pub fn new(configs: &StrMap<Config>, frameworks_root: String) -> (r: Visitor)
        requires
            configs.wf(),
        ensures
            r.wf(),
            r.preprocessing == true,
            r.frameworks_root == frameworks_root,
            forall|k: Seq<char>|
                #[trigger] r.libraries@.contains_key(k) <==> configs@.contains_key(k),
            forall|k: Seq<char>|
                r.libraries@.contains_key(k) ==> #[trigger] r.libraries@[k] == Map::<
                    Seq<char>,
                    Seq<Seq<char>>,
                >::empty(),
    {
        let mut libraries: StrMap<Library> = StrMap::new();
        let n = configs.len();
        let mut i: usize = 0;
        while i < n
            invariant
                configs.wf(),
                n == configs.entries@.len(),
                i <= n,
                libraries.wf(),
                forall|p: int|
                    0 <= p < libraries.entries@.len() ==> (
                    #[trigger] libraries.entries@[p].1).wf(),
                forall|k: Seq<char>|
                    #[trigger] libraries@.contains_key(k) <==> exists|j: int|
                        0 <= j < i && (#[trigger] configs.entries@[j]).0@ == k,
                forall|k: Seq<char>|
                    libraries@.contains_key(k) ==> #[trigger] libraries@[k] == Map::<
                        Seq<char>,
                        Seq<Seq<char>>,
                    >::empty(),
            decreases n - i,
        {
            let ghost before = libraries;
            let key = configs.entries[i].0.clone();
            let lib = Library::new();
            libraries.insert(key, lib);
            proof {
                assert forall|p: int| 0 <= p < libraries.entries@.len() implies (
                #[trigger] libraries.entries@[p].1).wf() by {
                    if libraries.entries@[p].1 != lib {
                        let j = choose|j: int|
                            0 <= j < before.entries@.len() && before.entries@[j].1
                                == libraries.entries@[p].1;
                        assert(before.entries@[j].1.wf());
                    }
                }
                assert forall|k: Seq<char>| #[trigger] libraries@.contains_key(k) implies (exists|
                    j: int,
                |
                    0 <= j < i + 1 && (#[trigger] configs.entries@[j]).0@ == k) by {
                    if k == configs.entries@[i as int].0@ {
                        assert(0 <= i < i + 1 && configs.entries@[i as int].0@ == k);
                    } else {
                        assert(before@.contains_key(k));
                    }
                }
                assert forall|k: Seq<char>|
                    (exists|j: int|
                        0 <= j < i + 1 && (#[trigger] configs.entries@[j]).0@
                            == k) implies #[trigger] libraries@.contains_key(k) by {
                    let j = choose|j: int|
                        0 <= j < i + 1 && (#[trigger] configs.entries@[j]).0@ == k;
                    if j < i {
                        assert(before@.contains_key(k));
                    }
                }
            }
            i = i + 1;
        }
        proof {
            assert forall|k: Seq<char>| #[trigger] libraries@.contains_key(k)
                <==> configs@.contains_key(k) by {
                crate::model::lemma_entries_map_contains(configs.entries@, k);
            }
        }
        Visitor { preprocessing: true, frameworks_root, libraries }
    }

    /// Dispatch one top-level entity, as `visit_post` describes: resolve the
    /// source location, skip entities outside the frameworks root or outside
    /// any configured framework, let preprocessing-phase inclusions discover
    /// files and macro entities pass without effect, and treat everything
    /// else as a declaration that ends preprocessing and appends to its
    /// already-created file.
    pub fn visit(&mut self, path: &str, info: EntityInfo) -> (r: Result<(), VisitError>)
        requires
            old(self).wf(),
        ensures
            final(self).wf(),
            final(self).frameworks_root == old(self).frameworks_root,
            visit_post(*old(self), *final(self), path@, info, r),
    {
        let ghost pre = *self;
        let (library_name, stem) = match extract_framework_name(
            path,
            self.frameworks_root.as_str(),
        ) {
            Err(e) => {
                return Err(VisitError::Path(e));
            },
            Ok(None) => {
                return Ok(());
            },
            Ok(Some(pair)) => pair,
        };
        if !self.libraries.contains_key(library_name.as_str()) {
            return Ok(());
        }
        if self.preprocessing {
            match info {
                EntityInfo::Inclusion(name_opt) => {
                    let name = match name_opt {
                        Some(n) => n,
                        None => {
                            return Err(VisitError::MissingInclusionName);
                        },
                    };
                    let fw = inclusion_framework(name.as_str());
                    if !str_eq(fw.as_str(), library_name.as_str()) {
                        proof {
                            lemma_reinsert_same(pre.libraries@, library_name@);
                        }
                        return Ok(());
                    }
                    let header = match inclusion_header(name.as_str()) {
                        Ok(h) => h,
                        Err(e) => {
                            return Err(VisitError::Inclusion(e));
                        },
                    };
                    if str_eq(header.as_str(), library_name.as_str()) {
                        proof {
                            lemma_reinsert_same(pre.libraries@, library_name@);
                        }
                        return Ok(());
                    }
                    let mut library = self.libraries.take(library_name.as_str()).unwrap();
                    proof {
                        let j = choose|j: int|
                            0 <= j < pre.libraries.entries@.len() && pre.libraries.entries@[j].1
                                == library;
                        assert(library.wf());
                    }
                    let ghost mid = self.libraries.entries@;
                    library.ensure_file(header.as_str());
                    let ghost libv = library;
                    self.libraries.insert(library_name, library);
                    proof {
                        wf_values_after(pre.libraries.entries@, mid, self.libraries.entries@, libv);
                        assert(self.libraries@ =~= pre.libraries@.insert(library_name@, libv@));
                    }
                    Ok(())
                },
                EntityInfo::MacroExpansion => Ok(()),
                EntityInfo::MacroDefinition => Ok(()),
                EntityInfo::Declaration(stmts) => {
                    self.preprocessing = false;
                    self.visit_declaration(library_name, stem, stmts)
                },
            }
        } else {
            let stmts = match info {
                EntityInfo::Declaration(s) => s,
                _ => Vec::new(),
            };
            proof {
                assert(stmt_views(stmts@) =~= entity_rows(info));
            }
            self.visit_declaration(library_name, stem, stmts)
        }
    }

    /// Route one declaration-phase entity: append `stmts` to the file that
    /// the source location identified, which an umbrella inclusion must
    /// already have created; a missing file is a fatal contract violation
    /// that leaves the model unchanged.
    fn visit_declaration(
        &mut self,
        library_name: String,
        stem: String,
        stmts: Vec<Statement>,
    ) -> (r: Result<(), VisitError>)
        requires
            old(self).wf(),
            old(self).preprocessing == false,
            old(self).libraries@.contains_key(library_name@),
        ensures
            final(self).wf(),
            final(self).preprocessing == old(self).preprocessing,
            final(self).frameworks_root == old(self).frameworks_root,
            declaration_post(
                *old(self),
                *final(self),
                library_name@,
                stem@,
                stmt_views(stmts@),
                r,
            ),
    {
        let ghost pre = *self;
        let mut library = self.libraries.take(library_name.as_str()).unwrap();
        proof {
            let j = choose|j: int|
                0 <= j < pre.libraries.entries@.len() && pre.libraries.entries@[j].1 == library;
            assert(library.wf());
        }
        let ghost mid = self.libraries.entries@;
        if !library.contains_file(stem.as_str()) {
            let ghost libv = library;
            self.libraries.insert(library_name.clone(), library);
            proof {
                wf_values_after(pre.libraries.entries@, mid, self.libraries.entries@, libv);
                assert(self.libraries@ =~= pre.libraries@);
            }
            return Err(VisitError::MissingFile { library: library_name, file: stem });
        }
        library.append_statements(stem.as_str(), stmts);
        let ghost libv = library;
        self.libraries.insert(library_name, library);
        proof {
            wf_values_after(pre.libraries.entries@, mid, self.libraries.entries@, libv);
            assert(self.libraries@ =~= pre.libraries@.insert(
                library_name@,
                spec_append_statements(pre.libraries@[library_name@], stem@, stmt_views(stmts@)),
            ));
        }
        Ok(())
    }

    /// Whether the engine is still in its preprocessing phase.
    pub fn is_preprocessing(&self) -> (r: bool)
        ensures
            r == self.preprocessing,
    {
        self.preprocessing
    }

    /// Hand the accumulated model over at the end of the pass.
    pub fn into_result(self) -> (r: StrMap<Library>)
        ensures
            r == self.libraries,
    {
        self.libraries
    }
}

} // verus!
