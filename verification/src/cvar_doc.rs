//! Scanning a parsed document for the values of registered cvars.
//!
//! The scan follows the path tree, not the document: only what stands at a
//! registered path is looked at, and whatever else the document holds is
//! passed over.

use crate::document::{
    item_as_table, item_as_value, item_at, item_below, item_clone, item_kind,
    parsed_document_clone, parsed_document_item, parsed_root, table_get, table_items, visible,
    ItemKind,
};
use crate::path::{segment_views, split_path, split_segments};
use crate::management::{record_of, CVarManagement, Registry};
use crate::tree::{CVarTreeNode, ComponentId};
use crate::types::CVarFlags;
use toml_edit::{ImDocument, Item, Table};
use vstd::prelude::*;

verus! {

/// A cvar found in a document: its name, and the item found at its path.
pub type UnparsedCVar = (String, Item);

/// A TOML document and its associated source data.
pub struct DocumentContext {
    document: ImDocument<String>,
    source: String,
}

impl DocumentContext {
    /// The parsed document.
    pub closed spec fn document_spec(&self) -> ImDocument<String> {
        self.document
    }

    /// The name of the document's source.
    pub closed spec fn source_spec(&self) -> Seq<char> {
        self.source@
    }

    /// Creates a new `DocumentContext`.
    pub fn new(document: ImDocument<String>, source: String) -> (context: DocumentContext)
        ensures
            context.document_spec() == document,
            context.source_spec() == source@,
    {
        DocumentContext { document, source }
    }

    /// Returns the source of this document.
    pub fn source(&self) -> (source: &str)
        ensures
            source@ == self.source_spec(),
    {
        self.source.as_str()
    }

    /// A copy of the document and its source.
    pub fn duplicate(&self) -> (copy: DocumentContext)
        ensures
            copy.document_spec() == self.document_spec(),
            copy.source_spec() == self.source_spec(),
    {
        DocumentContext {
            document: parsed_document_clone(&self.document),
            source: self.source.clone(),
        }
    }
}

/// Whether a cvar may be set from a document: from a user's document only a
/// cvar that is saved may be set, from any other document every cvar.
pub open spec fn admitted(registry: Registry, reg: ComponentId, user_config: bool) -> bool {
    !user_config || match record_of(registry.records, reg) {
        Some(record) => record.flags.contains_spec(CVarFlags(CVarFlags::SAVED)),
        None => false,
    }
}

/// What the scan takes for the path `q` below the namespace at `route`, whose
/// table in the document is `table`: if `q` leads to a cvar that may be set
/// and to an item of the document, the cvar's name and that item.
pub open spec fn staged_below(
    registry: Registry,
    route: Seq<Seq<char>>,
    table: Table,
    user_config: bool,
    q: Seq<Seq<char>>,
) -> Option<(Seq<char>, Item)> {
    let p = route + q;
    if registry.tree.contains_key(p) && registry.tree[p] is Leaf && item_at(table, q) is Some
        && admitted(registry, registry.tree[p]->reg, user_config) {
        Some((registry.tree[p]->name, item_at(table, q)->0))
    } else {
        None
    }
}

/// `staged` is a scan of `table` below `route`: it holds what the scan takes
/// for each path in `paths`, in the same order, and `paths` names every path
/// for which the scan takes something, each once.
pub open spec fn scan_of(
    staged: Seq<UnparsedCVar>,
    paths: Seq<Seq<Seq<char>>>,
    registry: Registry,
    route: Seq<Seq<char>>,
    table: Table,
    user_config: bool,
) -> bool {
    &&& paths.len() == staged.len()
    &&& paths.no_duplicates()
    &&& forall|i: int|
        0 <= i < paths.len() ==> staged_below(registry, route, table, user_config, #[trigger] paths[i])
            == Some((staged[i].0@, staged[i].1))
    &&& forall|q: Seq<Seq<char>>| #[trigger]
        staged_below(registry, route, table, user_config, q) is Some ==> paths.contains(q)
}

/// `staged` is a scan of the document whose root item is `root`: for every
/// registered cvar that may be set and whose path leads to an item of the
/// document, the cvar's name with that item, each cvar once. The order is
/// that in which the tree happens to be walked.
pub open spec fn is_scan(
    staged: Seq<UnparsedCVar>,
    registry: Registry,
    root: Item,
    user_config: bool,
) -> bool {
    match item_kind(root) {
        ItemKind::Table(table) => exists|paths: Seq<Seq<Seq<char>>>|
            scan_of(staged, paths, registry, Seq::empty(), table, user_config),
        _ => staged.len() == 0,
    }
}

/// What a document holds for one cvar.
#[derive(Debug, Clone, Copy, PartialEq, Eq, Structural)]
pub enum ScanVerdict {
    /// The path names no registered cvar.
    Unknown,
    /// The document holds nothing at the cvar's path.
    Absent,
    /// A segment of the path before the last one is taken in the document
    /// by something that is no table.
    ExpectedTable,
    /// The document is a user's, and the cvar is not saved: it is passed
    /// over.
    NotSaved,
    /// The document holds something at the path that is no value: it is
    /// taken by the scan, and passed over when the scan is applied.
    NotAValue,
    /// The document holds a value at the path, which the scan takes.
    Staged,
}

/// Whether the path `p` is blocked below a table that holds `items`: a
/// segment before the last one leads to something that is no table.
pub open spec fn blocked(items: Map<Seq<char>, Item>, p: Seq<Seq<char>>) -> bool
    decreases p.len(),
{
    p.len() >= 2 && items.contains_key(p[0]) && match item_kind(items[p[0]]) {
        ItemKind::Empty => false,
        ItemKind::Table(sub) => blocked(table_items(sub), p.drop_first()),
        _ => true,
    }
}

/// What the document with the root item `root` holds for the path `p`.
pub open spec fn verdict(
    registry: Registry,
    root: Item,
    user_config: bool,
    p: Seq<Seq<char>>,
) -> ScanVerdict {
    if !(registry.tree.contains_key(p) && registry.tree[p] is Leaf) {
        ScanVerdict::Unknown
    } else {
        match item_kind(root) {
            ItemKind::Table(table) => match item_at(table, p) {
                Some(item) => if !admitted(registry, registry.tree[p]->reg, user_config) {
                    ScanVerdict::NotSaved
                } else if item_kind(item) is Value {
                    ScanVerdict::Staged
                } else {
                    ScanVerdict::NotAValue
                },
                None => if blocked(table_items(table), p) {
                    ScanVerdict::ExpectedTable
                } else {
                    ScanVerdict::Absent
                },
            },
            _ => ScanVerdict::Absent,
        }
    }
}

/// The scan takes something for a path exactly where the verdict on the path
/// is that it is staged, or that it is no value.
pub proof fn lemma_verdict_of_staged(
    registry: Registry,
    table: Table,
    root: Item,
    user_config: bool,
    p: Seq<Seq<char>>,
)
    requires
        item_kind(root) == ItemKind::Table(table),
    ensures
        staged_below(registry, Seq::empty(), table, user_config, p) is Some <==> (verdict(
            registry,
            root,
            user_config,
            p,
        ) == ScanVerdict::Staged || verdict(registry, root, user_config, p)
            == ScanVerdict::NotAValue),
{
    assert(Seq::<Seq<char>>::empty() + p =~= p);
}

/// Scans one document for the values of registered cvars.
pub struct CVarDocScanner {
    document: ImDocument<String>,
    source: String,
    user_config: bool,
}

impl CVarDocScanner {
    /// The document that is scanned.
    pub closed spec fn document_spec(&self) -> ImDocument<String> {
        self.document
    }

    /// Whether the document is a user's.
    pub closed spec fn user_config_spec(&self) -> bool {
        self.user_config
    }

    /// The name of the document's source.
    pub closed spec fn source_spec(&self) -> Seq<char> {
        self.source@
    }

    /// Returns the source of the document that is scanned.
    pub fn source(&self) -> (source: &str)
        ensures
            source@ == self.source_spec(),
    {
        self.source.as_str()
    }

    /// A scanner for `document`. `user_config` says whether the document is a
    /// user's, from which only saved cvars may be set.
    pub fn new(document: DocumentContext, user_config: bool) -> (scanner: CVarDocScanner)
        ensures
            scanner.document_spec() == document.document_spec(),
            scanner.source_spec() == document.source_spec(),
            scanner.user_config_spec() == user_config,
    {
        CVarDocScanner { document: document.document, source: document.source, user_config }
    }

    /// Scans the table `item` of the document for the cvars below the
    /// namespace at `pos`, and adds what it finds to `outp`.
    fn traverse(
        &self,
        item: &Table,
        management: &CVarManagement,
        pos: usize,
        outp: &mut Vec<UnparsedCVar>,
    ) -> (found: Ghost<Seq<Seq<Seq<char>>>>)
        requires
            management.wf(),
            pos < management.tree_spec().positions(),
            management.tree_spec().shape(pos as int) is Branch,
        ensures
            final(outp)@.len() == old(outp)@.len() + found@.len(),
            final(outp)@.take(old(outp)@.len() as int) == old(outp)@,
            scan_of(
                final(outp)@.skip(old(outp)@.len() as int),
                found@,
                management@,
                management.tree_spec().route(pos as int),
                *item,
                self.user_config,
            ),
        decreases management.tree_spec().positions() - pos,
    {
        let tree = management.tree();
        let ghost registry = management@;
        let ghost route = tree.route(pos as int);
        let ghost start = outp@;
        let ghost uc = self.user_config;
        let mut found: Ghost<Seq<Seq<Seq<char>>>> = Ghost(Seq::empty());
        proof {
            assert(outp@.take(start.len() as int) =~= start);
        }
        let entries = match tree.children(pos) {
            Some(entries) => entries,
            None => {
                return Ghost(Seq::empty());
            },
        };
        let mut j: usize = 0;
        while j < entries.len()
            invariant
                management.wf(),
                tree.wf(),
                tree@ == registry.tree,
                registry == management@,
                *tree == management.tree_spec(),
                pos < tree.positions(),
                tree.shape(pos as int) is Branch,
                route == tree.route(pos as int),
                uc == self.user_config,
                tree.lists_children(pos as int, entries@),
                0 <= j <= entries.len(),
                outp@.len() == start.len() + found@.len(),
                outp@.take(start.len() as int) == start,
                found@.no_duplicates(),
                forall|i: int|
                    0 <= i < found@.len() ==> staged_below(
                        registry,
                        route,
                        *item,
                        uc,
                        #[trigger] found@[i],
                    ) == Some((outp@[start.len() + i].0@, outp@[start.len() + i].1)),
                forall|i: int|
                    0 <= i < found@.len() ==> (#[trigger] found@[i]).len() >= 1 && exists|e: int|
                        0 <= e < j && #[trigger] entries@[e].0@ == found@[i][0],
                forall|q: Seq<Seq<char>>, e: int|
                    0 <= e < j && q.len() >= 1 && #[trigger] entries@[e].0@ == q[0]
                        && #[trigger] staged_below(registry, route, *item, uc, q) is Some
                        ==> found@.contains(q),
            decreases entries.len() - j,
        {
            let key = entries[j].0.as_str();
            let child = entries[j].1;
            let ghost k = entries@[j as int].0@;
            let ghost before_out = outp@;
            let ghost before_found = found@;
            let ghost deeper = route.push(k);
            proof {
                assert(tree.child(pos as int, k) == Some(child as int));
                tree.lemma_child(pos as int, k);
                tree.lemma_tree_model();
                assert(tree.route(child as int) == deeper);
                assert(registry.tree.contains_key(deeper));
                assert(registry.tree[deeper] == tree.shape(child as int));
                assert(route + seq![k] =~= deeper);
                assert(outp@.skip(before_out.len() as int) =~= Seq::<UnparsedCVar>::empty());
                assert(outp@.take(before_out.len() as int) =~= before_out);
            }
            // the paths found in this round, all of which begin with `k`
            let mut fresh: Ghost<Seq<Seq<Seq<char>>>> = Ghost(Seq::empty());
            match table_get(item, key) {
                None => {
                    proof {
                        assert forall|q: Seq<Seq<char>>|
                            q.len() >= 1 && q[0] == k implies !(#[trigger] staged_below(
                            registry,
                            route,
                            *item,
                            uc,
                            q,
                        ) is Some) by {
                            if staged_below(registry, route, *item, uc, q) is Some {
                                lemma_below_key(
                                    tree,
                                    registry,
                                    pos as int,
                                    child as int,
                                    *item,
                                    uc,
                                    k,
                                    q,
                                );
                            }
                        }
                    }
                },
                Some(value) => {
                    match tree.leaf(child) {
                        Some((name, reg)) => {
                            let allowed = if self.user_config {
                                match management.record(reg) {
                                    Some(meta) => meta.flags().contains(
                                        CVarFlags(CVarFlags::SAVED),
                                    ),
                                    None => false,
                                }
                            } else {
                                true
                            };
                            proof {
                                assert(allowed == admitted(registry, reg, uc));
                                assert(item_at(*item, seq![k]) == Some(*value));
                            }
                            if allowed {
                                outp.push((name.clone(), item_clone(value)));
                                proof {
                                    fresh@ = seq![seq![k]];
                                    let added = outp@.skip(before_out.len() as int);
                                    assert(added[0] == outp@[before_out.len() as int]);
                                    assert(outp@.take(before_out.len() as int) =~= before_out);
                                }
                            }
                            proof {
                                assert forall|q: Seq<Seq<char>>|
                                    q.len() >= 1 && q[0] == k && #[trigger] staged_below(
                                        registry,
                                        route,
                                        *item,
                                        uc,
                                        q,
                                    ) is Some implies fresh@.contains(q) by {
                                    lemma_below_key(
                                        tree,
                                        registry,
                                        pos as int,
                                        child as int,
                                        *item,
                                        uc,
                                        k,
                                        q,
                                    );
                                    assert(q =~= seq![k]);
                                    assert(route + q =~= deeper);
                                    assert(allowed);
                                    assert(fresh@[0] == q);
                                }
                            }
                        },
                        None => {
                            match item_as_table(value) {
                                Some(sub) => {
                                    let below = self.traverse(sub, management, child, outp);
                                    proof {
                                        fresh@ = Seq::new(
                                            below@.len(),
                                            |i: int| seq![k] + below@[i],
                                        );
                                        let added = outp@.skip(before_out.len() as int);
                                        assert forall|i: int| 0 <= i < below@.len() implies {
                                            &&& (#[trigger] fresh@[i]).len() >= 1
                                            &&& fresh@[i][0] == k
                                            &&& staged_below(registry, route, *item, uc, fresh@[i])
                                                == Some((added[i].0@, added[i].1))
                                        } by {
                                            let q = below@[i];
                                            assert(staged_below(registry, deeper, *sub, uc, q)
                                                is Some);
                                            assert(q.len() >= 1);
                                            lemma_step_down(registry, route, *item, uc, k, *sub, q);
                                        }
                                        assert forall|a: int, b: int|
                                            0 <= a < b < fresh@.len() implies fresh@[a]
                                            != fresh@[b] by {
                                            if fresh@[a] == fresh@[b] {
                                                assert((seq![k] + below@[a]).drop_first()
                                                    =~= below@[a]);
                                                assert((seq![k] + below@[b]).drop_first()
                                                    =~= below@[b]);
                                                assert(below@[a] == below@[b]);
                                            }
                                        }
                                        assert forall|q: Seq<Seq<char>>|
                                            q.len() >= 1 && q[0] == k && #[trigger] staged_below(
                                                registry,
                                                route,
                                                *item,
                                                uc,
                                                q,
                                            ) is Some implies fresh@.contains(q) by {
                                            lemma_below_key(
                                                tree,
                                                registry,
                                                pos as int,
                                                child as int,
                                                *item,
                                                uc,
                                                k,
                                                q,
                                            );
                                            let rest = q.drop_first();
                                            assert(seq![k] + rest =~= q);
                                            lemma_step_down(
                                                registry,
                                                route,
                                                *item,
                                                uc,
                                                k,
                                                *sub,
                                                rest,
                                            );
                                            assert(below@.contains(rest));
                                            let at = choose|at: int|
                                                0 <= at < below@.len() && below@[at] == rest;
                                            assert(fresh@[at] == q);
                                        }
                                    }
                                },
                                None => {
                                    proof {
                                        assert forall|q: Seq<Seq<char>>|
                                            q.len() >= 1 && q[0] == k implies !(
                                        #[trigger] staged_below(registry, route, *item, uc, q)
                                            is Some) by {
                                            if staged_below(registry, route, *item, uc, q)
                                                is Some {
                                                lemma_below_key(
                                                    tree,
                                                    registry,
                                                    pos as int,
                                                    child as int,
                                                    *item,
                                                    uc,
                                                    k,
                                                    q,
                                                );
                                            }
                                        }
                                    }
                                },
                            }
                        },
                    }
                },
            }
            proof {
                let added = outp@.skip(before_out.len() as int);
                assert(round_of(fresh@, added, registry, route, *item, uc, k));
                found@ = before_found + fresh@;
                assert(outp@.take(start.len() as int) =~= start) by {
                    assert(outp@.take(before_out.len() as int).take(start.len() as int)
                        =~= outp@.take(start.len() as int));
                }
                assert forall|i: int| 0 <= i < found@.len() implies staged_below(
                    registry,
                    route,
                    *item,
                    uc,
                    #[trigger] found@[i],
                ) == Some((outp@[start.len() + i].0@, outp@[start.len() + i].1)) by {
                    if i < before_found.len() {
                        assert(found@[i] == before_found[i]);
                        assert(outp@[start.len() + i] == outp@.take(before_out.len() as int)[
                            start.len() + i
                        ]);
                    } else {
                        let f = i - before_found.len();
                        assert(found@[i] == fresh@[f]);
                        assert(added[f] == outp@[before_out.len() + f]);
                    }
                }
                assert forall|i: int| 0 <= i < found@.len() implies (#[trigger] found@[i]).len()
                    >= 1 && exists|e: int|
                    0 <= e < j + 1 && #[trigger] entries@[e].0@ == found@[i][0] by {
                    if i < before_found.len() {
                        assert(found@[i] == before_found[i]);
                        let e = choose|e: int|
                            0 <= e < j && #[trigger] entries@[e].0@ == before_found[i][0];
                        assert(entries@[e].0@ == found@[i][0]);
                    } else {
                        let f = i - before_found.len();
                        assert(found@[i] == fresh@[f]);
                        assert(entries@[j as int].0@ == found@[i][0]);
                    }
                }
                assert(found@.no_duplicates()) by {
                    assert forall|a: int, b: int|
                        0 <= a < b < found@.len() implies found@[a] != found@[b] by {
                        if b < before_found.len() {
                            assert(found@[a] == before_found[a]);
                            assert(found@[b] == before_found[b]);
                        } else if a < before_found.len() {
                            assert(found@[a] == before_found[a]);
                            assert(found@[b] == fresh@[b - before_found.len()]);
                            let e = choose|e: int|
                                0 <= e < j && #[trigger] entries@[e].0@ == before_found[a][0];
                            assert(entries@[e].0@ != entries@[j as int].0@);
                        } else {
                            assert(found@[a] == fresh@[a - before_found.len()]);
                            assert(found@[b] == fresh@[b - before_found.len()]);
                        }
                    }
                }
                assert forall|q: Seq<Seq<char>>, e: int|
                    0 <= e < j + 1 && q.len() >= 1 && #[trigger] entries@[e].0@ == q[0]
                        && #[trigger] staged_below(registry, route, *item, uc, q)
                        is Some implies found@.contains(q) by {
                    if e < j {
                        assert(before_found.contains(q));
                        let at = choose|at: int| 0 <= at < before_found.len() && before_found[at] == q;
                        assert(found@[at] == q);
                    } else {
                        assert(fresh@.contains(q));
                        let at = choose|at: int| 0 <= at < fresh@.len() && fresh@[at] == q;
                        assert(found@[before_found.len() + at] == q);
                    }
                }
            }
            j = j + 1;
        }
        proof {
            let added = outp@.skip(start.len() as int);
            assert forall|i: int| 0 <= i < found@.len() implies staged_below(
                registry,
                route,
                *item,
                uc,
                #[trigger] found@[i],
            ) == Some((added[i].0@, added[i].1)) by {
                assert(added[i] == outp@[start.len() + i]);
            }
            assert forall|q: Seq<Seq<char>>| #[trigger]
                staged_below(registry, route, *item, uc, q) is Some implies found@.contains(q) by {
                assert(q.len() >= 1);
                lemma_first_segment(tree, registry, pos as int, q);
                let e = choose|e: int| 0 <= e < entries@.len() && #[trigger] entries@[e].0@ == q[0];
                assert(entries@[e].0@ == q[0]);
            }
        }
        found
    }

    /// Tells what the document holds for the cvar at the dotted path `cvar`:
    /// whether the scan takes a value for it, and if not, why.
    pub fn inspect(&self, management: &CVarManagement, cvar: &str) -> (r: ScanVerdict)
        requires
            management.wf(),
        ensures
            r == verdict(
                management@,
                parsed_root(self.document_spec()),
                self.user_config_spec(),
                split_segments(cvar@),
            ),
    {
        let tree = management.tree();
        let ghost p = split_segments(cvar@);
        let reg = match tree.get(cvar) {
            Some(reg) => reg,
            None => {
                return ScanVerdict::Unknown;
            },
        };
        let table = match item_as_table(parsed_document_item(&self.document)) {
            Some(table) => table,
            None => {
                return ScanVerdict::Absent;
            },
        };
        let segments = split_path(cvar);
        let n = segments.len();
        let mut cur: &Table = table;
        let mut i: usize = 0;
        proof {
            assert(p.skip(0) =~= p);
        }
        while i + 1 < n
            invariant
                n == segments.len(),
                p == segment_views(segments@),
                p == split_segments(cvar@),
                management@.tree.contains_key(p),
                management@.tree[p] is Leaf,
                item_kind(parsed_root(self.document)) == ItemKind::Table(*table),
                0 <= i < n,
                item_at(*table, p) == item_below(table_items(*cur), p.skip(i as int)),
                blocked(table_items(*table), p) == blocked(table_items(*cur), p.skip(i as int)),
            decreases n - i,
        {
            proof {
                assert(p.skip(i as int)[0] == segments@[i as int]@);
                assert(p.skip(i as int).drop_first() =~= p.skip(i + 1));
            }
            match table_get(cur, segments[i].as_str()) {
                None => {
                    return ScanVerdict::Absent;
                },
                Some(item) => match item_as_table(item) {
                    Some(sub) => {
                        cur = sub;
                    },
                    None => {
                        return ScanVerdict::ExpectedTable;
                    },
                },
            }
            i = i + 1;
        }
        proof {
            assert(p.skip(i as int)[0] == segments@[i as int]@);
            assert(p.skip(i as int).len() == 1);
        }
        match table_get(cur, segments[i].as_str()) {
            None => ScanVerdict::Absent,
            Some(item) => {
                let allowed = if self.user_config {
                    match management.record(reg) {
                        Some(meta) => meta.flags().contains(CVarFlags(CVarFlags::SAVED)),
                        None => false,
                    }
                } else {
                    true
                };
                if !allowed {
                    ScanVerdict::NotSaved
                } else if item_as_value(item).is_some() {
                    ScanVerdict::Staged
                } else {
                    ScanVerdict::NotAValue
                }
            },
        }
    }

    /// Finds the cvars of the registry in the document.
    ///
    /// For every registered cvar whose path leads to an item of the document,
    /// through tables only, the result holds the cvar's name with a copy of
    /// that item; from a user's document only cvars that are saved are taken.
    /// Keys of the document that lead to no cvar are passed over.
    pub fn find_cvars(&self, management: &CVarManagement) -> (outp: Vec<UnparsedCVar>)
        requires
            management.wf(),
        ensures
            is_scan(
                outp@,
                management@,
                parsed_root(self.document_spec()),
                self.user_config_spec(),
            ),
    {
        let mut outp: Vec<UnparsedCVar> = Vec::new();
        let tree = management.tree();
        let root = tree.root();
        proof {
            tree.lemma_tree_model();
        }
        match item_as_table(parsed_document_item(&self.document)) {
            Some(table) => {
                let found = self.traverse(table, management, root, &mut outp);
                proof {
                    assert(outp@.skip(0) =~= outp@);
                    assert(exists|paths: Seq<Seq<Seq<char>>>|
                        scan_of(
                            outp@,
                            paths,
                            management@,
                            Seq::empty(),
                            *table,
                            self.user_config,
                        )) by {
                        assert(scan_of(
                            outp@,
                            found@,
                            management@,
                            Seq::empty(),
                            *table,
                            self.user_config,
                        ));
                    }
                    assert(item_kind(parsed_root(self.document))->Table_0 == *table);
                    assert(is_scan(
                        outp@,
                        management@,
                        parsed_root(self.document),
                        self.user_config,
                    ));
                }
            },
            None => {},
        }
        outp
    }
}

/// A cvar that is not saved is passed over in a user's document, and is taken
/// from any other document that holds an item at its path.
pub proof fn lemma_unsaved_passed_over(registry: Registry, table: Table, q: Seq<Seq<char>>)
    requires
        registry.tree.contains_key(q),
        registry.tree[q] is Leaf,
        record_of(registry.records, registry.tree[q]->reg) is Some,
        !record_of(registry.records, registry.tree[q]->reg)->0.flags.contains_spec(
            CVarFlags(CVarFlags::SAVED),
        ),
    ensures
        staged_below(registry, Seq::empty(), table, true, q) is None,
        item_at(table, q) is Some ==> staged_below(registry, Seq::empty(), table, false, q) == Some(
            (registry.tree[q]->name, item_at(table, q)->0),
        ),
{
    assert(Seq::<Seq<char>>::empty() + q =~= q);
}

/// What one round of the scan finds: `fresh` names the paths that begin with
/// the key `k` and for which the scan takes something, each once, and `added`
/// holds what the scan takes for them.
spec fn round_of(
    fresh: Seq<Seq<Seq<char>>>,
    added: Seq<UnparsedCVar>,
    registry: Registry,
    route: Seq<Seq<char>>,
    table: Table,
    user_config: bool,
    k: Seq<char>,
) -> bool {
    &&& added.len() == fresh.len()
    &&& fresh.no_duplicates()
    &&& forall|i: int|
        0 <= i < fresh.len() ==> {
            &&& (#[trigger] fresh[i]).len() >= 1
            &&& fresh[i][0] == k
            &&& staged_below(registry, route, table, user_config, fresh[i]) == Some(
                (added[i].0@, added[i].1),
            )
        }
    &&& forall|q: Seq<Seq<char>>|
        q.len() >= 1 && q[0] == k && #[trigger] staged_below(
            registry,
            route,
            table,
            user_config,
            q,
        ) is Some ==> fresh.contains(q)
}

/// Going one segment down: what the scan takes for `k` followed by `rest`
/// below a namespace is what it takes for `rest` below the child at `k`, in
/// the table that the document holds under `k`.
proof fn lemma_step_down(
    registry: Registry,
    route: Seq<Seq<char>>,
    table: Table,
    user_config: bool,
    k: Seq<char>,
    sub: Table,
    rest: Seq<Seq<char>>,
)
    requires
        rest.len() >= 1,
        visible(table, k) is Some,
        item_kind(visible(table, k)->0) == ItemKind::Table(sub),
    ensures
        staged_below(registry, route, table, user_config, seq![k] + rest) == staged_below(
            registry,
            route.push(k),
            sub,
            user_config,
            rest,
        ),
{
    let q = seq![k] + rest;
    assert(q.drop_first() =~= rest);
    assert(q[0] == k);
    assert(route + q =~= route.push(k) + rest);
    assert(item_at(table, q) == item_at(sub, rest));
}

/// What the scan can take below the key `k` of a namespace, whose child at
/// `k` is the node at `child`: the child itself, if it is a value, and paths
/// that go on below it through a table of the document, if it is a namespace.
proof fn lemma_below_key(
    tree: &CVarTreeNode,
    registry: Registry,
    pos: int,
    child: int,
    table: Table,
    user_config: bool,
    k: Seq<char>,
    q: Seq<Seq<char>>,
)
    requires
        tree.wf(),
        tree@ == registry.tree,
        0 <= pos < tree.positions(),
        tree.child(pos, k) == Some(child),
        q.len() >= 1,
        q[0] == k,
        staged_below(registry, tree.route(pos), table, user_config, q) is Some,
    ensures
        visible(table, k) is Some,
        q.len() == 1 ==> tree.shape(child) is Leaf,
        q.len() > 1 ==> tree.shape(child) is Branch && item_kind(visible(table, k)->0) is Table,
{
    let route = tree.route(pos);
    let p = route + q;
    tree.lemma_child(pos, k);
    tree.lemma_tree_model();
    let deeper = route.push(k);
    assert(p.take(route.len() as int + 1) =~= deeper);
    tree.lemma_prefix_closed(p, route.len() as int + 1);
    if q.len() == 1 {
        assert(p =~= deeper);
    }
}

/// A path for which the scan takes something below a namespace begins with a
/// key under which the namespace has a child.
proof fn lemma_first_segment(
    tree: &CVarTreeNode,
    registry: Registry,
    pos: int,
    q: Seq<Seq<char>>,
)
    requires
        tree.wf(),
        tree@ == registry.tree,
        0 <= pos < tree.positions(),
        q.len() >= 1,
        registry.tree.contains_key(tree.route(pos) + q),
    ensures
        tree.child(pos, q[0]) is Some,
{
    let route = tree.route(pos);
    let p = route + q;
    let deeper = route.push(q[0]);
    assert(p.take(route.len() as int + 1) =~= deeper);
    tree.lemma_prefix_closed(p, route.len() as int + 1);
    tree.lemma_tree_model();
    let c = choose|c: int| 0 <= c < tree.positions() && #[trigger] tree.route(c) == deeper;
    assert(deeper.drop_last() =~= route);
    assert(deeper.last() == q[0]);
    tree.lemma_child_routes(pos, c);
}

} // verus!
