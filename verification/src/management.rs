//! The registry of cvars: the path tree and the record of each registered
//! cvar, with reading and writing of values by path.

use crate::codec::{decode, decoded, encodes, lemma_encoded_then_decoded};
use crate::collections::{record_map, record_map_get, record_map_insert, record_map_new, RecordMap};
use crate::defaults::IsDefaultMut;
use crate::error::{fetch_failure, CVarError};
use crate::path::split_segments;
use crate::reflect::{apply_to, inner_of, CVarRecord, ReflectCVar};
use crate::resource::{Mut, Resource, ResourceState};
use crate::tree::{
    conflict_at, inserted, inserted_root, is_prefix, leaf_at, lemma_registered_then_found,
    CVarTreeNode, ComponentId, NodeShape, TreeConflict,
};
use crate::types::CVarFlags;
use crate::value::{CVarType, CVarValue, ValueModel};
use crate::resources::{fetch, ResourceFetchError, Resources};
use toml_edit::Value;
use vstd::pervasive::unreached;
use vstd::prelude::*;

verus! {

/// How a write is recorded.
#[derive(Debug, Clone, Copy, PartialEq, Eq, Structural)]
pub enum WriteMode {
    /// The write is recorded as a modification.
    Normal,
    /// The value written counts as the default one afterwards.
    Silent,
}

/// What the registry holds.
pub struct Registry {
    /// The path tree.
    pub tree: Map<Seq<Seq<char>>, NodeShape>,
    /// The registered cvars, in the order of their registration, each with
    /// its handle.
    pub records: Seq<(ComponentId, CVarRecord)>,
}

/// How a write ends: its result, and the resources after it.
pub struct Outcome {
    /// The result of the write.
    pub result: Result<(), CVarError>,
    /// The resources after the write.
    pub world: Seq<Option<ResourceState>>,
}

/// The record registered for `id`, if there is one.
pub open spec fn record_of(records: Seq<(ComponentId, CVarRecord)>, id: ComponentId) -> Option<
    CVarRecord,
> {
    if exists|i: int| 0 <= i < records.len() && (#[trigger] records[i]).0 == id {
        Some(records[choose|i: int| 0 <= i < records.len() && (#[trigger] records[i]).0 == id].1)
    } else {
        None
    }
}

/// The records with `record` registered for `id`: in the place of the record
/// that `id` had, or at the end.
pub open spec fn with_record(
    records: Seq<(ComponentId, CVarRecord)>,
    id: ComponentId,
    record: CVarRecord,
) -> Seq<(ComponentId, CVarRecord)> {
    if exists|i: int| 0 <= i < records.len() && (#[trigger] records[i]).0 == id {
        records.update(
            choose|i: int| 0 <= i < records.len() && (#[trigger] records[i]).0 == id,
            (id, record),
        )
    } else {
        records.push((id, record))
    }
}

/// The resource that a cvar is given at registration: its default value, not
/// modified.
pub open spec fn fresh_resource(value: ValueModel) -> ResourceState {
    ResourceState::fresh(seq![value])
}

/// What a write does to one resource: a normal write records a modification
/// first, whether or not the value can then be applied; a silent write applies
/// the value and makes it count as the default.
pub open spec fn cell_write(state: ResourceState, value: ValueModel, mode: WriteMode) -> (
    Result<(), CVarError>,
    ResourceState,
) {
    match mode {
        WriteMode::Normal => match apply_to(state.touched(), value) {
            Ok(after) => (Ok(()), after),
            Err(e) => (Err(e), state.touched()),
        },
        WriteMode::Silent => match apply_to(state, value) {
            Ok(after) => (Ok(()), after.settled()),
            Err(e) => (Err(e), state),
        },
    }
}

impl Registry {
    /// The handle of the cvar at `cvar`, if the path leads to a cvar.
    pub open spec fn resolve(self, cvar: Seq<char>) -> Option<ComponentId> {
        leaf_at(self.tree, split_segments(cvar))
    }

    /// The registry's records fit its tree: no handle has two records, the
    /// path of each record leads to the record's handle, every value of the
    /// tree has a record and a name that splits into its path.
    pub open spec fn valid(self) -> bool {
        &&& forall|p: Seq<Seq<char>>|
            self.tree.contains_key(p) && (#[trigger] self.tree[p]) is Leaf ==> record_of(
                self.records,
                self.tree[p]->reg,
            ) is Some && split_segments(self.tree[p]->name) == p
        &&& forall|i: int, j: int|
            0 <= i < j < self.records.len() ==> (#[trigger] self.records[i]).0 != (
            #[trigger] self.records[j]).0
        &&& forall|i: int|
            0 <= i < self.records.len() ==> self.resolve((#[trigger] self.records[i]).1.path)
                == Some(self.records[i].0)
    }

    /// Every handle of the registry is below `n`: the registry belongs to a
    /// table of `n` resources.
    pub open spec fn fits(self, n: nat) -> bool {
        &&& forall|p: Seq<Seq<char>>|
            self.tree.contains_key(p) && (#[trigger] self.tree[p]) is Leaf ==> self.tree[p]->reg.0
                < n
        &&& forall|i: int| 0 <= i < self.records.len() ==> (#[trigger] self.records[i]).0.0 < n
    }

    /// No value of the tree stands below another value.
    pub open spec fn separate(self) -> bool {
        forall|p: Seq<Seq<char>>, q: Seq<Seq<char>>|
            self.tree.contains_key(p) && self.tree.contains_key(q) && (#[trigger] self.tree[p])
                is Leaf && (#[trigger] self.tree[q]) is Leaf && p != q ==> !is_prefix(p, q)
    }

    /// No two values of the tree have the same handle.
    pub open spec fn distinct_handles(self) -> bool {
        forall|p: Seq<Seq<char>>, q: Seq<Seq<char>>|
            self.tree.contains_key(p) && self.tree.contains_key(q) && (#[trigger] self.tree[p])
                is Leaf && (#[trigger] self.tree[q]) is Leaf && p != q ==> self.tree[p]->reg
                != self.tree[q]->reg
    }

    /// What reading the cvar at `cvar` gives.
    pub open spec fn read(self, world: Seq<Option<ResourceState>>, cvar: Seq<char>) -> Result<
        ValueModel,
        CVarError,
    > {
        match self.resolve(cvar) {
            None => Err(CVarError::UnknownCVar),
            Some(id) => match record_of(self.records, id) {
                None => Err(CVarError::UnknownCVar),
                Some(_) => match fetch(world, id) {
                    Err(e) => Err(fetch_failure(e)),
                    Ok(state) => inner_of(state),
                },
            },
        }
    }

    /// How writing `value` to the resource of `id` ends.
    pub open spec fn write_cell(
        self,
        world: Seq<Option<ResourceState>>,
        id: ComponentId,
        value: ValueModel,
        mode: WriteMode,
    ) -> Outcome {
        match fetch(world, id) {
            Err(e) => Outcome { result: Err(fetch_failure(e)), world },
            Ok(state) => Outcome {
                result: cell_write(state, value, mode).0,
                world: world.update(id.0 as int, Some(cell_write(state, value, mode).1)),
            },
        }
    }

    /// The type of the cvar at `cvar`, if the path leads to a cvar with a
    /// record.
    pub open spec fn type_of(self, cvar: Seq<char>) -> Option<CVarType> {
        match self.resolve(cvar) {
            None => None,
            Some(id) => match record_of(self.records, id) {
                None => None,
                Some(record) => Some(record.inner_type),
            },
        }
    }

    /// How writing `value` to the cvar at `cvar` ends.
    pub open spec fn write(
        self,
        world: Seq<Option<ResourceState>>,
        cvar: Seq<char>,
        value: ValueModel,
        mode: WriteMode,
    ) -> Outcome {
        match self.resolve(cvar) {
            None => Outcome { result: Err(CVarError::UnknownCVar), world },
            Some(id) => match record_of(self.records, id) {
                None => Outcome { result: Err(CVarError::MissingCid), world },
                Some(_) => self.write_cell(world, id, value, mode),
            },
        }
    }

    /// How writing the document value `raw` to the cvar at `cvar` ends.
    /// `detail` is the text that the deserializer gives where `raw` is not a
    /// value of the cvar's type.
    pub open spec fn write_raw(
        self,
        world: Seq<Option<ResourceState>>,
        cvar: Seq<char>,
        raw: Value,
        mode: WriteMode,
        detail: String,
    ) -> Outcome {
        match self.resolve(cvar) {
            None => Outcome { result: Err(CVarError::UnknownCVar), world },
            Some(id) => match record_of(self.records, id) {
                None => Outcome { result: Err(CVarError::MissingCid), world },
                Some(record) => if !record.deserialize {
                    Outcome { result: Err(CVarError::CannotDeserialize), world }
                } else {
                    match decoded(record.inner_type, raw) {
                        None => Outcome {
                            result: Err(CVarError::FailedDeserialize(detail)),
                            world,
                        },
                        Some(value) => self.write_cell(world, id, value, mode),
                    }
                },
            },
        }
    }

    /// The registry after the cvar of `record` was registered under `id`.
    pub open spec fn with_cvar(self, id: ComponentId, record: CVarRecord) -> Registry {
        Registry {
            tree: inserted(self.tree, split_segments(record.path), record.path, id),
            records: with_record(self.records, id, record),
        }
    }
}

/// A registry that belongs to a table of resources still does so, and still
/// has a handle of its own for each value, once a cvar was registered under
/// the handle of a resource that was added to the table.
pub proof fn lemma_registered_fits(registry: Registry, n: nat, record: CVarRecord)
    requires
        registry.fits(n),
        registry.distinct_handles(),
        n <= usize::MAX,
    ensures
        registry.with_cvar(ComponentId(n as usize), record).fits(n + 1),
        registry.with_cvar(ComponentId(n as usize), record).distinct_handles(),
{
    let id = ComponentId(n as usize);
    let after = registry.with_cvar(id, record);
    assert forall|i: int| 0 <= i < after.records.len() implies (#[trigger] after.records[i]).0.0 < n
        + 1 by {
        if after.records[i] != (id, record) {
            if exists|i: int|
                0 <= i < registry.records.len() && (#[trigger] registry.records[i]).0 == id {
                assert(after.records[i] == registry.records[i]);
            } else {
                assert(after.records[i] == registry.records[i]);
            }
        }
    }
}

/// Registering a record keeps every handle that had a record with one.
pub proof fn lemma_with_record_keeps(
    records: Seq<(ComponentId, CVarRecord)>,
    id: ComponentId,
    record: CVarRecord,
    other: ComponentId,
)
    requires
        record_of(records, other) is Some,
    ensures
        record_of(with_record(records, id, record), other) is Some,
{
    let after = with_record(records, id, record);
    let at = choose|i: int| 0 <= i < records.len() && (#[trigger] records[i]).0 == other;
    if exists|i: int| 0 <= i < records.len() && (#[trigger] records[i]).0 == id {
        let i = choose|i: int| 0 <= i < records.len() && (#[trigger] records[i]).0 == id;
        if at == i {
            assert(after[at].0 == other);
        } else {
            assert(after[at] == records[at]);
        }
    } else {
        assert(after[at] == records[at]);
    }
    assert(after[at].0 == other);
}

/// In a valid registry, a path that leads to a cvar leads to a record: no
/// read and no write fails for want of one.
pub proof fn lemma_resolved_has_record(registry: Registry, cvar: Seq<char>)
    requires
        registry.valid(),
        registry.resolve(cvar) is Some,
    ensures
        record_of(registry.records, registry.resolve(cvar)->0) is Some,
{
    let p = split_segments(cvar);
    assert(registry.tree.contains_key(p) && registry.tree[p] is Leaf);
}

/// A cvar that was registered is found under its path, with its record, and
/// its path cannot be registered again.
pub proof fn lemma_registered_resolves(registry: Registry, id: ComponentId, record: CVarRecord)
    ensures
        registry.with_cvar(id, record).resolve(record.path) == Some(id),
        record_of(registry.with_cvar(id, record).records, id) is Some,
        conflict_at(registry.with_cvar(id, record).tree, split_segments(record.path)) is Some,
{
    lemma_registered_then_found(
        registry.tree,
        split_segments(record.path),
        record.path,
        id,
    );
    let after = with_record(registry.records, id, record);
    if exists|i: int| 0 <= i < registry.records.len() && (#[trigger] registry.records[i]).0 == id {
        let i = choose|i: int|
            0 <= i < registry.records.len() && (#[trigger] registry.records[i]).0 == id;
        assert(after[i].0 == id);
    } else {
        assert(after[registry.records.len() as int].0 == id);
    }
}

/// A value that was written to a cvar is the value that is read from it
/// afterwards.
pub proof fn lemma_write_then_read(
    registry: Registry,
    world: Seq<Option<ResourceState>>,
    cvar: Seq<char>,
    value: ValueModel,
    mode: WriteMode,
)
    requires
        registry.write(world, cvar, value, mode).result is Ok,
    ensures
        registry.read(registry.write(world, cvar, value, mode).world, cvar) == Ok::<
            ValueModel,
            CVarError,
        >(value),
{
    let id = registry.resolve(cvar)->0;
    let state = fetch(world, id)->Ok_0;
    let after = cell_write(state, value, mode).1;
    assert(after.fields.len() > 0 && after.fields[0] == value);
}

/// A document value that was written to a cvar is read from the cvar
/// afterwards as the value of the cvar's type that it stands for.
pub proof fn lemma_raw_write_then_read(
    registry: Registry,
    world: Seq<Option<ResourceState>>,
    cvar: Seq<char>,
    raw: Value,
    mode: WriteMode,
    detail: String,
)
    requires
        registry.write_raw(world, cvar, raw, mode, detail).result is Ok,
    ensures
        registry.resolve(cvar) is Some,
        record_of(registry.records, registry.resolve(cvar)->0) is Some,
        decoded(record_of(registry.records, registry.resolve(cvar)->0)->0.inner_type, raw) is Some,
        registry.read(registry.write_raw(world, cvar, raw, mode, detail).world, cvar) == Ok::<
            ValueModel,
            CVarError,
        >(decoded(record_of(registry.records, registry.resolve(cvar)->0)->0.inner_type, raw)->0),
{
    let id = registry.resolve(cvar)->0;
    let record = record_of(registry.records, id)->0;
    let value = decoded(record.inner_type, raw)->0;
    let state = fetch(world, id)->Ok_0;
    let after = cell_write(state, value, mode).1;
    assert(after.fields.len() > 0 && after.fields[0] == value);
}

/// A value of a cvar's type that was written into a document value, and from
/// there to the cvar, is read from the cvar as it was.
pub proof fn lemma_serialized_round_trip(
    registry: Registry,
    world: Seq<Option<ResourceState>>,
    cvar: Seq<char>,
    raw: Value,
    value: ValueModel,
    mode: WriteMode,
    detail: String,
)
    requires
        encodes(raw, value),
        registry.type_of(cvar) == Some(value.inner_type()),
        registry.write_raw(world, cvar, raw, mode, detail).result is Ok,
    ensures
        registry.read(registry.write_raw(world, cvar, raw, mode, detail).world, cvar) == Ok::<
            ValueModel,
            CVarError,
        >(value),
{
    lemma_raw_write_then_read(registry, world, cvar, raw, mode, detail);
    let id = registry.resolve(cvar)->0;
    let record = record_of(registry.records, id)->0;
    lemma_encoded_then_decoded(raw, value);
    assert(decoded(record.inner_type, raw) is Some);
    assert(record.inner_type == value.inner_type());
}

/// After a silent write the cvar's value counts as the default; after a
/// normal write it counts as modified. Neither changes the fields that a reset
/// brings back.
pub proof fn lemma_write_marks(
    registry: Registry,
    world: Seq<Option<ResourceState>>,
    cvar: Seq<char>,
    value: ValueModel,
    mode: WriteMode,
)
    requires
        registry.write(world, cvar, value, mode).result is Ok,
        fetch(world, registry.resolve(cvar)->0)->Ok_0.valid(),
    ensures
        fetch(registry.write(world, cvar, value, mode).world, registry.resolve(cvar)->0) is Ok,
        fetch(
            registry.write(world, cvar, value, mode).world,
            registry.resolve(cvar)->0,
        )->Ok_0.is_default() == (mode == WriteMode::Silent),
        fetch(
            registry.write(world, cvar, value, mode).world,
            registry.resolve(cvar)->0,
        )->Ok_0.valid(),
        fetch(registry.write(world, cvar, value, mode).world, registry.resolve(cvar)->0)->Ok_0.initial
            == fetch(world, registry.resolve(cvar)->0)->Ok_0.initial,
{
}

/// After a silent write of a document value the cvar's value counts as the
/// default; after a normal write it counts as modified.
pub proof fn lemma_raw_write_marks(
    registry: Registry,
    world: Seq<Option<ResourceState>>,
    cvar: Seq<char>,
    raw: Value,
    mode: WriteMode,
    detail: String,
)
    requires
        registry.write_raw(world, cvar, raw, mode, detail).result is Ok,
        fetch(world, registry.resolve(cvar)->0)->Ok_0.valid(),
    ensures
        fetch(
            registry.write_raw(world, cvar, raw, mode, detail).world,
            registry.resolve(cvar)->0,
        ) is Ok,
        fetch(
            registry.write_raw(world, cvar, raw, mode, detail).world,
            registry.resolve(cvar)->0,
        )->Ok_0.is_default() == (mode == WriteMode::Silent),
        fetch(
            registry.write_raw(world, cvar, raw, mode, detail).world,
            registry.resolve(cvar)->0,
        )->Ok_0.initial == fetch(world, registry.resolve(cvar)->0)->Ok_0.initial,
{
}

/// A write touches the resource of its cvar and no other.
pub proof fn lemma_write_keeps_others(
    registry: Registry,
    world: Seq<Option<ResourceState>>,
    cvar: Seq<char>,
    raw: Value,
    mode: WriteMode,
    detail: String,
    other: ComponentId,
)
    requires
        registry.resolve(cvar) != Some(other),
    ensures
        registry.write_raw(world, cvar, raw, mode, detail).world.len() == world.len(),
        fetch(registry.write_raw(world, cvar, raw, mode, detail).world, other) == fetch(
            world,
            other,
        ),
{
}

/// The detail that a failed deserialization came with; any text for another
/// result.
pub open spec fn failure_detail(r: Result<(), CVarError>) -> String {
    match r {
        Err(CVarError::FailedDeserialize(detail)) => detail,
        _ => arbitrary(),
    }
}

/// Management information and functionality for cvars: an index of all cvars
/// by path, and the record of each by its handle.
///
/// The handles are also kept in the order of registration, which is the order
/// in which the cvars are saved.
pub struct CVarManagement {
    /// The record of each registered cvar, under the handle of its resource.
    pub(crate) resources: RecordMap,
    /// The handles of the registered cvars, in the order of registration.
    pub(crate) order: Vec<ComponentId>,
    /// An index of all cvars by path.
    pub(crate) tree: CVarTreeNode,
}

impl View for CVarManagement {
    type V = Registry;

    closed spec fn view(&self) -> Registry {
        Registry {
            tree: self.tree@,
            records: Seq::new(
                self.order.len() as nat,
                |i: int| (self.order[i], record_map(self.resources)[self.order[i].0]@),
            ),
        }
    }
}

impl CVarManagement {
    /// The registry is well formed: its tree is, and its records fit the tree.
    pub closed spec fn wf(&self) -> bool {
        &&& self.tree.wf()
        &&& self@.valid()
        &&& forall|i: int|
            0 <= i < self.order.len() ==> record_map(self.resources).contains_key(
                (#[trigger] self.order[i]).0,
            )
        &&& forall|k: usize| #[trigger]
            record_map(self.resources).contains_key(k) ==> exists|i: int|
                0 <= i < self.order.len() && (#[trigger] self.order[i]).0 == k
    }

    /// A well-formed registry is valid, and none of its values stands below
    /// another.
    pub proof fn lemma_wf_valid(&self)
        requires
            self.wf(),
        ensures
            self@.valid(),
            self@.separate(),
    {
        assert forall|p: Seq<Seq<char>>, q: Seq<Seq<char>>|
            self@.tree.contains_key(p) && self@.tree.contains_key(q) && (#[trigger] self@.tree[p])
                is Leaf && (#[trigger] self@.tree[q]) is Leaf && p != q implies !is_prefix(
            p,
            q,
        ) by {
            if is_prefix(p, q) {
                if p.len() == q.len() {
                    assert(q.take(p.len() as int) =~= q);
                }
                self.tree.lemma_prefix_closed(q, p.len() as int);
            }
        }
    }

    /// A registry without a cvar.
    pub fn new() -> (management: CVarManagement)
        ensures
            management.wf(),
            management@.tree == inserted_root(),
            management@.records.len() == 0,
    {
        CVarManagement {
            resources: record_map_new(),
            order: Vec::new(),
            tree: CVarTreeNode::new(),
        }
    }

    /// The path tree.
    pub closed spec fn tree_spec(&self) -> CVarTreeNode {
        self.tree
    }

    /// The path tree.
    pub fn tree(&self) -> (tree: &CVarTreeNode)
        requires
            self.wf(),
        ensures
            *tree == self.tree_spec(),
            tree.wf(),
            tree@ == self@.tree,
    {
        &self.tree
    }

    /// The number of registered cvars.
    pub fn len(&self) -> (n: usize)
        ensures
            n == self@.records.len(),
    {
        self.order.len()
    }

    /// The `i`-th registered cvar: its handle and its record.
    pub fn registration(&self, i: usize) -> (r: (ComponentId, &ReflectCVar))
        requires
            self.wf(),
            i < self@.records.len(),
        ensures
            (r.0, r.1@) == self@.records[i as int],
    {
        let id = self.order[i];
        match record_map_get(&self.resources, id.0) {
            Some(record) => (id, record),
            None => unreached(),
        }
    }

    /// The record registered for `id`.
    pub fn record(&self, id: ComponentId) -> (r: Option<&ReflectCVar>)
        requires
            self.wf(),
        ensures
            match r {
                Some(record) => record_of(self@.records, id) == Some(record@),
                None => record_of(self@.records, id) is None,
            },
    {
        let found = record_map_get(&self.resources, id.0);
        proof {
            let records = self@.records;
            if found is Some {
                let i = choose|i: int| 0 <= i < self.order.len() && (#[trigger] self.order[i]).0 == id.0;
                assert(records[i].0 == id);
                let c = choose|c: int| 0 <= c < records.len() && (#[trigger] records[c]).0 == id;
                assert(self.order[c] == id);
            } else {
                assert forall|i: int| 0 <= i < records.len() implies (#[trigger] records[i]).0
                    != id by {
                    assert(record_map(self.resources).contains_key(self.order[i].0));
                }
            }
        }
        found
    }

    /// Tells what stands in the way of registering a cvar at `path`, if
    /// anything.
    pub fn conflict(&self, path: &str) -> (r: Option<TreeConflict>)
        requires
            self.wf(),
        ensures
            r == conflict_at(self@.tree, split_segments(path@)),
    {
        self.tree.conflict(path)
    }

    /// Registers a cvar: makes its resource, with the default value, and
    /// enters its path and its record.
    ///
    /// The path must be free: see [`CVarManagement::conflict`].
    pub fn register_cvar(&mut self, world: &mut Resources, meta: ReflectCVar) -> (id: ComponentId)
        requires
            old(self).wf(),
            conflict_at(old(self)@.tree, split_segments(meta@.path)) is None,
        ensures
            final(self).wf(),
            id.0 == old(world)@.len(),
            final(world)@ == old(world)@.push(Some(fresh_resource(meta@.default_value))),
            final(self)@ == old(self)@.with_cvar(id, meta@),
    {
        let ghost before = self@;
        let ghost path = split_segments(meta@.path);
        let cid = world.insert(Resource::new(meta.default_inner()));
        self.tree.insert(meta.cvar_path(), cid);
        proof {
            assert(self@.records =~= before.records);
            assert forall|i: int| 0 <= i < before.records.len() implies (
            #[trigger] before.records[i]).0 == self.order[i] by {}
            assert forall|i: int| 0 <= i < before.records.len() implies leaf_at(
                self.tree@,
                split_segments((#[trigger] before.records[i]).1.path),
            ) == Some(before.records[i].0) by {
                let q = split_segments(before.records[i].1.path);
                assert(before.resolve(before.records[i].1.path) == Some(before.records[i].0));
                assert(before.tree.contains_key(q));
                assert(q != path);
            }
            lemma_registered_then_found(before.tree, path, meta@.path, cid);
        }
        let ghost record = meta@;
        let ghost held = record_map(self.resources);
        match record_map_insert(&mut self.resources, cid.0, meta) {
            Some(_) => {
                proof {
                    let i = choose|i: int|
                        0 <= i < self.order.len() && (#[trigger] self.order[i]).0 == cid.0;
                    assert(before.records[i].0 == cid);
                    let c = choose|c: int|
                        0 <= c < before.records.len() && (#[trigger] before.records[c]).0 == cid;
                    if c < i {
                        assert(before.records[c].0 != before.records[i].0);
                    } else if i < c {
                        assert(before.records[i].0 != before.records[c].0);
                    }
                    assert forall|j: int| 0 <= j < self.order.len() && j != i implies (
                    #[trigger] self.order[j]).0 != cid.0 by {
                        if j < i {
                            assert(before.records[j].0 != before.records[i].0);
                        } else {
                            assert(before.records[i].0 != before.records[j].0);
                        }
                    }
                    assert(self@.records =~= before.records.update(i, (cid, record)));
                    assert forall|k: usize| #[trigger]
                        record_map(self.resources).contains_key(k) implies exists|j: int|
                        0 <= j < self.order.len() && (#[trigger] self.order[j]).0 == k by {
                        if k == cid.0 {
                            assert(self.order[i].0 == k);
                        } else {
                            assert(held.contains_key(k));
                        }
                    }
                }
            },
            None => {
                proof {
                    assert forall|i: int| 0 <= i < before.records.len() implies (
                    #[trigger] before.records[i]).0 != cid by {
                        assert(held.contains_key(self.order[i].0));
                    }
                }
                let ghost order_before = self.order@;
                self.order.push(cid);
                proof {
                    assert(self@.records =~= before.records.push((cid, record)));
                    assert forall|k: usize| #[trigger]
                        record_map(self.resources).contains_key(k) implies exists|j: int|
                        0 <= j < self.order.len() && (#[trigger] self.order[j]).0 == k by {
                        if k == cid.0 {
                            assert(self.order[order_before.len() as int].0 == k);
                        } else {
                            assert(held.contains_key(k));
                            let j = choose|j: int|
                                0 <= j < order_before.len() && (#[trigger] order_before[j]).0 == k;
                            assert(self.order[j].0 == k);
                        }
                    }
                }
            },
        }
        proof {
            let after = self@;
            assert(after.records == with_record(before.records, cid, record));
            lemma_registered_resolves(before, cid, record);
            assert forall|p: Seq<Seq<char>>|
                after.tree.contains_key(p) && (#[trigger] after.tree[p]) is Leaf implies record_of(
                after.records,
                after.tree[p]->reg,
            ) is Some && split_segments(after.tree[p]->name) == p by {
                if p != path {
                    assert(before.tree.contains_key(p));
                    assert(before.tree[p] == after.tree[p]);
                    let reg = before.tree[p]->reg;
                    assert(record_of(before.records, reg) is Some);
                    lemma_with_record_keeps(before.records, cid, record, reg);
                }
            }
            assert forall|i: int| 0 <= i < after.records.len() implies after.resolve(
                (#[trigger] after.records[i]).1.path,
            ) == Some(after.records[i].0) by {
                if after.records[i] != (cid, record) {
                    assert(after.records[i] == before.records[i]);
                }
            }
            assert forall|i: int, j: int| 0 <= i < j < after.records.len() implies (
            #[trigger] after.records[i]).0 != (#[trigger] after.records[j]).0 by {
                if i < before.records.len() && after.records[i] != (cid, record) {
                    assert(after.records[i] == before.records[i]);
                }
                if j < before.records.len() && after.records[j] != (cid, record) {
                    assert(after.records[j] == before.records[j]);
                }
            }
        }
        cid
    }

    /// Gets a cvar's value.
    pub fn get_cvar_reflect<'a>(&self, world: &'a Resources, cvar: &str) -> (r: Result<
        &'a CVarValue,
        CVarError,
    >)
        requires
            self.wf(),
        ensures
            match r {
                Ok(value) => self@.read(world@, cvar@) == Ok::<ValueModel, CVarError>(value@),
                Err(e) => self@.read(world@, cvar@) == Err::<ValueModel, CVarError>(e),
            },
    {
        let cid = match self.tree.get(cvar) {
            Some(cid) => cid,
            None => {
                return Err(CVarError::UnknownCVar);
            },
        };
        let meta = match self.record(cid) {
            Some(meta) => meta,
            None => {
                return Err(CVarError::UnknownCVar);
            },
        };
        let resource = match world.get(cid) {
            Ok(resource) => resource,
            Err(e) => {
                return Err(CVarError::from_fetch_error(e));
            },
        };
        meta.reflect_inner(resource)
    }

    /// Gets a cvar's value for reading and writing, as a handle on its
    /// resource. Getting the handle changes nothing: the resource is as it was
    /// until something is written through the handle, which records the
    /// modification.
    pub fn get_cvar_reflect_mut<'a>(&self, world: &'a mut Resources, cvar: &str) -> (r: Result<
        Mut<'a>,
        CVarError,
    >)
        requires
            self.wf(),
        ensures
            match r {
                Ok(handle) => {
                    let id = self@.resolve(cvar@).unwrap();
                    &&& fetch(old(world)@, id) == Ok::<ResourceState, ResourceFetchError>(
                        handle.state(),
                    )
                    &&& handle.state().fields.len() > 0
                    &&& self@.read(old(world)@, cvar@) == Ok::<ValueModel, CVarError>(
                        handle.state().fields[0],
                    )
                    &&& final(world)@ == old(world)@.update(
                        id.0 as int,
                        Some(final(handle.resource)@),
                    )
                },
                Err(e) => self@.read(old(world)@, cvar@) == Err::<ValueModel, CVarError>(e)
                    && final(world)@ == old(world)@,
            },
    {
        let cid = match self.tree.get(cvar) {
            Some(cid) => cid,
            None => {
                return Err(CVarError::UnknownCVar);
            },
        };
        let meta = match self.record(cid) {
            Some(meta) => meta,
            None => {
                return Err(CVarError::UnknownCVar);
            },
        };
        let ghost before = world@;
        let resource = match world.get_mut(cid) {
            Ok(resource) => resource,
            Err(e) => {
                return Err(CVarError::from_fetch_error(e));
            },
        };
        let ghost state = resource@;
        if resource.get().is_none() {
            proof {
                assert(before.update(cid.0 as int, Some(state)) =~= before);
            }
            return Err(CVarError::BadCVarType);
        }
        Ok(Mut::new(resource))
    }

    /// Writes `value` into the resource of `id`.
    fn write_cell(
        &self,
        world: &mut Resources,
        id: ComponentId,
        meta: &ReflectCVar,
        value: &CVarValue,
        mode: WriteMode,
    ) -> (r: Result<(), CVarError>)
        ensures
            r == self@.write_cell(old(world)@, id, value@, mode).result,
            final(world)@ == self@.write_cell(old(world)@, id, value@, mode).world,
    {
        let ghost before = world@;
        let resource = match world.get_mut(id) {
            Ok(resource) => resource,
            Err(e) => {
                return Err(CVarError::from_fetch_error(e));
            },
        };
        let ghost state = resource@;
        proof {
            assert(fetch(before, id) == Ok::<ResourceState, ResourceFetchError>(state));
        }
        match mode {
            WriteMode::Normal => {
                resource.set_changed();
                match meta.reflect_apply(resource, value) {
                    Ok(()) => Ok(()),
                    Err(e) => Err(e),
                }
            },
            WriteMode::Silent => {
                match meta.reflect_apply(resource, value) {
                    Ok(()) => {
                        resource.set_is_default();
                        proof {
                            assert(resource@ == cell_write(state, value@, mode).1);
                        }
                        Ok(())
                    },
                    Err(e) => {
                        proof {
                            assert(resource@ == cell_write(state, value@, mode).1);
                        }
                        Err(e)
                    },
                }
            },
        }
    }

    /// Sets a cvar to the given value. See [`Registry::write`] for what the
    /// two modes do.
    pub fn set_cvar_reflect_with(
        &self,
        world: &mut Resources,
        cvar: &str,
        value: &CVarValue,
        mode: WriteMode,
    ) -> (r: Result<(), CVarError>)
        requires
            self.wf(),
        ensures
            r == self@.write(old(world)@, cvar@, value@, mode).result,
            final(world)@ == self@.write(old(world)@, cvar@, value@, mode).world,
    {
        let cid = match self.tree.get(cvar) {
            Some(cid) => cid,
            None => {
                return Err(CVarError::UnknownCVar);
            },
        };
        let meta = match self.record(cid) {
            Some(meta) => meta,
            None => {
                return Err(CVarError::MissingCid);
            },
        };
        self.write_cell(world, cid, meta, value, mode)
    }

    /// Sets a cvar to the given value. The write is recorded as a
    /// modification.
    pub fn set_cvar_reflect(&self, world: &mut Resources, cvar: &str, value: &CVarValue) -> (r:
        Result<(), CVarError>)
        requires
            self.wf(),
        ensures
            r == self@.write(old(world)@, cvar@, value@, WriteMode::Normal).result,
            final(world)@ == self@.write(old(world)@, cvar@, value@, WriteMode::Normal).world,
    {
        self.set_cvar_reflect_with(world, cvar, value, WriteMode::Normal)
    }

    /// Sets a cvar to the given value, which counts as the cvar's default
    /// afterwards.
    pub fn set_cvar_reflect_no_change(
        &self,
        world: &mut Resources,
        cvar: &str,
        value: &CVarValue,
    ) -> (r: Result<(), CVarError>)
        requires
            self.wf(),
        ensures
            r == self@.write(old(world)@, cvar@, value@, WriteMode::Silent).result,
            final(world)@ == self@.write(old(world)@, cvar@, value@, WriteMode::Silent).world,
    {
        self.set_cvar_reflect_with(world, cvar, value, WriteMode::Silent)
    }

    /// Sets a cvar to the value that the document value `value` stands for.
    /// See [`Registry::write_raw`] for what is done and when it fails.
    pub fn set_cvar_deserialize_with(
        &self,
        world: &mut Resources,
        cvar: &str,
        value: &Value,
        mode: WriteMode,
    ) -> (r: Result<(), CVarError>)
        requires
            self.wf(),
        ensures
            r == self@.write_raw(old(world)@, cvar@, *value, mode, failure_detail(r)).result,
            final(world)@ == self@.write_raw(
                old(world)@,
                cvar@,
                *value,
                mode,
                failure_detail(r),
            ).world,
    {
        let cid = match self.tree.get(cvar) {
            Some(cid) => cid,
            None => {
                return Err(CVarError::UnknownCVar);
            },
        };
        let meta = match self.record(cid) {
            Some(meta) => meta,
            None => {
                return Err(CVarError::MissingCid);
            },
        };
        if !meta.can_deserialize() {
            return Err(CVarError::CannotDeserialize);
        }
        let value_patch = match decode(meta.inner_type(), value) {
            Ok(value_patch) => value_patch,
            Err(detail) => {
                return Err(CVarError::FailedDeserialize(detail));
            },
        };
        self.write_cell(world, cid, meta, &value_patch, mode)
    }

    /// Sets a cvar to the value that the document value `value` stands for.
    /// The write is recorded as a modification.
    pub fn set_cvar_deserialize(&self, world: &mut Resources, cvar: &str, value: &Value) -> (r:
        Result<(), CVarError>)
        requires
            self.wf(),
        ensures
            r == self@.write_raw(
                old(world)@,
                cvar@,
                *value,
                WriteMode::Normal,
                failure_detail(r),
            ).result,
            final(world)@ == self@.write_raw(
                old(world)@,
                cvar@,
                *value,
                WriteMode::Normal,
                failure_detail(r),
            ).world,
    {
        self.set_cvar_deserialize_with(world, cvar, value, WriteMode::Normal)
    }

    /// Sets a cvar to the value that the document value `value` stands for;
    /// the value counts as the cvar's default afterwards.
    pub fn set_cvar_deserialize_no_change(
        &self,
        world: &mut Resources,
        cvar: &str,
        value: &Value,
    ) -> (r: Result<(), CVarError>)
        requires
            self.wf(),
        ensures
            r == self@.write_raw(
                old(world)@,
                cvar@,
                *value,
                WriteMode::Silent,
                failure_detail(r),
            ).result,
            final(world)@ == self@.write_raw(
                old(world)@,
                cvar@,
                *value,
                WriteMode::Silent,
                failure_detail(r),
            ).world,
    {
        self.set_cvar_deserialize_with(world, cvar, value, WriteMode::Silent)
    }
}

impl Default for CVarManagement {
    /// A registry without a cvar.
    fn default() -> (management: CVarManagement)
        ensures
            management.wf(),
            management@.tree == inserted_root(),
            management@.records.len() == 0,
    {
        CVarManagement::new()
    }
}

} // verus!
