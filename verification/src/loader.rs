//! Loading TOML configuration documents as layers of cvar values.
//!
//! Layers are applied in the order given; a later layer overwrites what an
//! earlier one has set. What a layer sets counts as the default of the cvar.

use crate::codec::decoded;
use crate::cvar_doc::{
    is_scan, scan_of, staged_below, verdict, CVarDocScanner, DocumentContext, ScanVerdict,
    UnparsedCVar,
};
use crate::document::{
    item_as_value, item_at, item_kind, parse_document, parsed_document, parsed_root, ItemKind,
};
use crate::error::CVarError;
use crate::management::{
    failure_detail, lemma_raw_write_then_read, lemma_write_keeps_others, record_of, Outcome,
    Registry, WriteMode,
};
use crate::resource::ResourceState;
use crate::resources::fetch;
use crate::tree::ComponentId;
use crate::types::CVarFlags;
use crate::value::ValueModel;
use crate::world::{World, WorldExtensions};
use toml_edit::{Item, Value};
use vstd::prelude::*;

verus! {

/// A config loader, which ingests [`DocumentContext`]s and applies them to
/// the world.
#[derive(Debug, Clone, Copy)]
pub struct ConfigLoader {}

/// How applying the scanned cvars `staged`, in order, ends: each item that is
/// a value is written to its cvar, and counts as the cvar's default; an item
/// that is no value is passed over; the first write that fails ends it, with
/// what was written before still in effect. `detail` is the text that comes
/// with a failed deserialization.
pub open spec fn apply_staged(
    registry: Registry,
    world: Seq<Option<ResourceState>>,
    staged: Seq<UnparsedCVar>,
    detail: String,
) -> Outcome
    decreases staged.len(),
{
    if staged.len() == 0 {
        Outcome { result: Ok(()), world }
    } else {
        match item_kind(staged[0].1) {
            ItemKind::Value(value) => {
                let first = registry.write_raw(
                    world,
                    staged[0].0@,
                    value,
                    WriteMode::Silent,
                    detail,
                );
                if first.result is Err {
                    first
                } else {
                    apply_staged(registry, first.world, staged.drop_first(), detail)
                }
            },
            _ => apply_staged(registry, world, staged.drop_first(), detail),
        }
    }
}

/// A write that succeeds does not depend on the text that would come with a
/// failed deserialization.
pub proof fn lemma_detail_unused(
    registry: Registry,
    world: Seq<Option<ResourceState>>,
    cvar: Seq<char>,
    raw: Value,
    mode: WriteMode,
    d1: String,
    d2: String,
)
    requires
        !(registry.write_raw(world, cvar, raw, mode, d1).result matches Err(
            CVarError::FailedDeserialize(_),
        )),
    ensures
        registry.write_raw(world, cvar, raw, mode, d2) == registry.write_raw(
            world,
            cvar,
            raw,
            mode,
            d1,
        ),
{
}

/// Applying scanned cvars leaves every resource as it is whose handle none of
/// the scanned names leads to.
pub proof fn lemma_apply_keeps_unstaged(
    registry: Registry,
    world: Seq<Option<ResourceState>>,
    staged: Seq<UnparsedCVar>,
    detail: String,
    other: ComponentId,
)
    requires
        forall|i: int| 0 <= i < staged.len() ==> registry.resolve((#[trigger] staged[i]).0@) != Some(other),
    ensures
        fetch(apply_staged(registry, world, staged, detail).world, other)
            == fetch(world, other),
    decreases staged.len(),
{
    if staged.len() > 0 {
        let rest = staged.drop_first();
        assert forall|i: int| 0 <= i < rest.len() implies registry.resolve(
            (#[trigger] rest[i]).0@,
        ) != Some(other) by {
            assert(rest[i] == staged[i + 1]);
        }
        assert(registry.resolve(staged[0].0@) != Some(other));
        match item_kind(staged[0].1) {
            ItemKind::Value(value) => {
                let first = registry.write_raw(
                    world,
                    staged[0].0@,
                    value,
                    WriteMode::Silent,
                    detail,
                );
                lemma_write_keeps_others(
                    registry,
                    world,
                    staged[0].0@,
                    value,
                    WriteMode::Silent,
                    detail,
                    other,
                );
                if first.result is Ok {
                    lemma_apply_keeps_unstaged(registry, first.world, rest, detail, other);
                }
            },
            _ => {
                lemma_apply_keeps_unstaged(registry, world, rest, detail, other);
            },
        }
    }
}

/// What a user's document holds for a cvar that is not saved is passed
/// over: applying the document leaves the cvar's resource as it is.
pub proof fn lemma_unsaved_keeps_value(
    registry: Registry,
    root: Item,
    before: Seq<Option<ResourceState>>,
    r: Result<(), CVarError>,
    after: Seq<Option<ResourceState>>,
    q: Seq<Seq<char>>,
)
    requires
        registry.valid(),
        is_layer_outcome(registry, root, true, before, r, after),
        registry.tree.contains_key(q),
        registry.tree[q] is Leaf,
        !record_of(registry.records, registry.tree[q]->reg)->0.flags.contains_spec(
            CVarFlags(CVarFlags::SAVED),
        ),
    ensures
        fetch(after, registry.tree[q]->reg) == fetch(
            before,
            registry.tree[q]->reg,
        ),
{
    let other = registry.tree[q]->reg;
    let staged = choose|staged: Seq<UnparsedCVar>|
        is_scan(staged, registry, root, true) && #[trigger] apply_staged(
            registry,
            before,
            staged,
            failure_detail(r),
        ) == (Outcome { result: r, world: after });
    assert forall|i: int| 0 <= i < staged.len() implies registry.resolve(
        (#[trigger] staged[i]).0@,
    ) != Some(other) by {
        match item_kind(root) {
            ItemKind::Table(table) => {
                let paths = choose|paths: Seq<Seq<Seq<char>>>|
                    scan_of(staged, paths, registry, Seq::empty(), table, true);
                let p = paths[i];
                assert(Seq::<Seq<char>>::empty() + p =~= p);
                assert(staged_below(registry, Seq::empty(), table, true, p) == Some(
                    (staged[i].0@, staged[i].1),
                ));
                assert(registry.tree.contains_key(p) && registry.tree[p] is Leaf);
                assert(registry.resolve(staged[i].0@) == Some(registry.tree[p]->reg));
            },
            _ => {},
        }
    }
    lemma_apply_keeps_unstaged(registry, before, staged, failure_detail(r), other);
}

/// Applying scanned cvars with success sets the cvar of each entry that
/// holds a value to that value, if no later entry leads to the same handle.
pub proof fn lemma_apply_sets(
    registry: Registry,
    world: Seq<Option<ResourceState>>,
    staged: Seq<UnparsedCVar>,
    detail: String,
    i: int,
)
    requires
        0 <= i < staged.len(),
        item_kind(staged[i].1) is Value,
        apply_staged(registry, world, staged, detail).result is Ok,
        forall|j: int|
            i < j < staged.len() ==> registry.resolve((#[trigger] staged[j]).0@)
                != registry.resolve(staged[i].0@),
    ensures
        registry.resolve(staged[i].0@) is Some,
        record_of(registry.records, registry.resolve(staged[i].0@)->0) is Some,
        decoded(
            record_of(registry.records, registry.resolve(staged[i].0@)->0)->0.inner_type,
            item_kind(staged[i].1)->Value_0,
        ) is Some,
        registry.read(apply_staged(registry, world, staged, detail).world, staged[i].0@) == Ok::<
            ValueModel,
            CVarError,
        >(
            decoded(
                record_of(registry.records, registry.resolve(staged[i].0@)->0)->0.inner_type,
                item_kind(staged[i].1)->Value_0,
            )->0,
        ),
    decreases staged.len(),
{
    let rest = staged.drop_first();
    if i == 0 {
        let value = item_kind(staged[0].1)->Value_0;
        let first = registry.write_raw(world, staged[0].0@, value, WriteMode::Silent, detail);
        lemma_raw_write_then_read(
            registry,
            world,
            staged[0].0@,
            value,
            WriteMode::Silent,
            detail,
        );
        let id = registry.resolve(staged[0].0@)->0;
        assert forall|j: int| 0 <= j < rest.len() implies registry.resolve(
            (#[trigger] rest[j]).0@,
        ) != Some(id) by {
            assert(rest[j] == staged[j + 1]);
        }
        lemma_apply_keeps_unstaged(registry, first.world, rest, detail, id);
    } else {
        assert(rest[i - 1] == staged[i]);
        assert forall|j: int| i - 1 < j < rest.len() implies registry.resolve(
            (#[trigger] rest[j]).0@,
        ) != registry.resolve(rest[i - 1].0@) by {
            assert(rest[j] == staged[j + 1]);
        }
        match item_kind(staged[0].1) {
            ItemKind::Value(value) => {
                let first = registry.write_raw(
                    world,
                    staged[0].0@,
                    value,
                    WriteMode::Silent,
                    detail,
                );
                lemma_apply_sets(registry, first.world, rest, detail, i - 1);
            },
            _ => {
                lemma_apply_sets(registry, world, rest, detail, i - 1);
            },
        }
    }
}

/// A document that was applied with success has set every cvar for which it
/// holds a value that the scan takes to that value, whatever the cvar held
/// before: of two layers, the later one wins.
pub proof fn lemma_layer_sets_values(
    registry: Registry,
    root: Item,
    user_config: bool,
    before: Seq<Option<ResourceState>>,
    r: Result<(), CVarError>,
    after: Seq<Option<ResourceState>>,
    p: Seq<Seq<char>>,
)
    requires
        registry.valid(),
        registry.distinct_handles(),
        r is Ok,
        is_layer_outcome(registry, root, user_config, before, r, after),
        verdict(registry, root, user_config, p)
            == ScanVerdict::Staged,
    ensures
        item_kind(root) is Table,
        item_at(item_kind(root)->Table_0, p) is Some,
        record_of(registry.records, registry.tree[p]->reg) is Some,
        registry.read(after, registry.tree[p]->name) == Ok::<ValueModel, CVarError>(
            decoded(
                record_of(registry.records, registry.tree[p]->reg)->0.inner_type,
                item_kind(
                    item_at(item_kind(root)->Table_0, p)->0,
                )->Value_0,
            )->0,
        ),
{
    let table = item_kind(root)->Table_0;
    let detail = failure_detail(r);
    let staged = choose|staged: Seq<UnparsedCVar>|
        is_scan(staged, registry, root, user_config) && #[trigger] apply_staged(
            registry,
            before,
            staged,
            detail,
        ) == (Outcome { result: r, world: after });
    let paths = choose|paths: Seq<Seq<Seq<char>>>|
        scan_of(staged, paths, registry, Seq::empty(), table, user_config);
    assert(Seq::<Seq<char>>::empty() + p =~= p);
    assert(staged_below(registry, Seq::empty(), table, user_config, p) is Some);
    assert(paths.contains(p));
    let i = choose|i: int| 0 <= i < paths.len() && paths[i] == p;
    assert(staged_below(registry, Seq::empty(), table, user_config, paths[i])
        == Some((staged[i].0@, staged[i].1)));
    assert(registry.resolve(staged[i].0@) == Some(registry.tree[p]->reg));
    assert forall|j: int| i < j < staged.len() implies registry.resolve(
        (#[trigger] staged[j]).0@,
    ) != registry.resolve(staged[i].0@) by {
        let q = paths[j];
        assert(Seq::<Seq<char>>::empty() + q =~= q);
        assert(staged_below(registry, Seq::empty(), table, user_config, q)
            == Some((staged[j].0@, staged[j].1)));
        assert(registry.resolve(staged[j].0@) == Some(registry.tree[q]->reg));
        assert(q != p);
    }
    lemma_apply_sets(registry, before, staged, detail, i);
}

/// `r` and `after` are what applying one document to the resources `before`
/// gives: the document is scanned, and what was found is applied in order.
pub open spec fn is_layer_outcome(
    registry: Registry,
    root: Item,
    user_config: bool,
    before: Seq<Option<ResourceState>>,
    r: Result<(), CVarError>,
    after: Seq<Option<ResourceState>>,
) -> bool {
    exists|staged: Seq<UnparsedCVar>|
        is_scan(staged, registry, root, user_config) && #[trigger] apply_staged(
            registry,
            before,
            staged,
            failure_detail(r),
        ) == (Outcome { result: r, world: after })
}

impl ConfigLoader {
    /// A config loader.
    pub fn new() -> ConfigLoader {
        ConfigLoader {}
    }

    /// Applies scanned cvars to the world, in order. See [`apply_staged`].
    pub fn apply_cvars(&self, world: &mut World, cvars: &Vec<UnparsedCVar>) -> (r: Result<
        (),
        CVarError,
    >)
        requires
            old(world).wf(),
        ensures
            final(world).wf(),
            final(world).registry() == old(world).registry(),
            apply_staged(
                old(world).registry(),
                old(world).cells(),
                cvars@,
                failure_detail(r),
            ) == (Outcome { result: r, world: final(world).cells() }),
    {
        let ghost registry = world.registry();
        let ghost start = world.cells();
        let mut i: usize = 0;
        proof {
            assert(cvars@.skip(0) =~= cvars@);
        }
        while i < cvars.len()
            invariant
                0 <= i <= cvars.len(),
                world.wf(),
                world.registry() == registry,
                registry == old(world).registry(),
                start == old(world).cells(),
                forall|d: String| #[trigger]
                    apply_staged(registry, start, cvars@, d) == apply_staged(
                        registry,
                        world.cells(),
                        cvars@.skip(i as int),
                        d,
                    ),
            decreases cvars.len() - i,
        {
            let ghost before = world.cells();
            let ghost rest = cvars@.skip(i as int);
            proof {
                assert(rest[0] == cvars@[i as int]);
                assert(rest.drop_first() =~= cvars@.skip(i + 1));
            }
            match item_as_value(&cvars[i].1) {
                Some(value) => {
                    let r = world.set_cvar_deserialize_no_change(cvars[i].0.as_str(), value);
                    match r {
                        Ok(()) => {
                            proof {
                                let ok: Result<(), CVarError> = Ok(());
                                assert forall|d: String| #[trigger]
                                    apply_staged(registry, start, cvars@, d) == apply_staged(
                                        registry,
                                        world.cells(),
                                        cvars@.skip(i + 1),
                                        d,
                                    ) by {
                                    lemma_detail_unused(
                                        registry,
                                        before,
                                        cvars@[i as int].0@,
                                        *value,
                                        WriteMode::Silent,
                                        failure_detail(ok),
                                        d,
                                    );
                                }
                            }
                        },
                        Err(e) => {
                            return Err(e);
                        },
                    }
                },
                None => {},
            }
            i = i + 1;
        }
        proof {
            assert(cvars@.skip(cvars@.len() as int) =~= Seq::<UnparsedCVar>::empty());
        }
        Ok(())
    }

    /// Applies a given config to the world.
    ///
    /// The document is scanned for the registered cvars (from a user's
    /// document, `user_config`, only saved cvars are taken), and what was
    /// found is applied in the order of the scan.
    pub fn apply(&self, world: &mut World, document: DocumentContext, user_config: bool) -> (r:
        Result<(), CVarError>)
        requires
            old(world).wf(),
        ensures
            final(world).wf(),
            final(world).registry() == old(world).registry(),
            is_layer_outcome(
                old(world).registry(),
                parsed_root(document.document_spec()),
                user_config,
                old(world).cells(),
                r,
                final(world).cells(),
            ),
    {
        let scanner = CVarDocScanner::new(document, user_config);
        let cvars = scanner.find_cvars(world.management());
        self.apply_cvars(world, &cvars)
    }

    /// Applies a given config to the world, by parsing it into a TOML
    /// document and applying that. A text that is no TOML document leaves the
    /// world as it is.
    pub fn apply_from_string(
        &self,
        world: &mut World,
        document: &str,
        source: Option<&str>,
        user_config: bool,
    ) -> (r: Result<(), CVarError>)
        requires
            old(world).wf(),
        ensures
            final(world).wf(),
            final(world).registry() == old(world).registry(),
            match parsed_document(document@) {
                Ok(parsed) => is_layer_outcome(
                    old(world).registry(),
                    parsed_root(parsed),
                    user_config,
                    old(world).cells(),
                    r,
                    final(world).cells(),
                ),
                Err(e) => {
                    &&& r == Err::<(), CVarError>(CVarError::TomlError(e))
                    &&& final(world).cells() == old(world).cells()
                },
            },
    {
        let parsed = match parse_document(document) {
            Ok(parsed) => parsed,
            Err(e) => {
                return Err(CVarError::TomlError(e));
            },
        };
        let source = match source {
            Some(source) => source,
            None => "NO_SOURCE",
        };
        let document = DocumentContext::new(parsed, source.to_owned());
        self.apply(world, document, user_config)
    }
}

impl Default for ConfigLoader {
    fn default() -> ConfigLoader {
        ConfigLoader {}
    }
}

/// A builder to create a new [`CVarLoaderPlugin`].
pub struct CVarLoaderPluginBuilder {
    /// The user's config file within the OS filesystem.
    user_config_file: Option<String>,
    /// Any extra layers to load at startup.
    extra_layers: Vec<DocumentContext>,
}

/// The documents of the given layers, in order.
pub open spec fn layer_roots(layers: Seq<DocumentContext>) -> Seq<Item> {
    Seq::new(layers.len(), |i: int| parsed_root(layers[i].document_spec()))
}

/// The sources of the given layers, in order.
pub open spec fn layer_sources(layers: Seq<DocumentContext>) -> Seq<Seq<char>> {
    Seq::new(layers.len(), |i: int| layers[i].source_spec())
}

impl CVarLoaderPluginBuilder {
    /// The path of the user's config file, if one was set.
    pub closed spec fn user_config_file_spec(&self) -> Option<Seq<char>> {
        match self.user_config_file {
            Some(path) => Some(path@),
            None => None,
        }
    }

    /// The extra layers, in the order in which they were added.
    pub closed spec fn layers_spec(&self) -> Seq<DocumentContext> {
        self.extra_layers@
    }

    /// The default builder: no user config file and no extra layers.
    pub fn fancy() -> (builder: CVarLoaderPluginBuilder)
        ensures
            builder.user_config_file_spec() is None,
            builder.layers_spec().len() == 0,
    {
        CVarLoaderPluginBuilder { user_config_file: None, extra_layers: Vec::new() }
    }

    /// Sets the user config file location.
    pub fn with_user_config_file(self, path: String) -> (builder: CVarLoaderPluginBuilder)
        ensures
            builder.user_config_file_spec() == Some(path@),
            builder.layers_spec() == self.layers_spec(),
    {
        CVarLoaderPluginBuilder { user_config_file: Some(path), extra_layers: self.extra_layers }
    }

    /// Adds a pre-parsed config layer to apply.
    pub fn add_layer(self, layer: DocumentContext) -> (builder: CVarLoaderPluginBuilder)
        ensures
            builder.user_config_file_spec() == self.user_config_file_spec(),
            builder.layers_spec() == self.layers_spec().push(layer),
    {
        let mut builder = self;
        builder.extra_layers.push(layer);
        builder
    }

    /// Consumes the builder to create a [`CVarLoaderPlugin`].
    pub fn build(self) -> (plugin: CVarLoaderPlugin)
        ensures
            plugin.user_config_file_spec() == self.user_config_file_spec(),
            plugin.layers_spec() == self.layers_spec(),
    {
        CVarLoaderPlugin {
            user_config_file: self.user_config_file,
            extra_layers: self.extra_layers,
        }
    }
}

impl Default for CVarLoaderPluginBuilder {
    fn default() -> (builder: CVarLoaderPluginBuilder)
        ensures
            builder.user_config_file_spec() is None,
            builder.layers_spec().len() == 0,
    {
        CVarLoaderPluginBuilder::fancy()
    }
}

/// A layer that could not be applied: the source of its document, and the
/// error.
pub type LayerFailure = (String, CVarError);

/// `after` and `failures` are what applying the first `n` of the layers with
/// the root items `roots` and the sources `sources`, in order, to the
/// resources `start` gives: each layer is applied to what the layers before it
/// left, and a layer that fails is noted with its source and its error, with
/// what it had written before it failed still in effect.
pub open spec fn layers_applied(
    registry: Registry,
    roots: Seq<Item>,
    sources: Seq<Seq<char>>,
    n: int,
    start: Seq<Option<ResourceState>>,
    after: Seq<Option<ResourceState>>,
    failures: Seq<(Seq<char>, CVarError)>,
) -> bool {
    exists|worlds: Seq<Seq<Option<ResourceState>>>, results: Seq<Result<(), CVarError>>|
        #![trigger layers_along(registry, roots, worlds, results, n)]
        layers_along(registry, roots, worlds, results, n) && worlds[0] == start && worlds[n]
            == after && failures == noted(sources, results, n)
}

/// `worlds` holds the resources before and after each of the first `n`
/// layers was applied, and `results` the result of each.
pub open spec fn layers_along(
    registry: Registry,
    roots: Seq<Item>,
    worlds: Seq<Seq<Option<ResourceState>>>,
    results: Seq<Result<(), CVarError>>,
    n: int,
) -> bool {
    &&& worlds.len() == n + 1
    &&& results.len() == n
    &&& forall|i: int|
        0 <= i < n ==> #[trigger] is_layer_outcome(
            registry,
            roots[i],
            false,
            worlds[i],
            results[i],
            worlds[i + 1],
        )
}

/// The failures among the first `n` results, each with the source of its
/// layer, in order.
pub open spec fn noted(sources: Seq<Seq<char>>, results: Seq<Result<(), CVarError>>, n: int) -> Seq<
    (Seq<char>, CVarError),
>
    decreases n,
{
    if n <= 0 {
        Seq::empty()
    } else {
        match results[n - 1] {
            Ok(_) => noted(sources, results, n - 1),
            Err(e) => noted(sources, results, n - 1).push((sources[n - 1], e)),
        }
    }
}

/// The failures noted do not depend on results after the first `n`.
proof fn lemma_noted_prefix(
    sources: Seq<Seq<char>>,
    results: Seq<Result<(), CVarError>>,
    longer: Seq<Result<(), CVarError>>,
    n: int,
)
    requires
        0 <= n <= results.len(),
        results.len() <= longer.len(),
        forall|i: int| 0 <= i < n ==> results[i] == longer[i],
    ensures
        noted(sources, results, n) == noted(sources, longer, n),
    decreases n,
{
    if n > 0 {
        lemma_noted_prefix(sources, results, longer, n - 1);
    }
}

/// The views of a list of failures.
pub open spec fn failure_views(failures: Seq<LayerFailure>) -> Seq<(Seq<char>, CVarError)> {
    Seq::new(failures.len(), |i: int| (failures[i].0@, failures[i].1))
}

/// Plugin that provides layered config loading for cvars, and additionally
/// manages the user config file.
///
/// It is to be built after every cvar of the application was registered.
pub struct CVarLoaderPlugin {
    /// The user's config file within the OS filesystem.
    user_config_file: Option<String>,
    /// Any extra layers to load at startup.
    extra_layers: Vec<DocumentContext>,
}

impl CVarLoaderPlugin {
    /// The path of the user's config file, if one was set.
    pub closed spec fn user_config_file_spec(&self) -> Option<Seq<char>> {
        match self.user_config_file {
            Some(path) => Some(path@),
            None => None,
        }
    }

    /// The extra layers, in the order in which they are applied.
    pub closed spec fn layers_spec(&self) -> Seq<DocumentContext> {
        self.extra_layers@
    }

    /// The path of the user's config file, if one was set.
    pub fn user_config_file(&self) -> (path: Option<&str>)
        ensures
            match path {
                Some(path) => self.user_config_file_spec() == Some(path@),
                None => self.user_config_file_spec() is None,
            },
    {
        match &self.user_config_file {
            Some(path) => Some(path.as_str()),
            None => None,
        }
    }

    /// The number of extra layers.
    pub fn layer_count(&self) -> (n: usize)
        ensures
            n == self.layers_spec().len(),
    {
        self.extra_layers.len()
    }

    /// The `i`-th extra layer.
    pub fn layer(&self, i: usize) -> (layer: &DocumentContext)
        requires
            i < self.layers_spec().len(),
        ensures
            *layer == self.layers_spec()[i as int],
    {
        &self.extra_layers[i]
    }

    /// Applies the extra layers to the world, in order. A layer that fails
    /// does not keep the later ones from being applied; the failures are
    /// returned, each with the source of its layer.
    pub fn build(&self, world: &mut World) -> (failures: Vec<LayerFailure>)
        requires
            old(world).wf(),
        ensures
            final(world).wf(),
            final(world).registry() == old(world).registry(),
            layers_applied(
                old(world).registry(),
                layer_roots(self.layers_spec()),
                layer_sources(self.layers_spec()),
                self.layers_spec().len() as int,
                old(world).cells(),
                final(world).cells(),
                failure_views(failures@),
            ),
    {
        let loader = ConfigLoader::new();
        let mut failures: Vec<LayerFailure> = Vec::new();
        let ghost registry = world.registry();
        let ghost roots = layer_roots(self.layers_spec());
        let ghost sources = layer_sources(self.layers_spec());
        let ghost mut worlds: Seq<Seq<Option<ResourceState>>> = seq![world.cells()];
        let ghost mut results: Seq<Result<(), CVarError>> = Seq::empty();
        let mut i: usize = 0;
        while i < self.extra_layers.len()
            invariant
                0 <= i <= self.extra_layers.len(),
                world.wf(),
                world.registry() == registry,
                registry == old(world).registry(),
                roots == layer_roots(self.layers_spec()),
                sources == layer_sources(self.layers_spec()),
                layers_along(registry, roots, worlds, results, i as int),
                worlds[0] == old(world).cells(),
                worlds[i as int] == world.cells(),
                failure_views(failures@) == noted(sources, results, i as int),
            decreases self.extra_layers.len() - i,
        {
            let layer = &self.extra_layers[i];
            let ghost before = world.cells();
            let ghost old_worlds = worlds;
            let ghost old_results = results;
            let ghost old_failures = failure_views(failures@);
            let res = loader.apply(world, layer.duplicate(), false);
            proof {
                worlds = worlds.push(world.cells());
                results = results.push(res);
                assert(roots[i as int] == parsed_root(layer.document_spec()));
                assert forall|j: int| 0 <= j < i + 1 implies #[trigger] is_layer_outcome(
                    registry,
                    roots[j],
                    false,
                    worlds[j],
                    results[j],
                    worlds[j + 1],
                ) by {
                    if j < i {
                        assert(is_layer_outcome(
                            registry,
                            roots[j],
                            false,
                            old_worlds[j],
                            old_results[j],
                            old_worlds[j + 1],
                        ));
                    }
                }
                lemma_noted_prefix(sources, old_results, results, i as int);
            }
            match res {
                Ok(()) => {},
                Err(e) => {
                    failures.push((layer.source().to_owned(), e));
                    proof {
                        assert(failure_views(failures@) =~= old_failures.push(
                            (sources[i as int], e),
                        ));
                    }
                },
            }
            i = i + 1;
        }
        failures
    }

    /// Applies the text of the user's config file to the world, after the
    /// extra layers. From a user's file only saved cvars are set.
    pub fn apply_user_config(&self, world: &mut World, text: &str) -> (r: Result<(), CVarError>)
        requires
            old(world).wf(),
        ensures
            final(world).wf(),
            final(world).registry() == old(world).registry(),
            match parsed_document(text@) {
                Ok(parsed) => is_layer_outcome(
                    old(world).registry(),
                    parsed_root(parsed),
                    true,
                    old(world).cells(),
                    r,
                    final(world).cells(),
                ),
                Err(e) => r == Err::<(), CVarError>(CVarError::TomlError(e)) && final(world).cells()
                    == old(world).cells(),
            },
    {
        let loader = ConfigLoader::new();
        loader.apply_from_string(world, text, self.user_config_file(), true)
    }
}

} // verus!
