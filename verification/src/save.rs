//! Saving cvars into a TOML document.
//!
//! Only what is written is touched: the other keys and tables of the
//! document stay as they are.

use crate::codec::{encode, encoded, encodes};
use crate::document::{
    document_item, document_item_mut, document_new, document_root, document_text,
    document_to_string, is_empty_table, item_as_table, item_as_table_mut, item_at, item_below,
    empty_model, item_from_value, item_kind, item_new_table, item_none, model_of,
    table_entry_or_insert, table_items, table_keys, value_item, ItemKind, TableModel,
};
use crate::error::{fetch_failure, CVarError};
use crate::world::World;
use crate::management::Registry;
use crate::path::{segment_views, split_path, split_segments};
use crate::tree::is_prefix;
use crate::reflect::{inner_of, ReflectCVar};
use crate::resource::{Resource, ResourceState};
use crate::types::CVarFlags;
use crate::value::{CVarValue, ValueModel};
use crate::resources::fetch;
use toml_edit::{DocumentMut, Item, Table, Value};
use vstd::prelude::*;

verus! {

/// A context for mutating a TOML document to save cvars to it.
pub struct CVarSaveContext(DocumentMut);

/// Whether a value can be written at the path `p` below the table `t`: no
/// segment before the last one may be taken by something that is no table.
pub open spec fn writable(t: Table, p: Seq<Seq<char>>) -> bool
    decreases p.len(),
{
    if p.len() == 0 {
        false
    } else if p.len() == 1 || !table_items(t).contains_key(p[0]) {
        true
    } else {
        match item_kind(table_items(t)[p[0]]) {
            ItemKind::Table(sub) => writable(sub, p.drop_first()),
            _ => false,
        }
    }
}

/// What the table stored under `k` holds; nothing where `k` holds no table.
pub open spec fn below(before: TableModel, k: Seq<char>) -> TableModel {
    if before.items.contains_key(k) {
        match item_kind(before.items[k]) {
            ItemKind::Table(sub) => model_of(sub),
            _ => empty_model(),
        }
    } else {
        empty_model()
    }
}

/// The keys of a table that held `before` once something was stored under
/// `k`: a new key comes last, and the other keys keep their order.
pub open spec fn keys_with(before: TableModel, k: Seq<char>) -> Seq<Seq<char>> {
    if before.items.contains_key(k) {
        before.keys
    } else {
        before.keys.push(k)
    }
}

/// `after` is a table that held the items `before` until `value` was
/// written at the path `p`: the first segment of `p` is a key of `after`, every
/// other key has the item it had, and what stands under the first segment is
/// the item that the value is written as, if `p` ends there, or the table that
/// was there before, or a new one, with the value written at the rest of `p`.
pub open spec fn is_written(
    before: TableModel,
    after: Table,
    p: Seq<Seq<char>>,
    value: ValueModel,
) -> bool
    decreases p.len(),
{
    if p.len() == 0 {
        false
    } else {
        let now = table_items(after);
        &&& now.dom() == before.items.dom().insert(p[0])
        &&& table_keys(after) == keys_with(before, p[0])
        &&& forall|other: Seq<char>|
            other != p[0] && #[trigger] before.items.contains_key(other) ==> now[other]
                == before.items[other]
        &&& if p.len() == 1 {
            &&& now[p[0]] == value_item(encoded(value))
            &&& item_kind(now[p[0]]) is Value
            &&& encodes(item_kind(now[p[0]])->Value_0, value)
        } else {
            item_kind(now[p[0]]) is Table && is_written(
                below(before, p[0]),
                item_kind(now[p[0]])->Table_0,
                p.drop_first(),
                value,
            )
        }
    }
}

/// `after` is a table that held the items `before` until `item` was stored
/// at the path `p`, with the tables on the way made where they were missing.
pub open spec fn is_stored(
    before: TableModel,
    after: Table,
    p: Seq<Seq<char>>,
    item: Item,
) -> bool
    decreases p.len(),
{
    if p.len() == 0 {
        false
    } else {
        let now = table_items(after);
        &&& now.dom() == before.items.dom().insert(p[0])
        &&& table_keys(after) == keys_with(before, p[0])
        &&& forall|other: Seq<char>|
            other != p[0] && #[trigger] before.items.contains_key(other) ==> now[other]
                == before.items[other]
        &&& if p.len() == 1 {
            now[p[0]] == item
        } else {
            item_kind(now[p[0]]) is Table && is_stored(
                below(before, p[0]),
                item_kind(now[p[0]])->Table_0,
                p.drop_first(),
                item,
            )
        }
    }
}

/// Storing an item that is a value is writing that value.
pub proof fn lemma_stored_value(
    before: TableModel,
    after: Table,
    p: Seq<Seq<char>>,
    item: Item,
    value: ValueModel,
)
    requires
        is_stored(before, after, p, item),
        item == value_item(encoded(value)),
        item_kind(item) is Value,
        encodes(item_kind(item)->Value_0, value),
    ensures
        is_written(before, after, p, value),
    decreases p.len(),
{
    if p.len() > 1 {
        let now = table_items(after);
        lemma_stored_value(
            below(before, p[0]),
            item_kind(now[p[0]])->Table_0,
            p.drop_first(),
            item,
            value,
        );
    }
}

/// A table that holds `items` holds `item` at the path `p`, below tables
/// only.
pub open spec fn holds_below(items: Map<Seq<char>, Item>, p: Seq<Seq<char>>, item: Item) -> bool
    decreases p.len(),
{
    p.len() >= 1 && items.contains_key(p[0]) && if p.len() == 1 {
        items[p[0]] == item
    } else {
        match item_kind(items[p[0]]) {
            ItemKind::Table(sub) => holds_below(table_items(sub), p.drop_first(), item),
            _ => false,
        }
    }
}

/// The table `t` holds `item` at the path `p`, below tables only.
pub open spec fn holds_item(t: Table, p: Seq<Seq<char>>, item: Item) -> bool {
    holds_below(table_items(t), p, item)
}

/// Two paths of which none is the beginning of the other leave each other at
/// some segment.
pub proof fn lemma_first_difference(p: Seq<Seq<char>>, q: Seq<Seq<char>>)
    requires
        !is_prefix(p, q),
        !is_prefix(q, p),
    ensures
        exists|d: int| diverges(p, q, d),
    decreases p.len(),
{
    if p.len() == 0 {
        assert(q.take(0) =~= p);
    } else if q.len() == 0 {
        assert(p.take(0) =~= q);
    } else if p[0] != q[0] {
        assert(q.take(0) =~= p.take(0));
        assert(diverges(p, q, 0));
    } else {
        let rest_p = p.drop_first();
        let rest_q = q.drop_first();
        if is_prefix(rest_p, rest_q) {
            assert(q.take(p.len() as int) =~= seq![q[0]] + rest_q.take(rest_p.len() as int));
            assert(p =~= seq![p[0]] + rest_p);
            assert(false);
        }
        if is_prefix(rest_q, rest_p) {
            assert(p.take(q.len() as int) =~= seq![p[0]] + rest_p.take(rest_q.len() as int));
            assert(q =~= seq![q[0]] + rest_q);
            assert(false);
        }
        lemma_first_difference(rest_p, rest_q);
        let d = choose|d: int| diverges(rest_p, rest_q, d);
        assert(q.take(d + 1) =~= seq![q[0]] + rest_q.take(d));
        assert(p.take(d + 1) =~= seq![p[0]] + rest_p.take(d));
        assert(diverges(p, q, d + 1));
    }
}

/// Writing a value at a path leaves what a table holds at every path that
/// leaves the written one.
pub proof fn lemma_written_keeps_held(
    before: TableModel,
    after: Table,
    p: Seq<Seq<char>>,
    value: ValueModel,
    q: Seq<Seq<char>>,
    d: int,
    item: Item,
)
    requires
        is_written(before, after, p, value),
        diverges(p, q, d),
        holds_below(before.items, q, item),
    ensures
        holds_item(after, q, item),
    decreases d,
{
    let now = table_items(after);
    assert(now.dom().contains(p[0]));
    if d == 0 {
        assert(now[q[0]] == before.items[q[0]]);
    } else {
        assert(q[0] == p[0]) by {
            assert(q.take(d)[0] == p.take(d)[0]);
        }
        let rest_p = p.drop_first();
        let rest_q = q.drop_first();
        assert(rest_q.take(d - 1) =~= q.take(d).drop_first());
        assert(rest_p.take(d - 1) =~= p.take(d).drop_first());
        assert(diverges(rest_p, rest_q, d - 1));
        lemma_written_keeps_held(
            below(before, p[0]),
            item_kind(now[p[0]])->Table_0,
            rest_p,
            value,
            rest_q,
            d - 1,
            item,
        );
    }
}

/// A table into which a value was written holds, at the path, the item that
/// the value is written as.
pub proof fn lemma_written_holds(
    before: TableModel,
    after: Table,
    p: Seq<Seq<char>>,
    value: ValueModel,
)
    requires
        is_written(before, after, p, value),
    ensures
        holds_item(after, p, value_item(encoded(value))),
    decreases p.len(),
{
    let now = table_items(after);
    assert(now.dom().contains(p[0]));
    if p.len() > 1 {
        lemma_written_holds(
            below(before, p[0]),
            item_kind(now[p[0]])->Table_0,
            p.drop_first(),
            value,
        );
    }
}

/// `q` leaves the path `p` at its segment `d`: up to there both are the
/// same, and there they differ.
pub open spec fn diverges(p: Seq<Seq<char>>, q: Seq<Seq<char>>, d: int) -> bool {
    &&& 0 <= d < p.len()
    &&& d < q.len()
    &&& q.take(d) == p.take(d)
    &&& q[d] != p[d]
}

/// A value that was written at a path is found there.
pub proof fn lemma_written_found(
    before: TableModel,
    after: Table,
    p: Seq<Seq<char>>,
    value: ValueModel,
)
    requires
        is_written(before, after, p, value),
    ensures
        item_at(after, p) is Some,
        item_kind(item_at(after, p)->0) is Value,
        encodes(item_kind(item_at(after, p)->0)->Value_0, value),
    decreases p.len(),
{
    let now = table_items(after);
    assert(now.dom().contains(p[0]));
    if p.len() > 1 {
        lemma_written_found(
            below(before, p[0]),
            item_kind(now[p[0]])->Table_0,
            p.drop_first(),
            value,
        );
    }
}

/// Writing a value at a path leaves what stands at every path that leaves
/// the written one as it was.
pub proof fn lemma_written_keeps_others(
    before: TableModel,
    after: Table,
    p: Seq<Seq<char>>,
    value: ValueModel,
    q: Seq<Seq<char>>,
    d: int,
)
    requires
        is_written(before, after, p, value),
        diverges(p, q, d),
    ensures
        item_at(after, q) == item_below(before.items, q),
    decreases d,
{
    let now = table_items(after);
    assert(now.dom().contains(p[0]));
    if d == 0 {
        assert(now.dom().contains(q[0]) == before.items.dom().contains(q[0]));
        if before.items.contains_key(q[0]) {
            assert(now[q[0]] == before.items[q[0]]);
        }
    } else {
        assert(q[0] == p[0]) by {
            assert(q.take(d)[0] == p.take(d)[0]);
        }
        let rest_p = p.drop_first();
        let rest_q = q.drop_first();
        assert(rest_q.take(d - 1) =~= q.take(d).drop_first());
        assert(rest_p.take(d - 1) =~= p.take(d).drop_first());
        assert(diverges(rest_p, rest_q, d - 1));
        lemma_written_keeps_others(
            below(before, p[0]),
            item_kind(now[p[0]])->Table_0,
            rest_p,
            value,
            rest_q,
            d - 1,
        );
        assert(item_below(Map::<Seq<char>, Item>::empty(), rest_q) is None);
    }
}

/// The error of a write that met something that is no table where it needed
/// one.
pub open spec fn is_malformed(e: CVarError) -> bool {
    e matches CVarError::MalformedConfigDuringWrite(what) && what@ == "Expected a table."@
}

/// Whether a value can be written at the dotted path `path` of the document
/// with the root item `root`.
pub open spec fn doc_writable(root: Item, path: Seq<char>) -> bool {
    item_kind(root) is Table && writable(item_kind(root)->Table_0, split_segments(path))
}

/// `after` is the root item of a document that had the root item `before`
/// until `value` was written at the dotted path `path`.
pub open spec fn doc_written(before: Item, after: Item, path: Seq<char>, value: ValueModel) -> bool {
    &&& doc_writable(before, path)
    &&& item_kind(after) is Table
    &&& is_written(
        model_of(item_kind(before)->Table_0),
        item_kind(after)->Table_0,
        split_segments(path),
        value,
    )
}

/// The document with the root item `root` holds, at the dotted path `path`,
/// the item that `value` is written as.
pub open spec fn doc_holds(root: Item, path: Seq<char>, value: ValueModel) -> bool {
    item_kind(root) is Table && holds_item(
        item_kind(root)->Table_0,
        split_segments(path),
        value_item(encoded(value)),
    )
}

/// What saving does for one registered cvar.
pub enum SaveStep {
    /// Nothing: the cvar is not saved, or its value cannot be written into
    /// documents, or it still holds its default value.
    Skip,
    /// It fails, with the given error.
    Fail(CVarError),
    /// It writes the given value at the given path.
    Write(Seq<char>, ValueModel),
}

/// What saving does for the `i`-th registered cvar: a cvar that is saved,
/// whose value can be written into documents and whose resource holds a value
/// that is not the default has that value written at its path.
pub open spec fn save_step(
    registry: Registry,
    cells: Seq<Option<ResourceState>>,
    i: int,
) -> SaveStep {
    let id = registry.records[i].0;
    let record = registry.records[i].1;
    if !record.flags.contains_spec(CVarFlags(CVarFlags::SAVED)) || !record.serialize {
        SaveStep::Skip
    } else {
        match fetch(cells, id) {
            Err(e) => SaveStep::Fail(fetch_failure(e)),
            Ok(state) => if state.is_default() {
                SaveStep::Skip
            } else {
                match inner_of(state) {
                    Err(e) => SaveStep::Fail(e),
                    Ok(value) => SaveStep::Write(record.path, value),
                }
            },
        }
    }
}

/// Saving has nothing to write: every registered cvar is passed over.
pub open spec fn nothing_to_write(registry: Registry, cells: Seq<Option<ResourceState>>) -> bool {
    forall|i: int| 0 <= i < registry.records.len() ==> #[trigger] save_step(registry, cells, i) is Skip
}

/// A document into which a value was written holds, at the path, the item
/// that the value is written as: writing the same value there again leaves
/// the document as it is.
pub proof fn lemma_saved_then_held(before: Item, after: Item, path: Seq<char>, value: ValueModel)
    requires
        doc_written(before, after, path, value),
    ensures
        doc_holds(after, path, value),
{
    lemma_written_holds(
        model_of(item_kind(before)->Table_0),
        item_kind(after)->Table_0,
        split_segments(path),
        value,
    );
}

/// The document with the root item `root` is settled: saving fails for no
/// registered cvar, and the document holds every value that saving writes, as
/// it is written.
pub open spec fn settled(
    registry: Registry,
    cells: Seq<Option<ResourceState>>,
    root: Item,
) -> bool {
    forall|i: int|
        0 <= i < registry.records.len() ==> match #[trigger] save_step(registry, cells, i) {
            SaveStep::Skip => true,
            SaveStep::Fail(_) => false,
            SaveStep::Write(path, value) => doc_holds(root, path, value),
        }
}

/// A table that holds an item at a path can be written to at that path.
pub proof fn lemma_held_is_writable(t: Table, p: Seq<Seq<char>>, item: Item)
    requires
        holds_item(t, p, item),
    ensures
        writable(t, p),
    decreases p.len(),
{
    if p.len() > 1 {
        lemma_held_is_writable(item_kind(table_items(t)[p[0]])->Table_0, p.drop_first(), item);
    }
}

/// Saving the `i`-th registered cvar turns the document with the root item
/// `before` into the one with the root item `after`, without failing.
pub open spec fn step_between(
    registry: Registry,
    cells: Seq<Option<ResourceState>>,
    i: int,
    before: Item,
    after: Item,
) -> bool {
    match save_step(registry, cells, i) {
        SaveStep::Skip => after == before,
        SaveStep::Fail(_) => false,
        SaveStep::Write(path, value) => doc_written(before, after, path, value),
    }
}

/// `docs` holds the root items of the document before and after each of the
/// first `n` registered cvars was saved, each with success.
pub open spec fn saved_along(
    registry: Registry,
    cells: Seq<Option<ResourceState>>,
    docs: Seq<Item>,
    n: int,
) -> bool {
    &&& docs.len() == n + 1
    &&& forall|i: int|
        0 <= i < n ==> #[trigger] step_between(registry, cells, i, docs[i], docs[i + 1])
}

/// `after` is the root item of the document once the first `n` registered
/// cvars were saved into the document with the root item `start`, each with
/// success.
pub open spec fn saved_prefix(
    registry: Registry,
    cells: Seq<Option<ResourceState>>,
    n: int,
    start: Item,
    after: Item,
) -> bool {
    exists|docs: Seq<Item>| #[trigger]
        saved_along(registry, cells, docs, n) && docs[0] == start && docs[n] == after
}

/// The paths of two registered cvars leave each other at some segment.
pub proof fn lemma_record_paths_apart(registry: Registry, i: int, j: int)
    requires
        registry.valid(),
        registry.separate(),
        0 <= i < registry.records.len(),
        0 <= j < registry.records.len(),
        i != j,
    ensures
        ({
            let p = split_segments(registry.records[i].1.path);
            let q = split_segments(registry.records[j].1.path);
            exists|d: int| diverges(p, q, d)
        }),
{
    let p = split_segments(registry.records[i].1.path);
    let q = split_segments(registry.records[j].1.path);
    assert(registry.resolve(registry.records[i].1.path) == Some(registry.records[i].0));
    assert(registry.resolve(registry.records[j].1.path) == Some(registry.records[j].0));
    if i < j {
        assert(registry.records[i].0 != registry.records[j].0);
    } else {
        assert(registry.records[j].0 != registry.records[i].0);
    }
    assert(registry.tree[p] is Leaf && registry.tree[q] is Leaf);
    lemma_first_difference(p, q);
}

/// What was written for a registered cvar is still held once the cvars after
/// it were saved.
pub proof fn lemma_saved_along_holds(
    registry: Registry,
    cells: Seq<Option<ResourceState>>,
    docs: Seq<Item>,
    n: int,
    i: int,
    k: int,
)
    requires
        registry.valid(),
        registry.separate(),
        0 <= i < k <= n <= registry.records.len(),
        saved_along(registry, cells, docs, n),
        save_step(registry, cells, i) is Write,
    ensures
        doc_holds(
            docs[k],
            save_step(registry, cells, i)->Write_0,
            save_step(registry, cells, i)->Write_1,
        ),
    decreases k,
{
    let path = save_step(registry, cells, i)->Write_0;
    let value = save_step(registry, cells, i)->Write_1;
    assert(step_between(registry, cells, k - 1, docs[k - 1], docs[k - 1 + 1]));
    if i == k - 1 {
        lemma_saved_then_held(docs[k - 1], docs[k], path, value);
    } else {
        lemma_saved_along_holds(registry, cells, docs, n, i, k - 1);
        match save_step(registry, cells, k - 1) {
            SaveStep::Write(other, written) => {
                lemma_record_paths_apart(registry, k - 1, i);
                let from = split_segments(registry.records[k - 1].1.path);
                let to = split_segments(registry.records[i].1.path);
                let d = choose|d: int| diverges(from, to, d);
                lemma_written_keeps_held(
                    model_of(item_kind(docs[k - 1])->Table_0),
                    item_kind(docs[k])->Table_0,
                    split_segments(other),
                    written,
                    split_segments(path),
                    d,
                    value_item(encoded(value)),
                );
            },
            _ => {},
        }
    }
}

/// A document into which all registered cvars were saved with success is
/// settled: saving them again, with the registry and the resources as they
/// were, leaves it as it is.
pub proof fn lemma_saved_is_settled(
    registry: Registry,
    cells: Seq<Option<ResourceState>>,
    start: Item,
    after: Item,
)
    requires
        registry.valid(),
        registry.separate(),
        saved_prefix(registry, cells, registry.records.len() as int, start, after),
    ensures
        settled(registry, cells, after),
{
    let n = registry.records.len() as int;
    let docs = choose|docs: Seq<Item>| #[trigger]
        saved_along(registry, cells, docs, n) && docs[0] == start && docs[n] == after;
    assert forall|i: int| 0 <= i < n implies match #[trigger] save_step(registry, cells, i) {
        SaveStep::Skip => true,
        SaveStep::Fail(_) => false,
        SaveStep::Write(path, value) => doc_holds(after, path, value),
    } by {
        assert(step_between(registry, cells, i, docs[i], docs[i + 1]));
        if save_step(registry, cells, i) is Write {
            lemma_saved_along_holds(registry, cells, docs, n, i, n);
        }
    }
}

/// Saving the `n`-th registered cvar into the document with the root item
/// `doc` fails with `e`.
pub open spec fn step_fails(
    registry: Registry,
    cells: Seq<Option<ResourceState>>,
    n: int,
    doc: Item,
    e: CVarError,
) -> bool {
    match save_step(registry, cells, n) {
        SaveStep::Skip => false,
        SaveStep::Fail(x) => e == x,
        SaveStep::Write(path, _) => !doc_writable(doc, path) && is_malformed(e),
    }
}

/// `r` and `after` are what saving the registered cvars, in the order of their
/// registration, into the document with the root item `start` gives: either
/// all are saved, or the first one that fails ends the saving, with what was
/// written before it still in the document.
pub open spec fn save_outcome(
    registry: Registry,
    cells: Seq<Option<ResourceState>>,
    start: Item,
    after: Item,
    r: Result<(), CVarError>,
) -> bool {
    match r {
        Ok(()) => saved_prefix(registry, cells, registry.records.len() as int, start, after),
        Err(e) => exists|n: int|
            0 <= n < registry.records.len() && #[trigger] saved_prefix(
                registry,
                cells,
                n,
                start,
                after,
            ) && step_fails(registry, cells, n, after, e),
    }
}

/// Where saving has nothing to write for the first `n` registered cvars, the
/// document stays as it is.
pub proof fn lemma_nothing_to_save(
    registry: Registry,
    cells: Seq<Option<ResourceState>>,
    n: int,
    start: Item,
    after: Item,
)
    requires
        0 <= n,
        forall|i: int| 0 <= i < n ==> #[trigger] save_step(registry, cells, i) is Skip,
        saved_prefix(registry, cells, n, start, after),
    ensures
        after == start,
{
    let docs = choose|docs: Seq<Item>| #[trigger]
        saved_along(registry, cells, docs, n) && docs[0] == start && docs[n] == after;
    lemma_skips_keep(registry, cells, docs, n, n);
}

/// Along steps that write nothing, every root item is the first one.
proof fn lemma_skips_keep(
    registry: Registry,
    cells: Seq<Option<ResourceState>>,
    docs: Seq<Item>,
    n: int,
    k: int,
)
    requires
        0 <= k <= n,
        forall|i: int| 0 <= i < n ==> #[trigger] save_step(registry, cells, i) is Skip,
        saved_along(registry, cells, docs, n),
    ensures
        docs[k] == docs[0],
    decreases k,
{
    if k > 0 {
        lemma_skips_keep(registry, cells, docs, n, k - 1);
        assert(step_between(registry, cells, k - 1, docs[k - 1], docs[k - 1 + 1]));
        assert(save_step(registry, cells, k - 1) is Skip);
    }
}

/// The place of the item at the path that the segments from the `i`-th on
/// give, below `table`, to be written to. The tables on the way are made where
/// they are missing, and so is an empty item at the path itself.
fn entry_at<'a>(table: &'a mut Table, segments: &Vec<String>, i: usize) -> (r: Result<
    &'a mut Item,
    CVarError,
>)
    requires
        i < segments.len(),
    ensures
        match r {
            Ok(slot) => {
                &&& writable(*old(table), segment_views(segments@).skip(i as int))
                &&& is_stored(
                    model_of(*old(table)),
                    *final(table),
                    segment_views(segments@).skip(i as int),
                    *final(slot),
                )
                &&& holds_item(
                    *old(table),
                    segment_views(segments@).skip(i as int),
                    *final(slot),
                ) ==> *final(table) == *old(table)
            },
            Err(e) => !writable(*old(table), segment_views(segments@).skip(i as int))
                && *final(table) == *old(table) && is_malformed(e),
        },
    decreases segments.len() - i,
{
    let ghost p = segment_views(segments@).skip(i as int);
    let ghost before = model_of(*table);
    let key = segments[i].as_str();
    proof {
        assert(p[0] == key@);
        assert(p.drop_first() =~= segment_views(segments@).skip(i + 1));
    }
    if i + 1 == segments.len() {
        Ok(table_entry_or_insert(table, key, item_none()))
    } else {
        let slot = table_entry_or_insert(table, key, item_new_table());
        match item_as_table_mut(slot) {
            Some(sub) => {
                let ghost sub_before = *sub;
                proof {
                    if !before.items.contains_key(key@) {
                        assert(table_items(sub_before) =~= Map::<Seq<char>, Item>::empty());
                        assert(table_keys(sub_before) =~= Seq::<Seq<char>>::empty());
                        assert(writable(sub_before, p.drop_first()));
                    }
                    assert(below(before, key@) == model_of(sub_before));
                }
                entry_at(sub, segments, i + 1)
            },
            None => Err(CVarError::MalformedConfigDuringWrite("Expected a table.")),
        }
    }
}

impl CVarSaveContext {
    /// The document that is written into.
    pub closed spec fn document(&self) -> DocumentMut {
        self.0
    }

    /// Creates a new context with an empty document.
    pub fn blank() -> (context: CVarSaveContext)
        ensures
            item_kind(document_root(context.document())) is Table,
            is_empty_table(item_kind(document_root(context.document()))->Table_0),
    {
        CVarSaveContext(document_new())
    }

    /// Creates a new context with an existing document.
    pub fn from_document(doc: DocumentMut) -> (context: CVarSaveContext)
        ensures
            context.document() == doc,
    {
        CVarSaveContext(doc)
    }

    /// Returns the document used from the context, destroying the context.
    pub fn return_document(self) -> (doc: DocumentMut)
        ensures
            doc == self.document(),
    {
        self.0
    }

    /// The text of the document. The root of the document must be a table,
    /// as it is in every document that was parsed or made blank: see
    /// [`CVarSaveContext::text`].
    pub fn to_string(&self) -> (text: String)
        requires
            item_kind(document_root(self.document())) is Table,
        ensures
            text@ == document_text(self.document()),
    {
        document_to_string(&self.0)
    }

    /// The text of the document, if the root of the document is a table;
    /// a document with another root has no text.
    pub fn text(&self) -> (text: Option<String>)
        ensures
            match text {
                Some(text) => item_kind(document_root(self.document())) is Table && text@
                    == document_text(self.document()),
                None => !(item_kind(document_root(self.document())) is Table),
            },
    {
        if item_as_table(document_item(&self.0)).is_some() {
            Some(self.to_string())
        } else {
            None
        }
    }

    /// The place of the item at the dotted path `path` of the document, to
    /// be written to. The tables on the way are made where they are missing.
    /// Fails, and leaves the document as it is, where a segment of the path
    /// before the last one, or the root of the document, is taken by something
    /// that is no table.
    fn get_cvar_entry(&mut self, path: &str) -> (r: Result<&mut Item, CVarError>)
        ensures
            match r {
                Ok(slot) => {
                    &&& doc_writable(document_root(old(self).document()), path@)
                    &&& item_kind(document_root(final(self).document())) is Table
                    &&& is_stored(
                        model_of(item_kind(document_root(old(self).document()))->Table_0),
                        item_kind(document_root(final(self).document()))->Table_0,
                        split_segments(path@),
                        *final(slot),
                    )
                    &&& holds_item(
                        item_kind(document_root(old(self).document()))->Table_0,
                        split_segments(path@),
                        *final(slot),
                    ) ==> final(self).document() == old(self).document()
                },
                Err(e) => {
                    &&& !doc_writable(document_root(old(self).document()), path@)
                    &&& final(self).document() == old(self).document()
                    &&& is_malformed(e)
                },
            },
    {
        let segments = split_path(path);
        let root = document_item_mut(&mut self.0);
        match item_as_table_mut(root) {
            Some(table) => {
                proof {
                    assert(segment_views(segments@).skip(0) =~= split_segments(path@));
                }
                entry_at(table, &segments, 0)
            },
            None => Err(CVarError::MalformedConfigDuringWrite("Expected a table.")),
        }
    }

    /// Writes `value` at the dotted path `path` of the document. Fails, and
    /// leaves the document as it is, where a segment of the path before the
    /// last one, or the root of the document, is taken by something that is
    /// no table. A document that holds the value at the path already, as it is
    /// written, stays as it is.
    pub fn save_cvar_inner(&mut self, path: &str, value: &CVarValue) -> (r: Result<(), CVarError>)
        ensures
            doc_holds(document_root(old(self).document()), path@, value@) ==> final(self).document()
                == old(self).document(),
            match r {
                Ok(()) => doc_written(
                    document_root(old(self).document()),
                    document_root(final(self).document()),
                    path@,
                    value@,
                ),
                Err(e) => {
                    &&& !doc_writable(document_root(old(self).document()), path@)
                    &&& final(self).document() == old(self).document()
                    &&& is_malformed(e)
                },
            },
    {
        let ghost before = model_of(item_kind(document_root(self.document()))->Table_0);
        match self.get_cvar_entry(path) {
            Ok(entry) => {
                let item = item_from_value(encode(value));
                let ghost stored = item;
                *entry = item;
                proof {
                    lemma_stored_value(
                        before,
                        item_kind(document_root(self.document()))->Table_0,
                        split_segments(path@),
                        stored,
                        value@,
                    );
                }
                Ok(())
            },
            Err(e) => Err(e),
        }
    }

    /// Manually save an individual cvar to the document: the value that its
    /// resource holds is written at its path.
    ///
    /// This does not look at the cvar's flags nor at whether the value is the
    /// default, and as such can be used to specially handle some cvars.
    pub fn save_cvar(&mut self, meta: &ReflectCVar, cvar: &Resource) -> (r: Result<(), CVarError>)
        ensures
            inner_of(cvar@) is Ok && doc_holds(
                document_root(old(self).document()),
                meta@.path,
                inner_of(cvar@)->Ok_0,
            ) ==> final(self).document() == old(self).document(),
            match inner_of(cvar@) {
                Err(e) => r == Err::<(), CVarError>(e) && final(self).document() == old(self).document(),
                Ok(value) => match r {
                    Ok(()) => doc_written(
                        document_root(old(self).document()),
                        document_root(final(self).document()),
                        meta@.path,
                        value,
                    ),
                    Err(e) => !doc_writable(document_root(old(self).document()), meta@.path)
                        && final(self).document() == old(self).document() && is_malformed(e),
                },
            },
    {
        match meta.reflect_inner(cvar) {
            Err(e) => Err(e),
            Ok(value) => self.save_cvar_inner(meta.cvar_path(), value),
        }
    }

    /// Manually save an individual cvar to the document, from the world: the
    /// value of the cvar at `cvar` is written at that path.
    ///
    /// This does not look at the cvar's flags nor at whether the value is the
    /// default, and as such can be used to specially handle some cvars.
    pub fn save_cvar_from_world(&mut self, world: &World, cvar: &str) -> (r: Result<(), CVarError>)
        requires
            world.wf(),
        ensures
            world.registry().read(world.cells(), cvar@) is Ok && doc_holds(
                document_root(old(self).document()),
                cvar@,
                world.registry().read(world.cells(), cvar@)->Ok_0,
            ) ==> final(self).document() == old(self).document(),
            match world.registry().read(world.cells(), cvar@) {
                Err(e) => r == Err::<(), CVarError>(e) && final(self).document() == old(self).document(),
                Ok(value) => match r {
                    Ok(()) => doc_written(
                        document_root(old(self).document()),
                        document_root(final(self).document()),
                        cvar@,
                        value,
                    ),
                    Err(e) => {
                        &&& !doc_writable(document_root(old(self).document()), cvar@)
                        &&& final(self).document() == old(self).document()
                        &&& is_malformed(e)
                    },
                },
            },
    {
        match world.management().get_cvar_reflect(world.resources(), cvar) {
            Err(e) => Err(e),
            Ok(value) => self.save_cvar_inner(cvar, value),
        }
    }

    /// Saves a world's cvars to the document.
    ///
    /// Every registered cvar that is saved, whose value can be written into
    /// documents and is not the default is written at its path, in the order
    /// of registration. The first cvar
    /// whose resource cannot be read, or whose path is taken in the document
    /// by something that is no table, ends the saving with its error; what was
    /// written before it stays.
    ///
    /// Where nothing is to be written for any cvar, the document stays as it
    /// is, and so does a document that holds every value to be written
    /// already, as it is written. A document whose root is a table still has
    /// one afterwards.
    pub fn save_world(&mut self, world: &World) -> (r: Result<(), CVarError>)
        requires
            world.wf(),
        ensures
            save_outcome(
                world.registry(),
                world.cells(),
                document_root(old(self).document()),
                document_root(final(self).document()),
                r,
            ),
            nothing_to_write(world.registry(), world.cells()) ==> r is Ok && final(self).document()
                == old(self).document(),
            settled(world.registry(), world.cells(), document_root(old(self).document()))
                ==> r is Ok && final(self).document() == old(self).document(),
            item_kind(document_root(old(self).document())) is Table ==> item_kind(
                document_root(final(self).document()),
            ) is Table,
    {
        let management = world.management();
        let resources = world.resources();
        let ghost registry = world.registry();
        let ghost cells = world.cells();
        let ghost start = document_root(self.document());
        let ghost mut docs: Seq<Item> = seq![start];
        let n = management.len();
        let mut i: usize = 0;
        while i < n
            invariant
                0 <= i <= n,
                n == registry.records.len(),
                management@ == registry,
                resources@ == cells,
                registry == world.registry(),
                cells == world.cells(),
                management.wf(),
                start == document_root(old(self).document()),
                saved_along(registry, cells, docs, i as int),
                docs[0] == start,
                docs[i as int] == document_root(self.document()),
                nothing_to_write(registry, cells) ==> self.document() == old(self).document(),
                settled(registry, cells, start) ==> self.document() == old(self).document(),
                item_kind(start) is Table ==> item_kind(document_root(self.document())) is Table,
            decreases n - i,
        {
            let ghost mid = document_root(self.document());
            let (id, meta) = management.registration(i);
            if meta.flags().contains(CVarFlags(CVarFlags::SAVED)) && meta.can_serialize() {
                let resource = match resources.get(id) {
                    Ok(resource) => resource,
                    Err(e) => {
                        proof {
                            assert(saved_along(registry, cells, docs, i as int));
                            assert(saved_prefix(registry, cells, i as int, start, mid));
                        }
                        return Err(CVarError::from_fetch_error(e));
                    },
                };
                if !meta.is_default_value(resource) {
                    let inner = match meta.reflect_inner(resource) {
                        Ok(inner) => inner,
                        Err(e) => {
                            proof {
                                assert(saved_along(registry, cells, docs, i as int));
                                assert(saved_prefix(registry, cells, i as int, start, mid));
                            }
                            return Err(e);
                        },
                    };
                    match self.save_cvar_inner(meta.cvar_path(), inner) {
                        Ok(()) => {},
                        Err(e) => {
                            proof {
                                if settled(registry, cells, start) {
                                    assert(save_step(registry, cells, i as int) is Write);
                                    lemma_held_is_writable(
                                        item_kind(mid)->Table_0,
                                        split_segments(meta@.path),
                                        value_item(encoded(inner@)),
                                    );
                                }
                                assert(saved_along(registry, cells, docs, i as int));
                                assert(saved_prefix(registry, cells, i as int, start, mid));
                            }
                            return Err(e);
                        },
                    }
                }
            }
            proof {
                let after = document_root(self.document());
                assert(step_between(registry, cells, i as int, mid, after));
                let before_docs = docs;
                docs = docs.push(after);
                assert forall|j: int| 0 <= j < i + 1 implies #[trigger] step_between(
                    registry,
                    cells,
                    j,
                    docs[j],
                    docs[j + 1],
                ) by {
                    if j < i {
                        assert(step_between(registry, cells, j, before_docs[j], before_docs[j + 1]));
                    }
                }
            }
            i = i + 1;
        }
        proof {
            assert(saved_along(registry, cells, docs, n as int));
            assert(saved_prefix(registry, cells, n as int, start, document_root(self.document())));
        }
        Ok(())
    }
}

} // verus!
