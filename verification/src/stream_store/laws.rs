//! What holds of every index, stated over [`StoreView`] and proved from its
//! definitions.
use crate::paths::{below, file_name_of, lemma_last_index_is, lemma_last_index_of, within};
use crate::stream_store::data_types::{enrichable, enriched, SourceView, StreamMetaView};
use crate::stream_store::tables::{hex_digits, hyphenated, nibble};
use crate::stream_store::{admitted, is_sidecar, sidecar_path, StoreView};
use vstd::prelude::*;

verus! {

/// The identifier of the last record of `found` that is taken into the index
/// with `key` as its path below the root, if there is one.
pub open spec fn last_owner(
    root: Seq<char>,
    found: Seq<(Seq<char>, StreamMetaView<Seq<char>>)>,
    key: Seq<char>,
) -> Option<u128>
    decreases found.len(),
{
    if found.len() == 0 {
        None
    } else if admitted(root, found.last().0, found.last().1) && below(found.last().0, root) == key {
        Some(found.last().1.uuid)
    } else {
        last_owner(root, found.drop_last(), key)
    }
}

/// The served form of the last record of `found` that is taken into the
/// index and carries the identifier `id`, if there is one.
pub open spec fn last_record(
    root: Seq<char>,
    found: Seq<(Seq<char>, StreamMetaView<Seq<char>>)>,
    id: u128,
) -> Option<StreamMetaView<SourceView>>
    decreases found.len(),
{
    if found.len() == 0 {
        None
    } else if admitted(root, found.last().0, found.last().1) && found.last().1.uuid == id {
        Some(enriched(found.last().1))
    } else {
        last_record(root, found.drop_last(), id)
    }
}

/// What loading does to each entry of the index: a path or an identifier
/// that `found` speaks of gets what `found` says of it last, and every other
/// entry stays as it was.
pub proof fn lemma_loaded_entries(
    view: StoreView,
    found: Seq<(Seq<char>, StreamMetaView<Seq<char>>)>,
)
    ensures
        view.loaded(found).root == view.root,
        forall|key: Seq<char>|
            #![trigger view.loaded(found).owners.contains_key(key)]
            view.loaded(found).owners.contains_key(key) <==> last_owner(view.root, found, key).is_some()
                || view.owners.contains_key(key),
        forall|key: Seq<char>|
            #![trigger view.loaded(found).owners[key]]
            view.loaded(found).owners.contains_key(key) ==> view.loaded(found).owners[key] == (
            match last_owner(view.root, found, key) {
                Some(id) => id,
                None => view.owners[key],
            }),
        forall|id: u128|
            #![trigger view.loaded(found).streams.contains_key(id)]
            view.loaded(found).streams.contains_key(id) <==> last_record(view.root, found, id).is_some()
                || view.streams.contains_key(id),
        forall|id: u128|
            #![trigger view.loaded(found).streams[id]]
            view.loaded(found).streams.contains_key(id) ==> view.loaded(found).streams[id] == (
            match last_record(view.root, found, id) {
                Some(stream) => stream,
                None => view.streams[id],
            }),
    decreases found.len(),
{
    if found.len() > 0 {
        lemma_loaded_entries(view, found.drop_last());
    }
}

/// Loading adds no path but that of a sidecar file under the root: every
/// path that belongs to a stream afterwards did so before, or is the path
/// below the root of a sidecar file of `found` that lies under the root.
pub proof fn lemma_load_adds_sidecar_paths(
    view: StoreView,
    found: Seq<(Seq<char>, StreamMetaView<Seq<char>>)>,
)
    ensures
        forall|key: Seq<char>| #[trigger]
            view.loaded(found).owners.contains_key(key) ==> view.owners.contains_key(key) || exists|
                i: int,
            |
                0 <= i < found.len() && is_sidecar((#[trigger] found[i]).0) && within(
                    found[i].0,
                    view.root,
                ) && below(found[i].0, view.root) == key,
    decreases found.len(),
{
    if found.len() > 0 {
        let rest = found.drop_last();
        lemma_load_adds_sidecar_paths(view, rest);
        lemma_loaded_entries(view, rest);
        assert forall|key: Seq<char>| #[trigger]
            view.loaded(found).owners.contains_key(key) implies view.owners.contains_key(key)
            || exists|i: int|
            0 <= i < found.len() && is_sidecar((#[trigger] found[i]).0) && within(
                found[i].0,
                view.root,
            ) && below(found[i].0, view.root) == key by {
            if view.loaded(rest).owners.contains_key(key) {
                if !view.owners.contains_key(key) {
                    let i = choose|i: int|
                        0 <= i < rest.len() && is_sidecar((#[trigger] rest[i]).0) && within(
                            rest[i].0,
                            view.root,
                        ) && below(rest[i].0, view.root) == key;
                    assert(found[i] == rest[i]);
                }
            } else {
                assert(found[found.len() - 1] == found.last());
            }
        }
    }
}

/// Loading keeps every owner indexed: where each path belonged to an indexed
/// stream before, each does so afterwards.
pub proof fn lemma_load_keeps_owners_indexed(
    view: StoreView,
    found: Seq<(Seq<char>, StreamMetaView<Seq<char>>)>,
)
    requires
        forall|key: Seq<char>| #[trigger]
            view.owners.contains_key(key) ==> view.streams.contains_key(view.owners[key]),
    ensures
        forall|key: Seq<char>| #[trigger]
            view.loaded(found).owners.contains_key(key) ==> view.loaded(found).streams.contains_key(
                view.loaded(found).owners[key],
            ),
    decreases found.len(),
{
    if found.len() > 0 {
        lemma_load_keeps_owners_indexed(view, found.drop_last());
        lemma_loaded_entries(view, found.drop_last());
    }
}

/// Scan idempotence: loading what a scan found a second time changes
/// nothing. No entry appears twice and none goes missing.
pub proof fn lemma_load_is_idempotent(
    view: StoreView,
    found: Seq<(Seq<char>, StreamMetaView<Seq<char>>)>,
)
    ensures
        view.loaded(found).loaded(found) == view.loaded(found),
{
    let once = view.loaded(found);
    let twice = once.loaded(found);
    lemma_loaded_entries(view, found);
    lemma_loaded_entries(once, found);
    assert forall|key: Seq<char>| twice.owners.contains_key(key) == once.owners.contains_key(
        key,
    ) && (once.owners.contains_key(key) ==> twice.owners[key] == once.owners[key]) by {
    }
    assert(twice.owners =~= once.owners);
    assert forall|id: u128| twice.streams.contains_key(id) == once.streams.contains_key(id) && (
    once.streams.contains_key(id) ==> twice.streams[id] == once.streams[id]) by {}
    assert(twice.streams =~= once.streams);
    assert(twice.root == once.root);
}

/// Removal correctness: once the sidecar file of a stream, a file under the
/// root, was loaded and then disappeared, the stream is gone from the index and its path belongs to no
/// stream. The removal reports that a stream left.
pub proof fn lemma_removed_stream_is_absent(
    view: StoreView,
    path: Seq<char>,
    raw: StreamMetaView<Seq<char>>,
)
    requires
        is_sidecar(path),
        within(path, view.root),
        enrichable(raw),
    ensures
        view.loaded(seq![(path, raw)]).streams.contains_key(raw.uuid),
        view.loaded(seq![(path, raw)]).drops_any(seq![path]),
        !view.loaded(seq![(path, raw)]).without_all(seq![path]).streams.contains_key(raw.uuid),
        !view.loaded(seq![(path, raw)]).without_all(seq![path]).owners.contains_key(
            view.key_of(path),
        ),
{
    let found = seq![(path, raw)];
    assert(found.drop_last() =~= Seq::empty());
    assert(view.loaded(found.drop_last()) == view);
    let indexed = view.loaded(found);
    assert(indexed == view.indexed(path, raw));
    let paths = seq![path];
    assert(paths.drop_last() =~= Seq::empty());
    assert(indexed.without_all(paths.drop_last()) == indexed);
    assert(indexed.key_of(path) == view.key_of(path));
    assert(!indexed.drops_any(paths.drop_last()));
}

/// A removal never adds to the index: every stream that is indexed
/// afterwards was indexed before, unchanged.
pub proof fn lemma_removal_only_removes(view: StoreView, paths: Seq<Seq<char>>)
    ensures
        view.without_all(paths).root == view.root,
        forall|id: u128| #[trigger]
            view.without_all(paths).streams.contains_key(id) ==> view.streams.contains_key(id)
                && view.without_all(paths).streams[id] == view.streams[id],
        !view.drops_any(paths) ==> view.without_all(paths).streams == view.streams,
    decreases paths.len(),
{
    if paths.len() > 0 {
        lemma_removal_only_removes(view, paths.drop_last());
        let before = view.without_all(paths.drop_last());
        if !view.drops_any(paths) {
            assert(before.without(paths.last()).streams =~= before.streams);
        }
    }
}

/// No digit of a UUID is a `/` or a `.`.
proof fn lemma_hex_digit(n: int)
    requires
        0 <= n < 16,
    ensures
        hex_digits()[n] != '/',
        hex_digits()[n] != '.',
{
    if n == 0 {
    } else if n == 1 {
    } else if n == 2 {
    } else if n == 3 {
    } else if n == 4 {
    } else if n == 5 {
    } else if n == 6 {
    } else if n == 7 {
    } else if n == 8 {
    } else if n == 9 {
    } else if n == 10 {
    } else if n == 11 {
    } else if n == 12 {
    } else if n == 13 {
    } else if n == 14 {
    } else {
    }
}

/// The hyphenated form of a UUID has 36 characters, none of them a `/` or a
/// `.`.
pub proof fn lemma_hyphenated_is_a_plain_name(id: u128)
    ensures
        hyphenated(id).len() == 36,
        forall|k: int|
            0 <= k < 36 ==> (#[trigger] hyphenated(id)[k]) != '/' && hyphenated(id)[k] != '.',
{
    assert forall|k: int| 0 <= k < 36 implies (#[trigger] hyphenated(id)[k]) != '/' && hyphenated(
        id,
    )[k] != '.' by {
        if k == 8 || k == 13 || k == 18 || k == 23 {
        } else if k < 8 {
            lemma_hex_digit(nibble(id, k));
        } else if k < 13 {
            lemma_hex_digit(nibble(id, k - 1));
        } else if k < 18 {
            lemma_hex_digit(nibble(id, k - 2));
        } else if k < 23 {
            lemma_hex_digit(nibble(id, k - 3));
        } else {
            lemma_hex_digit(nibble(id, k - 4));
        }
    }
}

/// What is registered can be scanned: the sidecar file that a registration
/// names lies under the root of the store, carries the sidecar extension,
/// and is named by the identifier of the stream.
pub proof fn lemma_registered_file_is_scanned(root: Seq<char>, id: u128)
    ensures
        within(sidecar_path(root, id), root),
        is_sidecar(sidecar_path(root, id)),
        file_name_of(sidecar_path(root, id)) == hyphenated(id) + "."@ + "stream"@,
{
    reveal_strlit(".");
    reveal_strlit("stream");
    lemma_hyphenated_is_a_plain_name(id);
    let name = hyphenated(id) + "."@ + "stream"@;
    let path = sidecar_path(root, id);
    assert(name.len() == 43);
    assert forall|k: int| 0 <= k < 43 implies name[k] != '/' by {
        if k < 36 {
            assert(name[k] == hyphenated(id)[k]);
        }
    }
    assert forall|k: int| 36 < k < 43 implies name[k] != '.' by {}
    assert(name[36] == '.');
    lemma_last_index_is(name, '.', 36);
    assert(name.skip(37) =~= "stream"@);
    if root.len() == 0 {
        assert(path =~= name);
        lemma_last_index_of(path, '/');
    } else if root.last() == '/' {
        assert(path =~= root + name);
        let at = root.len() - 1;
        assert forall|j: int| at < j < path.len() implies path[j] != '/' by {
            assert(path[j] == name[j - root.len()]);
        }
        lemma_last_index_is(path, '/', at);
        assert(path.skip(at + 1) =~= name);
        assert(path.subrange(0, root.len() as int) =~= root);
    } else {
        assert(path =~= root + seq!['/'] + name);
        let at = root.len() as int;
        assert forall|j: int| at < j < path.len() implies path[j] != '/' by {
            assert(path[j] == name[j - root.len() - 1]);
        }
        lemma_last_index_is(path, '/', at);
        assert(path.skip(at + 1) =~= name);
        assert(path.subrange(0, root.len() as int) =~= root);
    }
}

/// Registration, deletion, removal: once the sidecar file that a registration
/// named was loaded and then disappeared, the stream that was registered is
/// gone from the index.
pub proof fn lemma_registered_then_removed_is_absent(view: StoreView, raw: StreamMetaView<Seq<char>>)
    requires
        enrichable(raw),
    ensures
        view.loaded(seq![(sidecar_path(view.root, raw.uuid), raw)]).streams.contains_key(raw.uuid),
        !view.loaded(seq![(sidecar_path(view.root, raw.uuid), raw)]).without_all(
            seq![sidecar_path(view.root, raw.uuid)],
        ).streams.contains_key(raw.uuid),
{
    lemma_registered_file_is_scanned(view.root, raw.uuid);
    lemma_removed_stream_is_absent(view, sidecar_path(view.root, raw.uuid), raw);
}

} // verus!
