//! The store's laws: what holds across sequences of operations, stated and
//! proved once and for all over the model.
//!
//! Each law is phrased over the effect functions that the operations'
//! contracts use, so that it composes directly with them: where an
//! operation's `ensures` says the store becomes `save_effect(..)`, the law
//! says what a later operation then finds there.

use vstd::prelude::*;

use crate::buffer::evicted;
use crate::model::{
    assoc_set, base_name, collect_into, collect_step, content_or_empty, first_where,
    lemma_first_where, lemma_remove_lookup, lemma_save_lookup, lemma_wf_save, listing, lookup,
    pair_key_pred, rec_matches, remove_effect, save_effect, wf_recs, FileRec,
};
use crate::paths::scalar_name;
use crate::text::{
    drop_empty, joined_nonempty, lemma_drop_empty_len, lemma_lines_round_trip,
    lemma_split_lines_no_newline, no_newline, split_lines,
};

verus! {

/// Round trip: saving a preference and then reading the same (namespace,
/// key) finds exactly the saved text — so a read with any default returns
/// the saved value, touches nothing, and well-formedness is kept.
pub proof fn law_round_trip(m: Seq<FileRec>, app: Seq<char>, key: Seq<char>, value: Seq<char>)
    requires
        wf_recs(m),
    ensures
        lookup(save_effect(m, app, scalar_name(key), value), app, scalar_name(key)) == Some(value),
        wf_recs(save_effect(m, app, scalar_name(key), value)),
{
    lemma_save_lookup(m, app, scalar_name(key), value);
    lemma_wf_save(m, app, scalar_name(key), value);
}

/// Default write-through: reading a never-saved key with a default persists
/// the default, so the read returns it and a later read without any default
/// finds the very same text.
pub proof fn law_default_write_through(m: Seq<FileRec>, app: Seq<char>, key: Seq<char>, def: Seq<
    char,
>)
    requires
        lookup(m, app, scalar_name(key)) is None,
    ensures
        lookup(save_effect(m, app, scalar_name(key), def), app, scalar_name(key)) == Some(def),
        content_or_empty(save_effect(m, app, scalar_name(key), def), app, scalar_name(key)) == def,
{
    lemma_save_lookup(m, app, scalar_name(key), def);
}

/// Clearing removes: after a save and then a clear of the same key, a read
/// without a default finds nothing and reports empty text.
pub proof fn law_clear_removes(m: Seq<FileRec>, app: Seq<char>, key: Seq<char>, value: Seq<char>)
    requires
        wf_recs(m),
    ensures
        ({
            let m1 = save_effect(m, app, scalar_name(key), value);
            let m2 = remove_effect(m1, app, scalar_name(key));
            content_or_empty(m2, app, scalar_name(key)) == Seq::<char>::empty()
        }),
{
    let m1 = save_effect(m, app, scalar_name(key), value);
    lemma_wf_save(m, app, scalar_name(key), value);
    lemma_remove_lookup(m1, app, scalar_name(key));
}

/// Idempotent clear: clearing the same (namespace, filename) a second time
/// finds nothing to do and leaves exactly what the first clear left.
pub proof fn law_clear_idempotent(m: Seq<FileRec>, app: Seq<char>, name: Seq<char>)
    requires
        wf_recs(m),
    ensures
        remove_effect(remove_effect(m, app, name), app, name) == remove_effect(m, app, name),
{
    lemma_remove_lookup(m, app, name);
}

/// Create-only conflict: when the file is absent, the first create-only call
/// succeeds and leaves its value; the entry is then present, so a second
/// create-only call of the same file is refused and the content stays the
/// first value.
pub proof fn law_create_only_conflict(
    m: Seq<FileRec>,
    app: Seq<char>,
    name: Seq<char>,
    v1: Seq<char>,
)
    requires
        lookup(m, app, name) is None,
    ensures
        lookup(save_effect(m, app, name, v1), app, name) == Some(v1),
{
    lemma_save_lookup(m, app, name, v1);
}

/// A completed buffer push leaves the persisted buffer holding exactly the
/// nonempty entries of the evicted sequence — the prior lines with the new
/// value appended and the front discarded down to the capacity — and so
/// never more lines than the capacity. The one proviso is that the pushed
/// value embeds no newline: one line per entry is all the format can carry.
pub proof fn law_buffer_push_snapshot(
    m: Seq<FileRec>,
    app: Seq<char>,
    name: Seq<char>,
    value: Seq<char>,
    cap: int,
)
    requires
        wf_recs(m),
        no_newline(value),
    ensures
        ({
            let lines = split_lines(content_or_empty(m, app, name));
            let kept = evicted(lines.push(value), cap);
            let m2 = remove_effect(m, app, name).push((app, name, joined_nonempty(kept)));
            &&& split_lines(content_or_empty(m2, app, name)) == drop_empty(kept)
            &&& split_lines(content_or_empty(m2, app, name)).len() <= (if cap < 0 {
                0
            } else {
                cap
            })
        }),
{
    let lines = split_lines(content_or_empty(m, app, name));
    let pushed = lines.push(value);
    let kept = evicted(pushed, cap);
    let m1 = remove_effect(m, app, name);
    let m2 = m1.push((app, name, joined_nonempty(kept)));
    lemma_remove_lookup(m, app, name);
    assert(m2 == save_effect(m1, app, name, joined_nonempty(kept)));
    lemma_save_lookup(m1, app, name, joined_nonempty(kept));
    assert(content_or_empty(m2, app, name) == joined_nonempty(kept));
    lemma_split_lines_no_newline(content_or_empty(m, app, name));
    assert forall|k: int| 0 <= k < kept.len() implies no_newline(#[trigger] kept[k]) by {
        let off = pushed.len() - kept.len();
        assert(kept[k] == pushed[k + off]);
        if k + off < lines.len() {
            assert(pushed[k + off] == lines[k + off]);
        } else {
            assert(pushed[k + off] == value);
        }
    }
    lemma_lines_round_trip(kept);
    lemma_drop_empty_len(kept);
}

/// Whether the mapping `acc` carries a pair for `key`.
pub open spec fn assoc_has(acc: Seq<(Seq<char>, Seq<char>)>, key: Seq<char>) -> bool {
    exists|k: int| 0 <= k < acc.len() && (#[trigger] acc[k]).0 == key
}

/// Setting one key adds exactly that key to the mapping's key set.
proof fn lemma_assoc_set_keys(
    acc: Seq<(Seq<char>, Seq<char>)>,
    key: Seq<char>,
    val: Seq<char>,
    key2: Seq<char>,
)
    ensures
        assoc_has(assoc_set(acc, key, val), key2) <==> (assoc_has(acc, key2) || key2 == key),
{
    let p = pair_key_pred(key);
    lemma_first_where(acc, p);
    let f = first_where(acc, p);
    let out = assoc_set(acc, key, val);
    if f >= 0 {
        assert(acc[f].0 == key);
        assert(out[f].0 == key);
        if assoc_has(out, key2) {
            let k = choose|k: int| 0 <= k < out.len() && out[k].0 == key2;
            if k != f {
                assert(out[k] == acc[k]);
            }
        }
        if assoc_has(acc, key2) {
            let k = choose|k: int| 0 <= k < acc.len() && acc[k].0 == key2;
            if k == f {
                assert(out[f].0 == key2);
            } else {
                assert(out[k] == acc[k]);
            }
        }
        if key2 == key {
            assert(out[f].0 == key2);
        }
    } else {
        assert(out[acc.len() as int].0 == key);
        if assoc_has(out, key2) {
            let k = choose|k: int| 0 <= k < out.len() && out[k].0 == key2;
            if k < acc.len() {
                assert(out[k] == acc[k]);
            }
        }
        if assoc_has(acc, key2) {
            let k = choose|k: int| 0 <= k < acc.len() && acc[k].0 == key2;
            assert(out[k] == acc[k]);
        }
    }
}

/// The key set that accumulating over `m` yields: what was there before,
/// plus the base name of every matching record.
proof fn lemma_collect_keys(
    m: Seq<FileRec>,
    app: Seq<char>,
    sub: Seq<char>,
    ext: Seq<char>,
    acc: Seq<(Seq<char>, Seq<char>)>,
    key: Seq<char>,
)
    ensures
        assoc_has(collect_into(m, app, sub, ext, acc), key) <==> (assoc_has(acc, key) || exists|
            i: int,
        |
            0 <= i < m.len() && rec_matches(#[trigger] m[i], app, sub, ext) && base_name(
                m[i].1,
                ext,
            ) == key),
    decreases m.len(),
{
    if m.len() == 0 {
        assert(!(exists|i: int|
            0 <= i < m.len() && rec_matches(#[trigger] m[i], app, sub, ext) && base_name(
                m[i].1,
                ext,
            ) == key));
    } else {
        let acc1 = collect_step(acc, m[0], app, sub, ext);
        lemma_collect_keys(m.drop_first(), app, sub, ext, acc1, key);
        if rec_matches(m[0], app, sub, ext) {
            lemma_assoc_set_keys(acc, base_name(m[0].1, ext), m[0].2, key);
        }
        let here = exists|i: int|
            0 <= i < m.len() && rec_matches(#[trigger] m[i], app, sub, ext) && base_name(
                m[i].1,
                ext,
            ) == key;
        let there = exists|i: int|
            0 <= i < m.drop_first().len() && rec_matches(
                #[trigger] m.drop_first()[i],
                app,
                sub,
                ext,
            ) && base_name(m.drop_first()[i].1, ext) == key;
        if there {
            let i = choose|i: int|
                0 <= i < m.drop_first().len() && rec_matches(
                    #[trigger] m.drop_first()[i],
                    app,
                    sub,
                    ext,
                ) && base_name(m.drop_first()[i].1, ext) == key;
            assert(m.drop_first()[i] == m[i + 1]);
            assert(here);
        }
        if here {
            let i = choose|i: int|
                0 <= i < m.len() && rec_matches(#[trigger] m[i], app, sub, ext) && base_name(
                    m[i].1,
                    ext,
                ) == key;
            if i > 0 {
                assert(m.drop_first()[i - 1] == m[i]);
                assert(there);
            }
        }
    }
}

/// Enumeration completeness: the listing carries a pair for the base name of
/// every matching file, and for nothing else — a key stands in the result
/// exactly when some file of the namespace matches the extension (and the
/// sub-path) under that base name.
pub proof fn law_listing_complete(
    m: Seq<FileRec>,
    app: Seq<char>,
    sub: Seq<char>,
    ext: Seq<char>,
    key: Seq<char>,
)
    ensures
        assoc_has(listing(m, app, sub, ext), key) <==> exists|i: int|
            0 <= i < m.len() && rec_matches(#[trigger] m[i], app, sub, ext) && base_name(
                m[i].1,
                ext,
            ) == key,
{
    lemma_collect_keys(m, app, sub, ext, Seq::empty(), key);
}

} // verus!
