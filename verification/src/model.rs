//! The mathematical model of the store: a sequence of (namespace, filename,
//! content) records, the effect of each operation on it, and the lemmas that
//! relate the effects.
//!
//! The record order models the order of an on-disk directory walk; a
//! well-formed model holds no two records with the same (namespace, filename)
//! pair, just as a filesystem holds one file per path.

use vstd::prelude::*;

use crate::text::{first_hit, lemma_first_hit, lemma_first_hit_at};

verus! {

/// One file of the store, as plain text: (namespace, filename, content).
pub type FileRec = (Seq<char>, Seq<char>, Seq<char>);

/// Index of the first element of `s` satisfying `p`, or `-1` if there is
/// none.
pub open spec fn first_where<T>(s: Seq<T>, p: spec_fn(T) -> bool) -> int
    decreases s.len(),
{
    if s.len() == 0 {
        -1
    } else if p(s[0]) {
        0
    } else if first_where(s.drop_first(), p) == -1 {
        -1
    } else {
        1 + first_where(s.drop_first(), p)
    }
}

pub proof fn lemma_first_where<T>(s: Seq<T>, p: spec_fn(T) -> bool)
    ensures
        -1 <= first_where(s, p) < s.len(),
        first_where(s, p) >= 0 ==> p(s[first_where(s, p)]),
        forall|i: int| 0 <= i < first_where(s, p) ==> !p(#[trigger] s[i]),
        first_where(s, p) == -1 ==> forall|i: int| 0 <= i < s.len() ==> !p(#[trigger] s[i]),
    decreases s.len(),
{
    if s.len() > 0 && !p(s[0]) {
        lemma_first_where(s.drop_first(), p);
        assert forall|i: int| 0 <= i < first_where(s, p) implies !p(#[trigger] s[i]) by {
            if i > 0 {
                assert(s.drop_first()[i - 1] == s[i]);
            }
        }
        if first_where(s, p) == -1 {
            assert forall|i: int| 0 <= i < s.len() implies !p(#[trigger] s[i]) by {
                if i > 0 {
                    assert(s.drop_first()[i - 1] == s[i]);
                }
            }
        } else {
            assert(s.drop_first()[first_where(s.drop_first(), p)] == s[first_where(s, p)]);
        }
    }
}

/// A sequence whose first `k` elements fail `p`, with a hit (or the end) at
/// `k`, has its first hit exactly at `k`.
pub proof fn lemma_first_where_at<T>(s: Seq<T>, p: spec_fn(T) -> bool, k: int)
    requires
        0 <= k <= s.len(),
        forall|i: int| 0 <= i < k ==> !p(#[trigger] s[i]),
        k < s.len() ==> p(s[k]),
    ensures
        first_where(s, p) == if k < s.len() {
            k
        } else {
            -1
        },
    decreases s.len(),
{
    if s.len() > 0 && !p(s[0]) {
        assert forall|i: int| 0 <= i < k - 1 implies !p(#[trigger] s.drop_first()[i]) by {
            assert(s.drop_first()[i] == s[i + 1]);
        }
        if k < s.len() {
            assert(s.drop_first()[k - 1] == s[k]);
        }
        lemma_first_where_at(s.drop_first(), p, k - 1);
    }
}

/// Whether two records name the same file.
pub open spec fn same_key(a: FileRec, b: FileRec) -> bool {
    a.0 == b.0 && a.1 == b.1
}

/// The predicate selecting the record of `(app, name)`.
pub open spec fn key_pred(app: Seq<char>, name: Seq<char>) -> spec_fn(FileRec) -> bool {
    |r: FileRec| r.0 == app && r.1 == name
}

/// Index of the record for `(app, name)`, or `-1` if absent.
pub open spec fn first_match(m: Seq<FileRec>, app: Seq<char>, name: Seq<char>) -> int {
    first_where(m, key_pred(app, name))
}

/// A model is well formed when no two records name the same file.
pub open spec fn wf_recs(m: Seq<FileRec>) -> bool {
    forall|i: int, j: int|
        0 <= i < m.len() && 0 <= j < m.len() && i != j ==> !same_key(
            #[trigger] m[i],
            #[trigger] m[j],
        )
}

/// The content stored for `(app, name)`, if present.
pub open spec fn lookup(m: Seq<FileRec>, app: Seq<char>, name: Seq<char>) -> Option<Seq<char>> {
    let f = first_match(m, app, name);
    if f >= 0 {
        Some(m[f].2)
    } else {
        None
    }
}

/// The content read back for `(app, name)`: an absent entry reads as empty.
pub open spec fn content_or_empty(m: Seq<FileRec>, app: Seq<char>, name: Seq<char>) -> Seq<char> {
    match lookup(m, app, name) {
        Some(c) => c,
        None => Seq::empty(),
    }
}

/// The model after a whole-file write of `val` to `(app, name)`: updated in
/// place if present, appended otherwise.
pub open spec fn save_effect(
    m: Seq<FileRec>,
    app: Seq<char>,
    name: Seq<char>,
    val: Seq<char>,
) -> Seq<FileRec> {
    let f = first_match(m, app, name);
    if f >= 0 {
        m.update(f, (app, name, val))
    } else {
        m.push((app, name, val))
    }
}

/// The model after deleting `(app, name)`: unchanged if absent, so deletion
/// is idempotent.
pub open spec fn remove_effect(m: Seq<FileRec>, app: Seq<char>, name: Seq<char>) -> Seq<FileRec> {
    let f = first_match(m, app, name);
    if f >= 0 {
        m.remove(f)
    } else {
        m
    }
}

/// A write makes the written content the one that is looked up.
pub proof fn lemma_save_lookup(m: Seq<FileRec>, app: Seq<char>, name: Seq<char>, val: Seq<char>)
    ensures
        lookup(save_effect(m, app, name, val), app, name) == Some(val),
{
    let p = key_pred(app, name);
    lemma_first_where(m, p);
    let f = first_where(m, p);
    let m2 = save_effect(m, app, name, val);
    if f >= 0 {
        assert forall|i: int| 0 <= i < f implies !p(#[trigger] m2[i]) by {
            assert(m2[i] == m[i]);
        }
        assert(p(m2[f]));
        lemma_first_where_at(m2, p, f);
    } else {
        assert forall|i: int| 0 <= i < m.len() implies !p(#[trigger] m2[i]) by {
            assert(m2[i] == m[i]);
        }
        assert(p(m2[m.len() as int]));
        lemma_first_where_at(m2, p, m.len() as int);
    }
}


/// Two writes to the same file collapse to the last one.
pub proof fn lemma_save_save(
    m: Seq<FileRec>,
    app: Seq<char>,
    name: Seq<char>,
    v1: Seq<char>,
    v2: Seq<char>,
)
    ensures
        save_effect(save_effect(m, app, name, v1), app, name, v2) == save_effect(m, app, name, v2),
{
    let p = key_pred(app, name);
    lemma_first_where(m, p);
    let f = first_where(m, p);
    let m1 = save_effect(m, app, name, v1);
    if f >= 0 {
        assert forall|i: int| 0 <= i < f implies !p(#[trigger] m1[i]) by {
            assert(m1[i] == m[i]);
        }
        assert(p(m1[f]));
        lemma_first_where_at(m1, p, f);
        assert(save_effect(m1, app, name, v2) =~= save_effect(m, app, name, v2));
    } else {
        assert forall|i: int| 0 <= i < m.len() implies !p(#[trigger] m1[i]) by {
            assert(m1[i] == m[i]);
        }
        assert(p(m1[m.len() as int]));
        lemma_first_where_at(m1, p, m.len() as int);
        assert(save_effect(m1, app, name, v2) =~= save_effect(m, app, name, v2));
    }
}

/// Deleting a file makes its lookup miss, in a well-formed model.
pub proof fn lemma_remove_lookup(m: Seq<FileRec>, app: Seq<char>, name: Seq<char>)
    requires
        wf_recs(m),
    ensures
        lookup(remove_effect(m, app, name), app, name) is None,
{
    let p = key_pred(app, name);
    lemma_first_where(m, p);
    let f = first_where(m, p);
    if f >= 0 {
        let m2 = m.remove(f);
        assert forall|i: int| 0 <= i < m2.len() implies !p(#[trigger] m2[i]) by {
            if i < f {
                assert(m2[i] == m[i]);
            } else {
                assert(m2[i] == m[i + 1]);
                if p(m2[i]) {
                    assert(same_key(m[f], m[i + 1]));
                }
            }
        }
        lemma_first_where_at(m2, p, m2.len() as int);
    }
}


/// A write preserves well-formedness.
pub proof fn lemma_wf_save(m: Seq<FileRec>, app: Seq<char>, name: Seq<char>, val: Seq<char>)
    requires
        wf_recs(m),
    ensures
        wf_recs(save_effect(m, app, name, val)),
{
    let p = key_pred(app, name);
    lemma_first_where(m, p);
    let f = first_where(m, p);
    let m2 = save_effect(m, app, name, val);
    if f >= 0 {
        assert forall|i: int, j: int|
            0 <= i < m2.len() && 0 <= j < m2.len() && i != j implies !same_key(
            #[trigger] m2[i],
            #[trigger] m2[j],
        ) by {
            assert(same_key(m2[i], m[i]) || i == f);
            assert(same_key(m2[f], m[f]));
            assert(!same_key(m[i], m[j]));
            if i != f && j != f {
                assert(m2[i] == m[i] && m2[j] == m[j]);
            } else if i == f {
                assert(m2[j] == m[j]);
            } else {
                assert(m2[i] == m[i]);
            }
        }
    } else {
        assert forall|i: int, j: int|
            0 <= i < m2.len() && 0 <= j < m2.len() && i != j implies !same_key(
            #[trigger] m2[i],
            #[trigger] m2[j],
        ) by {
            let n = m.len() as int;
            if i < n && j < n {
                assert(m2[i] == m[i] && m2[j] == m[j]);
            } else if i == n {
                assert(m2[j] == m[j]);
                assert(!p(m[j]));
            } else {
                assert(m2[i] == m[i]);
                assert(!p(m[i]));
            }
        }
    }
}

/// A deletion preserves well-formedness.
pub proof fn lemma_wf_remove(m: Seq<FileRec>, app: Seq<char>, name: Seq<char>)
    requires
        wf_recs(m),
    ensures
        wf_recs(remove_effect(m, app, name)),
{
    let p = key_pred(app, name);
    lemma_first_where(m, p);
    let f = first_where(m, p);
    if f >= 0 {
        let m2 = m.remove(f);
        assert forall|i: int, j: int|
            0 <= i < m2.len() && 0 <= j < m2.len() && i != j implies !same_key(
            #[trigger] m2[i],
            #[trigger] m2[j],
        ) by {
            let si = if i < f {
                i
            } else {
                i + 1
            };
            let sj = if j < f {
                j
            } else {
                j + 1
            };
            assert(m2[i] == m[si] && m2[j] == m[sj]);
            assert(!same_key(m[si], m[sj]));
        }
    }
}

/// Whether filename `name` carries extension `ext`: it ends in `.ext`.
pub open spec fn has_ext(name: Seq<char>, ext: Seq<char>) -> bool {
    (seq!['.'] + ext).is_suffix_of(name)
}

/// Whether `name` lies within the sub-path `sub` of its namespace: trivially
/// so when `sub` is empty, otherwise `sub/` must begin it.
pub open spec fn in_sub(name: Seq<char>, sub: Seq<char>) -> bool {
    sub.len() == 0 || (sub + seq!['/']).is_prefix_of(name)
}

/// Whether a record is picked up by an enumeration of `(app, sub, ext)`.
pub open spec fn rec_matches(r: FileRec, app: Seq<char>, sub: Seq<char>, ext: Seq<char>) -> bool {
    r.0 == app && in_sub(r.1, sub) && has_ext(r.1, ext)
}

/// The final path component of `name`: what follows the last `/`, or all of
/// `name` when it holds none.
pub open spec fn last_component(name: Seq<char>) -> Seq<char>
    decreases name.len(),
{
    let b = first_hit(name, '/');
    if b < name.len() {
        last_component(name.skip(b as int + 1))
    } else {
        name
    }
}

/// The base name under which an enumeration reports a file: the final path
/// component with the `.ext` suffix stripped.
pub open spec fn base_name(name: Seq<char>, ext: Seq<char>) -> Seq<char> {
    let comp = last_component(name);
    if comp.len() >= ext.len() + 1 {
        comp.take(comp.len() - ext.len() - 1)
    } else {
        Seq::empty()
    }
}

/// A name without separators is its own final component.
pub proof fn lemma_last_component_plain(name: Seq<char>)
    requires
        forall|i: int| 0 <= i < name.len() ==> name[i] != '/',
    ensures
        last_component(name) == name,
{
    lemma_first_hit_at(name, '/', name.len() as int);
}

/// The final component is what follows the last separator.
pub proof fn lemma_last_component_at(name: Seq<char>, j: int)
    requires
        0 <= j < name.len(),
        name[j] == '/',
        forall|i: int| j < i < name.len() ==> name[i] != '/',
    ensures
        last_component(name) == name.skip(j + 1),
    decreases name.len(),
{
    lemma_first_hit(name, '/');
    let b = first_hit(name, '/');
    assert(b <= j);
    let tail = name.skip(b as int + 1);
    if b as int == j {
        assert forall|i: int| 0 <= i < tail.len() implies tail[i] != '/' by {
            assert(tail[i] == name[b + 1 + i]);
        }
        lemma_last_component_plain(tail);
        assert(tail =~= name.skip(j + 1));
    } else {
        assert(tail[j - b - 1] == name[j]);
        assert forall|i: int| j - b - 1 < i < tail.len() implies tail[i] != '/' by {
            assert(tail[i] == name[b + 1 + i]);
        }
        lemma_last_component_at(tail, j - b - 1);
        assert(tail.skip(j - b) =~= name.skip(j + 1));
    }
}

/// The predicate selecting the pair of `key` in an association sequence.
pub open spec fn pair_key_pred(key: Seq<char>) -> spec_fn((Seq<char>, Seq<char>)) -> bool {
    |pr: (Seq<char>, Seq<char>)| pr.0 == key
}

/// Sets `key` in an association sequence: replaces the value of an existing
/// pair in place, appends a new pair otherwise.
pub open spec fn assoc_set(
    acc: Seq<(Seq<char>, Seq<char>)>,
    key: Seq<char>,
    val: Seq<char>,
) -> Seq<(Seq<char>, Seq<char>)> {
    let f = first_where(acc, pair_key_pred(key));
    if f >= 0 {
        acc.update(f, (key, val))
    } else {
        acc.push((key, val))
    }
}

/// One enumeration step: a matching record sets its base name in the
/// accumulated mapping; any other record leaves it alone.
pub open spec fn collect_step(
    acc: Seq<(Seq<char>, Seq<char>)>,
    r: FileRec,
    app: Seq<char>,
    sub: Seq<char>,
    ext: Seq<char>,
) -> Seq<(Seq<char>, Seq<char>)> {
    if rec_matches(r, app, sub, ext) {
        assoc_set(acc, base_name(r.1, ext), r.2)
    } else {
        acc
    }
}

/// The enumeration result accumulated over `m` in storage order, starting
/// from `acc`. A later record with a duplicate base name overwrites the value
/// of the earlier pair; which one wins follows the record order alone.
pub open spec fn collect_into(
    m: Seq<FileRec>,
    app: Seq<char>,
    sub: Seq<char>,
    ext: Seq<char>,
    acc: Seq<(Seq<char>, Seq<char>)>,
) -> Seq<(Seq<char>, Seq<char>)>
    decreases m.len(),
{
    if m.len() == 0 {
        acc
    } else {
        collect_into(m.drop_first(), app, sub, ext, collect_step(acc, m[0], app, sub, ext))
    }
}

/// The (base name, content) mapping that an enumeration of `(app, sub, ext)`
/// yields.
pub open spec fn listing(
    m: Seq<FileRec>,
    app: Seq<char>,
    sub: Seq<char>,
    ext: Seq<char>,
) -> Seq<(Seq<char>, Seq<char>)> {
    collect_into(m, app, sub, ext, Seq::empty())
}

/// Processing one more record at the end applies one more step.
pub proof fn lemma_collect_snoc(
    m: Seq<FileRec>,
    r: FileRec,
    app: Seq<char>,
    sub: Seq<char>,
    ext: Seq<char>,
    acc: Seq<(Seq<char>, Seq<char>)>,
)
    ensures
        collect_into(m.push(r), app, sub, ext, acc) == collect_step(
            collect_into(m, app, sub, ext, acc),
            r,
            app,
            sub,
            ext,
        ),
    decreases m.len(),
{
    if m.len() == 0 {
        assert(m.push(r)[0] == r);
        assert(m.push(r).drop_first() =~= Seq::<FileRec>::empty());
        assert(collect_into(m.push(r), app, sub, ext, acc) == collect_into(
            Seq::<FileRec>::empty(),
            app,
            sub,
            ext,
            collect_step(acc, r, app, sub, ext),
        ));
        assert(collect_into(Seq::<FileRec>::empty(), app, sub, ext, collect_step(acc, r, app, sub, ext))
            == collect_step(acc, r, app, sub, ext));
        assert(collect_into(m, app, sub, ext, acc) == acc);
    } else {
        assert(m.push(r)[0] == m[0]);
        assert(m.push(r).drop_first() =~= m.drop_first().push(r));
        lemma_collect_snoc(m.drop_first(), r, app, sub, ext, collect_step(acc, m[0], app, sub, ext));
        assert(collect_into(m.push(r), app, sub, ext, acc) == collect_into(
            m.drop_first().push(r),
            app,
            sub,
            ext,
            collect_step(acc, m[0], app, sub, ext),
        ));
        assert(collect_into(m, app, sub, ext, acc) == collect_into(
            m.drop_first(),
            app,
            sub,
            ext,
            collect_step(acc, m[0], app, sub, ext),
        ));
    }
}

/// The glob pattern text that an enumeration builds, relative to the
/// namespace directory: `sub/**/*.ext`, with the sub-path omitted when it is
/// empty.
pub open spec fn listing_pattern(sub: Seq<char>, ext: Seq<char>) -> Seq<char> {
    if sub.len() == 0 {
        seq!['*', '*', '/', '*', '.'] + ext
    } else {
        sub + seq!['/', '*', '*', '/', '*', '.'] + ext
    }
}

/// The model after removing every file of `app` whose name ends in `.ext`.
pub open spec fn purge_effect(m: Seq<FileRec>, app: Seq<char>, ext: Seq<char>) -> Seq<FileRec>
    decreases m.len(),
{
    if m.len() == 0 {
        m
    } else {
        (if m[0].0 == app && has_ext(m[0].1, ext) {
            Seq::<FileRec>::empty()
        } else {
            seq![m[0]]
        }) + purge_effect(m.drop_first(), app, ext)
    }
}

/// Processing one more record at the end keeps or drops just that record.
pub proof fn lemma_purge_snoc(m: Seq<FileRec>, r: FileRec, app: Seq<char>, ext: Seq<char>)
    ensures
        purge_effect(m.push(r), app, ext) == purge_effect(m, app, ext) + (if r.0 == app
            && has_ext(r.1, ext) {
            Seq::<FileRec>::empty()
        } else {
            seq![r]
        }),
    decreases m.len(),
{
    let tailpiece = if r.0 == app && has_ext(r.1, ext) {
        Seq::<FileRec>::empty()
    } else {
        seq![r]
    };
    if m.len() == 0 {
        assert(m.push(r)[0] == r);
        assert(m.push(r).drop_first() =~= Seq::<FileRec>::empty());
        assert(purge_effect(Seq::<FileRec>::empty(), app, ext) == Seq::<FileRec>::empty());
        assert(purge_effect(m.push(r), app, ext) =~= purge_effect(m, app, ext) + tailpiece);
    } else {
        assert(m.push(r)[0] == m[0]);
        assert(m.push(r).drop_first() =~= m.drop_first().push(r));
        lemma_purge_snoc(m.drop_first(), r, app, ext);
        assert(purge_effect(m.push(r), app, ext) =~= purge_effect(m, app, ext) + tailpiece);
    }
}

/// Every record that a purge keeps stands somewhere in the model it purged.
pub proof fn lemma_purge_contains(m: Seq<FileRec>, app: Seq<char>, ext: Seq<char>)
    ensures
        forall|k: int|
            0 <= k < purge_effect(m, app, ext).len() ==> exists|i: int|
                0 <= i < m.len() && #[trigger] purge_effect(m, app, ext)[k] == m[i],
    decreases m.len(),
{
    if m.len() > 0 {
        lemma_purge_contains(m.drop_first(), app, ext);
        let out = purge_effect(m, app, ext);
        let rest = purge_effect(m.drop_first(), app, ext);
        let kept = if m[0].0 == app && has_ext(m[0].1, ext) {
            0int
        } else {
            1int
        };
        assert forall|k: int| 0 <= k < out.len() implies exists|i: int|
            0 <= i < m.len() && #[trigger] out[k] == m[i] by {
            if k < kept {
                assert(out[k] == m[0]);
            } else {
                assert(out[k] == rest[k - kept]);
                let i0 = choose|i: int| 0 <= i < m.drop_first().len() && rest[k - kept]
                    == m.drop_first()[i];
                assert(m.drop_first()[i0] == m[i0 + 1]);
                assert(out[k] == m[i0 + 1]);
            }
        }
    }
}

/// A purge preserves well-formedness.
pub proof fn lemma_purge_wf(m: Seq<FileRec>, app: Seq<char>, ext: Seq<char>)
    requires
        wf_recs(m),
    ensures
        wf_recs(purge_effect(m, app, ext)),
    decreases m.len(),
{
    if m.len() > 0 {
        assert forall|i: int, j: int|
            0 <= i < m.drop_first().len() && 0 <= j < m.drop_first().len() && i != j implies
            !same_key(#[trigger] m.drop_first()[i], #[trigger] m.drop_first()[j]) by {
            assert(m.drop_first()[i] == m[i + 1] && m.drop_first()[j] == m[j + 1]);
        }
        lemma_purge_wf(m.drop_first(), app, ext);
        lemma_purge_contains(m.drop_first(), app, ext);
        let out = purge_effect(m, app, ext);
        let rest = purge_effect(m.drop_first(), app, ext);
        let kept = if m[0].0 == app && has_ext(m[0].1, ext) {
            0int
        } else {
            1int
        };
        assert forall|i: int, j: int|
            0 <= i < out.len() && 0 <= j < out.len() && i != j implies !same_key(
            #[trigger] out[i],
            #[trigger] out[j],
        ) by {
            if i >= kept && j >= kept {
                assert(out[i] == rest[i - kept] && out[j] == rest[j - kept]);
            } else {
                let a = if i < kept {
                    j
                } else {
                    i
                };
                assert(out[a] == rest[a - kept]);
                let i0 = choose|w: int| 0 <= w < m.drop_first().len() && rest[a - kept]
                    == m.drop_first()[w];
                assert(m.drop_first()[i0] == m[i0 + 1]);
                assert(!same_key(m[0], m[i0 + 1]));
                assert(out[if i < kept { i } else { j }] == m[0]);
            }
        }
    }
}

} // verus!
