//! The store itself: the scalar and custom file operations over the model.
//!
//! A [`PrefStore`] value models the directory tree beneath one user
//! configuration root: one entry per file, in insertion order, no two entries
//! naming the same (namespace, filename) pair. Every operation's effect on
//! the model is stated by the pure functions of [`crate::model`].

use vstd::prelude::*;

use crate::error::PrefError;
use crate::model::{
    content_or_empty, first_match, key_pred, lemma_first_where_at, lemma_purge_snoc,
    lemma_purge_wf, lemma_wf_remove, lemma_wf_save, listing_pattern, lookup, purge_effect,
    remove_effect, save_effect, wf_recs, FileRec,
};
use crate::paths::{default_name, scalar_name};
use crate::platform::{pattern_ok, pattern_parses};
use crate::text::{split_lines, split_to_lines, str_ends_with, str_equal};

verus! {

/// One file of the store: a namespace, a filename relative to the namespace
/// directory (possibly holding `/` separators), and the file's entire text.
struct Entry {
    app: String,
    name: String,
    content: String,
}

/// The records that a sequence of entries models.
spec fn recs_of(es: Seq<Entry>) -> Seq<FileRec> {
    es.map_values(|e: Entry| (e.app@, e.name@, e.content@))
}

/// The model of the directory tree beneath one user configuration root.
pub struct PrefStore {
    entries: Vec<Entry>,
}

impl PrefStore {
    /// The model's records: one (namespace, filename, content) triple per
    /// file, in storage order.
    pub closed spec fn recs(self) -> Seq<FileRec> {
        recs_of(self.entries@)
    }

    /// No two files share a (namespace, filename) pair.
    pub open spec fn wf(self) -> bool {
        wf_recs(self.recs())
    }

    /// A store with no files.
    pub fn new() -> (s: PrefStore)
        ensures
            s.recs() == Seq::<FileRec>::empty(),
            s.wf(),
    {
        let s = PrefStore { entries: Vec::new() };
        proof {
            assert(s.recs() =~= Seq::<FileRec>::empty());
        }
        s
    }

    /// How many files the store holds.
    pub fn len(&self) -> (n: usize)
        ensures
            n == self.recs().len(),
    {
        self.entries.len()
    }

    /// The (namespace, filename, content) of the file at `i`, in storage
    /// order.
    pub fn entry_at(&self, i: usize) -> (r: (String, String, String))
        requires
            i < self.recs().len(),
        ensures
            (r.0@, r.1@, r.2@) == self.recs()[i as int],
    {
        let e = &self.entries[i];
        (e.app.clone(), e.name.clone(), e.content.clone())
    }
}

/// Index of the entry for `(app, name)`, if present.
fn find_idx(entries: &Vec<Entry>, app: &str, name: &str) -> (r: Option<usize>)
    ensures
        ({
            let f = first_match(recs_of(entries@), app@, name@);
            match r {
                Some(i) => f == i as int && i < entries@.len(),
                None => f == -1,
            }
        }),
{
    let ghost m = recs_of(entries@);
    let ghost p = key_pred(app@, name@);
    let n = entries.len();
    let mut i: usize = 0;
    while i < n
        invariant
            n == entries@.len(),
            m == recs_of(entries@),
            p == key_pred(app@, name@),
            0 <= i <= n,
            forall|j: int| 0 <= j < i ==> !p(#[trigger] m[j]),
        decreases n - i,
    {
        let hit_app = str_equal(entries[i].app.as_str(), app);
        let hit_name = str_equal(entries[i].name.as_str(), name);
        if hit_app && hit_name {
            proof {
                assert(m[i as int] == (entries@[i as int].app@, entries@[i as int].name@,
                entries@[i as int].content@));
                assert(p(m[i as int]));
                lemma_first_where_at(m, p, i as int);
            }
            return Some(i);
        }
        proof {
            assert(m[i as int] == (entries@[i as int].app@, entries@[i as int].name@,
            entries@[i as int].content@));
            assert(!p(m[i as int]));
        }
        i = i + 1;
    }
    proof {
        lemma_first_where_at(m, p, n as int);
    }
    None
}

/// Creates or wholly overwrites the custom file named
/// `custom_filename_with_extension` under `app_name`, with `value` as its
/// entire content.
pub fn savecustom(
    store: &mut PrefStore,
    app_name: &str,
    custom_filename_with_extension: &str,
    value: &str,
) -> (r: Result<(), PrefError>)
    requires
        old(store).wf(),
    ensures
        final(store).recs() == save_effect(
            old(store).recs(),
            app_name@,
            custom_filename_with_extension@,
            value@,
        ),
        final(store).wf(),
        r is Ok,
{
    proof {
        lemma_wf_save(store.recs(), app_name@, custom_filename_with_extension@, value@);
    }
    let entry = Entry {
        app: app_name.to_owned(),
        name: custom_filename_with_extension.to_owned(),
        content: value.to_owned(),
    };
    match find_idx(&store.entries, app_name, custom_filename_with_extension) {
        Some(i) => {
            store.entries[i] = entry;
            proof {
                assert(store.recs() =~= save_effect(
                    old(store).recs(),
                    app_name@,
                    custom_filename_with_extension@,
                    value@,
                ));
            }
        },
        None => {
            store.entries.push(entry);
            proof {
                assert(store.recs() =~= save_effect(
                    old(store).recs(),
                    app_name@,
                    custom_filename_with_extension@,
                    value@,
                ));
            }
        },
    }
    Ok(())
}

/// Saves the scalar preference `key` for `app_name`: a whole-file write of
/// `value` under the derived lower-cased `.txt` filename.
pub fn savepreference(store: &mut PrefStore, app_name: &str, key: &str, value: &str) -> (r: Result<
    (),
    PrefError,
>)
    requires
        old(store).wf(),
    ensures
        final(store).recs() == save_effect(
            old(store).recs(),
            app_name@,
            scalar_name(key@),
            value@,
        ),
        final(store).wf(),
        r is Ok,
{
    let name = default_name(key.to_owned());
    savecustom(store, app_name, name.as_str(), value)
}

/// Creates the custom file with `value` as its content, but only if it does
/// not exist yet: an existing file is left untouched and reported as
/// `AlreadyExists`.
pub fn initcustomfile(
    store: &mut PrefStore,
    app_name: &str,
    custom_filename_with_extension: &str,
    value: &str,
) -> (r: Result<(), PrefError>)
    requires
        old(store).wf(),
    ensures
        final(store).wf(),
        ({
            let m = old(store).recs();
            if lookup(m, app_name@, custom_filename_with_extension@) is Some {
                r == Err::<(), PrefError>(PrefError::AlreadyExists) && final(store).recs() == m
            } else {
                r is Ok && final(store).recs() == save_effect(
                    m,
                    app_name@,
                    custom_filename_with_extension@,
                    value@,
                )
            }
        }),
{
    match find_idx(&store.entries, app_name, custom_filename_with_extension) {
        Some(_) => Err(PrefError::AlreadyExists),
        None => savecustom(store, app_name, custom_filename_with_extension, value),
    }
}

/// Appends `value` at the end of the custom file, creating the file first if
/// it is absent.
pub fn appendcustom(
    store: &mut PrefStore,
    app_name: &str,
    custom_filename_with_extension: &str,
    value: &str,
) -> (r: Result<(), PrefError>)
    requires
        old(store).wf(),
    ensures
        final(store).recs() == save_effect(
            old(store).recs(),
            app_name@,
            custom_filename_with_extension@,
            content_or_empty(old(store).recs(), app_name@, custom_filename_with_extension@)
                + value@,
        ),
        final(store).wf(),
        r is Ok,
{
    let prior = match find_idx(&store.entries, app_name, custom_filename_with_extension) {
        Some(i) => store.entries[i].content.clone(),
        None => String::new(),
    };
    let appended = prior.concat(value);
    savecustom(store, app_name, custom_filename_with_extension, appended.as_str())
}

/// Appends `value` and then one newline at the end of the custom file,
/// creating the file first if it is absent.
pub fn appendcustomnewline(
    store: &mut PrefStore,
    app_name: &str,
    custom_filename_with_extension: &str,
    value: &str,
) -> (r: Result<(), PrefError>)
    requires
        old(store).wf(),
    ensures
        final(store).recs() == save_effect(
            old(store).recs(),
            app_name@,
            custom_filename_with_extension@,
            content_or_empty(old(store).recs(), app_name@, custom_filename_with_extension@)
                + value@ + seq!['\n'],
        ),
        final(store).wf(),
        r is Ok,
{
    let prior = match find_idx(&store.entries, app_name, custom_filename_with_extension) {
        Some(i) => store.entries[i].content.clone(),
        None => String::new(),
    };
    let appended = prior.concat(value).concat("\n");
    proof {
        reveal_strlit("\n");
        assert(appended@ =~= content_or_empty(
            old(store).recs(),
            app_name@,
            custom_filename_with_extension@,
        ) + value@ + seq!['\n']);
    }
    savecustom(store, app_name, custom_filename_with_extension, appended.as_str())
}

/// Reads the whole content of the custom file `(app_name, key)`. A miss
/// initializes: `defvalue` is persisted and returned, so a first read seeds
/// the entry (read-through initialization). An empty `key` reads as empty
/// text and stores nothing.
pub fn getcustom(store: &mut PrefStore, app_name: &str, key: &str, defvalue: &str) -> (r: Result<
    String,
    PrefError,
>)
    requires
        old(store).wf(),
    ensures
        final(store).wf(),
        ({
            let m = old(store).recs();
            if key@.len() == 0 {
                final(store).recs() == m && (r matches Ok(s) && s@ == Seq::<char>::empty())
            } else {
                match lookup(m, app_name@, key@) {
                    Some(c) => final(store).recs() == m && (r matches Ok(s) && s@ == c),
                    None => final(store).recs() == save_effect(m, app_name@, key@, defvalue@) && (r
                        matches Ok(s) && s@ == defvalue@),
                }
            }
        }),
{
    if key.is_empty() {
        return Ok(String::new());
    }
    match find_idx(&store.entries, app_name, key) {
        Some(i) => Ok(store.entries[i].content.clone()),
        None => {
            let _ = savecustom(store, app_name, key, defvalue);
            Ok(defvalue.to_owned())
        },
    }
}

/// Retrieves the scalar preference `key` for `app_name`, or persists and
/// returns `defvalue` when it was never saved.
pub fn getpreference(store: &mut PrefStore, app_name: &str, key: &str, defvalue: &str) -> (r:
    String)
    requires
        old(store).wf(),
    ensures
        final(store).wf(),
        ({
            let m = old(store).recs();
            let name = scalar_name(key@);
            match lookup(m, app_name@, name) {
                Some(c) => final(store).recs() == m && r@ == c,
                None => final(store).recs() == save_effect(m, app_name@, name, defvalue@) && r@
                    == defvalue@,
            }
        }),
{
    let name = default_name(key.to_owned());
    proof {
        assert(scalar_name(key@).len() == key@.len() + 4);
    }
    let got = getcustom(store, app_name, name.as_str(), defvalue);
    match got {
        Ok(s) => s,
        Err(_) => {
            proof {
                assert(false);
            }
            defvalue.to_owned()
        },
    }
}

/// Reads the scalar preference `key` if it is present; an absent entry reads
/// as empty text, and nothing is ever written.
pub fn getpreferencenodefault(store: &PrefStore, app_name: &str, key: &str) -> (r: Result<
    String,
    PrefError,
>)
    ensures
        r matches Ok(s) && s@ == content_or_empty(store.recs(), app_name@, scalar_name(key@)),
{
    let name = default_name(key.to_owned());
    match find_idx(&store.entries, app_name, name.as_str()) {
        Some(i) => Ok(store.entries[i].content.clone()),
        None => Ok(String::new()),
    }
}

/// Reads the custom file `(app_name, key)` split into its lines, with no
/// terminators kept; an absent file yields no lines.
pub fn opencustomperlinetovec(store: &PrefStore, app_name: &str, key: &str) -> (r: Result<
    Vec<String>,
    PrefError,
>)
    ensures
        r matches Ok(ls) && ls.deep_view() == split_lines(
            content_or_empty(store.recs(), app_name@, key@),
        ),
{
    let content = match find_idx(&store.entries, app_name, key) {
        Some(i) => store.entries[i].content.clone(),
        None => String::new(),
    };
    Ok(split_to_lines(content.as_str()))
}

/// Deletes the custom file if it is present; deleting an absent file is a
/// success too, so cleanup stays idempotent.
pub fn clearcustom(store: &mut PrefStore, app_name: &str, custom_filename_with_extension: &str)
    requires
        old(store).wf(),
    ensures
        final(store).recs() == remove_effect(
            old(store).recs(),
            app_name@,
            custom_filename_with_extension@,
        ),
        final(store).wf(),
{
    proof {
        lemma_wf_remove(store.recs(), app_name@, custom_filename_with_extension@);
    }
    match find_idx(&store.entries, app_name, custom_filename_with_extension) {
        Some(i) => {
            store.entries.remove(i);
            proof {
                assert(store.recs() =~= remove_effect(
                    old(store).recs(),
                    app_name@,
                    custom_filename_with_extension@,
                ));
            }
        },
        None => {},
    }
}

/// Removes the scalar preference `key` for `app_name`. Absence counts as
/// success here as well: clearing is idempotent uniformly across the scalar
/// and the custom variant.
pub fn clearpreference(store: &mut PrefStore, app_name: &str, key: &str) -> (r: Result<
    (),
    PrefError,
>)
    requires
        old(store).wf(),
    ensures
        final(store).recs() == remove_effect(old(store).recs(), app_name@, scalar_name(key@)),
        final(store).wf(),
        r is Ok,
{
    let name = default_name(key.to_owned());
    clearcustom(store, app_name, name.as_str());
    Ok(())
}

/// Removes every file of `app_name` whose name ends in `.file_extension`,
/// recursively through the namespace tree. Fails only when the extension
/// yields an unparseable matching pattern, leaving the store unchanged.
pub fn clearall(store: &mut PrefStore, app_name: &str, file_extension: &str) -> (r: Result<
    (),
    PrefError,
>)
    requires
        old(store).wf(),
    ensures
        final(store).wf(),
        ({
            let pat = listing_pattern(Seq::<char>::empty(), file_extension@);
            if pattern_ok(pat) {
                r is Ok && final(store).recs() == purge_effect(
                    old(store).recs(),
                    app_name@,
                    file_extension@,
                )
            } else {
                r == Err::<(), PrefError>(PrefError::PatternError) && final(store).recs() == old(
                    store,
                ).recs()
            }
        }),
{
    let pattern = "**/*.".to_owned().concat(file_extension);
    proof {
        reveal_strlit("**/*.");
        assert(pattern@ =~= listing_pattern(Seq::<char>::empty(), file_extension@));
    }
    if !pattern_parses(pattern.as_str()) {
        return Err(PrefError::PatternError);
    }
    let dotted = ".".to_owned().concat(file_extension);
    proof {
        reveal_strlit(".");
        assert(dotted@ =~= seq!['.'] + file_extension@);
    }
    let ghost m = store.recs();
    let mut kept: Vec<Entry> = Vec::new();
    let n = store.entries.len();
    let mut i: usize = 0;
    proof {
        assert(recs_of(kept@) =~= Seq::<FileRec>::empty());
        assert(m.take(0) =~= Seq::<FileRec>::empty());
    }
    while i < n
        invariant
            n == store.entries@.len(),
            m == store.recs(),
            dotted@ == seq!['.'] + file_extension@,
            0 <= i <= n,
            recs_of(kept@) == purge_effect(m.take(i as int), app_name@, file_extension@),
        decreases n - i,
    {
        let e = &store.entries[i];
        let same_app = str_equal(e.app.as_str(), app_name);
        let matches_ext = str_ends_with(e.name.as_str(), dotted.as_str());
        let ghost rec = m[i as int];
        proof {
            assert(rec == (e.app@, e.name@, e.content@));
            assert(m.take(i + 1) =~= m.take(i as int).push(rec));
            lemma_purge_snoc(m.take(i as int), rec, app_name@, file_extension@);
        }
        if !(same_app && matches_ext) {
            let copy = Entry { app: e.app.clone(), name: e.name.clone(), content: e.content.clone() };
            kept.push(copy);
            proof {
                assert(recs_of(kept@) =~= purge_effect(m.take(i + 1), app_name@, file_extension@));
            }
        } else {
            proof {
                assert(recs_of(kept@) =~= purge_effect(m.take(i + 1), app_name@, file_extension@));
            }
        }
        i = i + 1;
    }
    proof {
        assert(m.take(n as int) =~= m);
        lemma_purge_wf(m, app_name@, file_extension@);
    }
    store.entries = kept;
    Ok(())
}

} // verus!
