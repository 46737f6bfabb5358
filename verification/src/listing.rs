//! The bulk enumerator: listing every file with a given extension under a
//! namespace (optionally within a sub-path) as (base name, content) pairs.
//!
//! A duplicate base name across sub-directories overwrites an earlier pair's
//! value; which file wins follows the storage order of the walk alone, an
//! accepted ambiguity of the format. A missing namespace yields an empty
//! mapping, not an error; only an unparseable matching pattern fails.

use vstd::prelude::*;

use crate::error::PrefError;
use crate::model::{assoc_set, base_name, collect_into, collect_step, first_where, in_sub,
    last_component, lemma_collect_snoc, lemma_first_where_at, lemma_last_component_at,
    lemma_last_component_plain, listing, listing_pattern, pair_key_pred, rec_matches};
use crate::platform::{pattern_ok, pattern_parses};
use crate::store::PrefStore;
use crate::text::{str_ends_with, str_equal, str_starts_with};

verus! {

/// The base name under which a matched file is reported: its final path
/// component with the `.ext` suffix stripped.
fn base_name_exec(name: &str, ext: &str) -> (r: String)
    ensures
        r@ == base_name(name@, ext@),
{
    let n = name.unicode_len();
    let mut j: usize = 0;
    let mut k: usize = 0;
    while k < n
        invariant
            n == name@.len(),
            0 <= j <= k <= n,
            j > 0 ==> name@[j - 1] == '/',
            forall|t: int| j <= t < k ==> name@[t] != '/',
        decreases n - k,
    {
        if name.get_char(k) == '/' {
            j = k + 1;
        }
        k = k + 1;
    }
    proof {
        if j > 0 {
            lemma_last_component_at(name@, j - 1);
        } else {
            lemma_last_component_plain(name@);
        }
        assert(last_component(name@) =~= name@.subrange(j as int, n as int));
    }
    let comp = name.substring_char(j, n);
    let c = comp.unicode_len();
    let m = ext.unicode_len();
    if c > m {
        let r = comp.substring_char(0, c - m - 1).to_owned();
        proof {
            assert(r@ =~= base_name(name@, ext@));
        }
        r
    } else {
        proof {
            assert(base_name(name@, ext@) =~= Seq::<char>::empty());
        }
        String::new()
    }
}

/// Index of the pair carrying `key`, if the mapping already holds one.
fn find_pair(out: &Vec<(String, String)>, key: &str) -> (r: Option<usize>)
    ensures
        ({
            let f = first_where(out.deep_view(), pair_key_pred(key@));
            match r {
                Some(j) => f == j as int && j < out@.len(),
                None => f == -1,
            }
        }),
{
    let ghost a = out.deep_view();
    let ghost p = pair_key_pred(key@);
    let n = out.len();
    let mut j: usize = 0;
    while j < n
        invariant
            n == out@.len(),
            a == out.deep_view(),
            p == pair_key_pred(key@),
            0 <= j <= n,
            forall|t: int| 0 <= t < j ==> !p(#[trigger] a[t]),
        decreases n - j,
    {
        if str_equal(out[j].0.as_str(), key) {
            proof {
                assert(a[j as int] == (out@[j as int].0@, out@[j as int].1@));
                assert(p(a[j as int]));
                lemma_first_where_at(a, p, j as int);
            }
            return Some(j);
        }
        proof {
            assert(a[j as int] == (out@[j as int].0@, out@[j as int].1@));
            assert(!p(a[j as int]));
        }
        j = j + 1;
    }
    proof {
        lemma_first_where_at(a, p, n as int);
    }
    None
}

/// Lists every file of `app_name` within `sub_path` (the whole namespace
/// when `sub_path` is empty) whose name ends in `.file_extension`, as a
/// mapping from base name to content. A duplicate base name overwrites an
/// earlier pair's value, the storage order of the walk deciding which wins.
/// Fails only when the extension/sub-path combination yields an unparseable
/// matching pattern.
pub fn getallcustomwithin(
    store: &PrefStore,
    app_name: &str,
    sub_path: &str,
    file_extension: &str,
) -> (r: Result<Vec<(String, String)>, PrefError>)
    ensures
        ({
            let pat = listing_pattern(sub_path@, file_extension@);
            if pattern_ok(pat) {
                r matches Ok(v) && v.deep_view() == listing(
                    store.recs(),
                    app_name@,
                    sub_path@,
                    file_extension@,
                )
            } else {
                r == Err::<Vec<(String, String)>, PrefError>(PrefError::PatternError)
            }
        }),
{
    let pattern = if sub_path.is_empty() {
        "**/*.".to_owned().concat(file_extension)
    } else {
        sub_path.to_owned().concat("/**/*.").concat(file_extension)
    };
    proof {
        reveal_strlit("**/*.");
        reveal_strlit("/**/*.");
        assert(pattern@ =~= listing_pattern(sub_path@, file_extension@));
    }
    if !pattern_parses(pattern.as_str()) {
        return Err(PrefError::PatternError);
    }
    let subpfx = sub_path.to_owned().concat("/");
    let dotted = ".".to_owned().concat(file_extension);
    proof {
        reveal_strlit("/");
        reveal_strlit(".");
        assert(subpfx@ =~= sub_path@ + seq!['/']);
        assert(dotted@ =~= seq!['.'] + file_extension@);
    }
    let ghost m = store.recs();
    let mut out: Vec<(String, String)> = Vec::new();
    let n = store.len();
    let mut i: usize = 0;
    proof {
        assert(out.deep_view() =~= Seq::<(Seq<char>, Seq<char>)>::empty());
        assert(m.take(0) =~= Seq::<crate::model::FileRec>::empty());
    }
    while i < n
        invariant
            n == m.len(),
            m == store.recs(),
            subpfx@ == sub_path@ + seq!['/'],
            dotted@ == seq!['.'] + file_extension@,
            0 <= i <= n,
            out.deep_view() == collect_into(
                m.take(i as int),
                app_name@,
                sub_path@,
                file_extension@,
                Seq::<(Seq<char>, Seq<char>)>::empty(),
            ),
        decreases n - i,
    {
        let (eapp, ename, econtent) = store.entry_at(i);
        let ghost rec = m[i as int];
        let ghost prev = out.deep_view();
        proof {
            assert(rec == (eapp@, ename@, econtent@));
            assert(m.take(i + 1) =~= m.take(i as int).push(rec));
            lemma_collect_snoc(
                m.take(i as int),
                rec,
                app_name@,
                sub_path@,
                file_extension@,
                Seq::<(Seq<char>, Seq<char>)>::empty(),
            );
        }
        let is_app = str_equal(eapp.as_str(), app_name);
        let is_within = sub_path.is_empty() || str_starts_with(ename.as_str(), subpfx.as_str());
        let is_ext = str_ends_with(ename.as_str(), dotted.as_str());
        if is_app && is_within && is_ext {
            proof {
                assert(in_sub(ename@, sub_path@));
                assert(rec_matches(rec, app_name@, sub_path@, file_extension@));
            }
            let base = base_name_exec(ename.as_str(), file_extension);
            let ghost basev = base@;
            match find_pair(&out, base.as_str()) {
                Some(j) => {
                    out[j] = (base, econtent);
                    proof {
                        assert(out.deep_view() =~= assoc_set(prev, basev, econtent@));
                    }
                },
                None => {
                    out.push((base, econtent));
                    proof {
                        assert(out.deep_view() =~= assoc_set(prev, basev, econtent@));
                    }
                },
            }
            proof {
                assert(out.deep_view() == collect_step(
                    prev,
                    rec,
                    app_name@,
                    sub_path@,
                    file_extension@,
                ));
            }
        } else {
            proof {
                assert(!rec_matches(rec, app_name@, sub_path@, file_extension@));
                assert(out.deep_view() == collect_step(
                    prev,
                    rec,
                    app_name@,
                    sub_path@,
                    file_extension@,
                ));
            }
        }
        i = i + 1;
    }
    proof {
        assert(m.take(n as int) =~= m);
    }
    Ok(out)
}

/// Lists every file of `app_name` whose name ends in `.file_extension`, as
/// (base name, content) pairs; a pattern failure yields no pairs.
pub fn getallcustom(store: &PrefStore, app_name: &str, file_extension: &str) -> (r: Vec<
    (String, String),
>)
    ensures
        ({
            let pat = listing_pattern(Seq::<char>::empty(), file_extension@);
            if pattern_ok(pat) {
                r.deep_view() == listing(
                    store.recs(),
                    app_name@,
                    Seq::<char>::empty(),
                    file_extension@,
                )
            } else {
                r.deep_view() == Seq::<(Seq<char>, Seq<char>)>::empty()
            }
        }),
{
    proof {
        reveal_strlit("");
        assert(""@ =~= Seq::<char>::empty());
    }
    match getallcustomwithin(store, app_name, "", file_extension) {
        Ok(v) => v,
        Err(_) => {
            let v: Vec<(String, String)> = Vec::new();
            proof {
                assert(v.deep_view() =~= Seq::<(Seq<char>, Seq<char>)>::empty());
            }
            v
        },
    }
}

/// Lists every scalar preference of `app_name`: all its `.txt` files, as
/// (base name, content) pairs.
pub fn getall(store: &PrefStore, app_name: &str) -> (r: Vec<(String, String)>)
    ensures
        ({
            let ext = seq!['t', 'x', 't'];
            let pat = listing_pattern(Seq::<char>::empty(), ext);
            if pattern_ok(pat) {
                r.deep_view() == listing(store.recs(), app_name@, Seq::<char>::empty(), ext)
            } else {
                r.deep_view() == Seq::<(Seq<char>, Seq<char>)>::empty()
            }
        }),
{
    proof {
        reveal_strlit("txt");
        assert("txt"@ =~= seq!['t', 'x', 't']);
    }
    getallcustom(store, app_name, "txt")
}

} // verus!
