//! The ring buffer: a bounded, ordered sequence of strings persisted as one
//! newline-delimited custom file, oldest entry first. A push appends at the
//! end and evicts from the front once the declared capacity is exceeded;
//! empty strings are dropped when the buffer is persisted.
//!
//! The persisted file is rebuilt whole on every push (clear, create empty,
//! append each entry), so after any completed push the file never holds more
//! lines than the capacity — provided no entry carries an embedded newline,
//! which the plain-text format cannot represent.

use vstd::prelude::*;

use crate::error::PrefError;
use crate::model::{content_or_empty, lemma_remove_lookup, lemma_save_lookup, lemma_save_save,
    lookup, remove_effect, save_effect};
use crate::store::{appendcustomnewline, clearcustom, initcustomfile, opencustomperlinetovec,
    PrefStore};
use crate::text::{joined_nonempty, lemma_joined_nonempty_snoc, split_lines};

verus! {

/// The last `cap` elements of `ls` — all of them if `cap` exceeds the
/// length, none if `cap` is not positive: what eviction from the front of a
/// buffer bounded by `cap` leaves.
pub open spec fn evicted(ls: Seq<Seq<char>>, cap: int) -> Seq<Seq<char>> {
    let k = if cap < 0 {
        0
    } else {
        cap
    };
    if ls.len() <= k {
        ls
    } else {
        ls.skip(ls.len() - k)
    }
}

/// The persisted buffer `(app_name, file_name)`: the lines of the file,
/// oldest first; an absent file is an empty buffer.
pub fn getbuffer(store: &PrefStore, app_name: &str, file_name: &str) -> (r: Vec<String>)
    ensures
        r.deep_view() == split_lines(content_or_empty(store.recs(), app_name@, file_name@)),
{
    match opencustomperlinetovec(store, app_name, file_name) {
        Ok(v) => v,
        Err(_) => {
            proof {
                assert(false);
            }
            Vec::new()
        },
    }
}

/// The most recently pushed entry of the buffer, or empty text if the buffer
/// is empty.
pub fn get_last_from_buffer(
    store: &PrefStore,
    app_name: &str,
    custom_filename_with_extension: &str,
) -> (r: String)
    ensures
        ({
            let lines = split_lines(
                content_or_empty(store.recs(), app_name@, custom_filename_with_extension@),
            );
            r@ == if lines.len() > 0 {
                lines.last()
            } else {
                Seq::<char>::empty()
            }
        }),
{
    let mut buf = getbuffer(store, app_name, custom_filename_with_extension);
    let ghost lines = buf.deep_view();
    match buf.pop() {
        Some(s) => {
            proof {
                assert(s@ == lines.last());
            }
            s
        },
        None => String::new(),
    }
}

/// One push into the in-memory image of the buffer `(app_name, filename)`:
/// the current lines with `string` appended, then evicted from the front
/// down to at most `n` entries.
#[allow(non_snake_case)]
pub fn saveStringtobuffer(
    store: &PrefStore,
    app_name: &str,
    string: String,
    n: i8,
    filename: &str,
) -> (r: Vec<String>)
    ensures
        r.deep_view() == evicted(
            split_lines(content_or_empty(store.recs(), app_name@, filename@)).push(string@),
            n as int,
        ),
{
    let mut ds = getbuffer(store, app_name, filename);
    let ghost svw = string@;
    ds.push(string);
    let cap: usize = if n <= 0 {
        0
    } else {
        n as usize
    };
    let ghost orig = ds.deep_view();
    proof {
        assert(orig =~= split_lines(content_or_empty(store.recs(), app_name@, filename@)).push(
            svw,
        ));
        assert(orig.skip(0) =~= orig);
    }
    while ds.len() > cap
        invariant
            cap == if n <= 0 {
                0int
            } else {
                n as int
            },
            ds.deep_view().len() == ds.len(),
            ds.deep_view().len() <= orig.len(),
            ds.deep_view() == orig.skip(orig.len() - ds.deep_view().len()),
            ds.deep_view().len() < orig.len() ==> ds.deep_view().len() >= cap,
        decreases ds.len(),
    {
        let ghost before = ds.deep_view();
        ds.remove(0);
        proof {
            assert(ds.deep_view() =~= before.skip(1));
            assert(ds.deep_view() =~= orig.skip(orig.len() - ds.deep_view().len()));
        }
    }
    proof {
        if orig.len() <= cap {
            assert(ds.deep_view() =~= orig);
            assert(ds.deep_view() =~= evicted(orig, n as int));
        } else {
            assert(ds.deep_view().len() == cap);
            assert(ds.deep_view() =~= evicted(orig, n as int));
        }
    }
    ds
}

/// Rewrites the buffer file to hold exactly the nonempty `strings`, one per
/// line in order: the file is cleared, recreated empty, and each nonempty
/// element appended with a newline terminator.
#[allow(non_snake_case)]
pub fn saveVecOfStrings(
    store: &mut PrefStore,
    app_name: &str,
    strings: Vec<String>,
    file_name: &str,
) -> (r: Result<(), PrefError>)
    requires
        old(store).wf(),
    ensures
        final(store).wf(),
        r is Ok,
        final(store).recs() == remove_effect(old(store).recs(), app_name@, file_name@).push(
            (app_name@, file_name@, joined_nonempty(strings.deep_view())),
        ),
{
    let ghost sv = strings.deep_view();
    clearcustom(store, app_name, file_name);
    let ghost m1 = store.recs();
    proof {
        lemma_remove_lookup(old(store).recs(), app_name@, file_name@);
        assert(lookup(m1, app_name@, file_name@) is None);
    }
    let _ = initcustomfile(store, app_name, file_name, "");
    proof {
        reveal_strlit("");
        assert(""@ =~= Seq::<char>::empty());
        assert(sv.take(0) =~= Seq::<Seq<char>>::empty());
        assert(joined_nonempty(sv.take(0)) == Seq::<char>::empty());
        assert(store.recs() == save_effect(m1, app_name@, file_name@, joined_nonempty(sv.take(0))));
    }
    let n = strings.len();
    let mut i: usize = 0;
    while i < n
        invariant
            old(store).wf(),
            store.wf(),
            m1 == remove_effect(old(store).recs(), app_name@, file_name@),
            lookup(m1, app_name@, file_name@) is None,
            sv == strings.deep_view(),
            n == strings@.len(),
            0 <= i <= n,
            store.recs() == save_effect(m1, app_name@, file_name@, joined_nonempty(
                sv.take(i as int),
            )),
        decreases n - i,
    {
        let ghost cur = joined_nonempty(sv.take(i as int));
        proof {
            assert(sv.take(i + 1) =~= sv.take(i as int).push(sv[i as int]));
            lemma_joined_nonempty_snoc(sv.take(i as int), sv[i as int]);
            assert(sv[i as int] == strings@[i as int]@);
        }
        if !strings[i].as_str().is_empty() {
            proof {
                lemma_save_lookup(m1, app_name@, file_name@, cur);
                assert(content_or_empty(store.recs(), app_name@, file_name@) == cur);
            }
            let appended = appendcustomnewline(store, app_name, file_name, strings[i].as_str());
            proof {
                assert(appended is Ok);
                lemma_save_save(
                    m1,
                    app_name@,
                    file_name@,
                    cur,
                    cur + strings@[i as int]@ + seq!['\n'],
                );
                assert(cur + strings@[i as int]@ + seq!['\n'] =~= cur + (strings@[i as int]@
                    + seq!['\n']));
                assert(joined_nonempty(sv.take(i + 1)) == cur + (strings@[i as int]@ + seq!['\n']));
            }
        } else {
            proof {
                assert(joined_nonempty(sv.take(i + 1)) =~= cur + Seq::<char>::empty());
                assert(joined_nonempty(sv.take(i + 1)) =~= cur);
            }
        }
        i = i + 1;
    }
    proof {
        assert(sv.take(n as int) =~= sv);
        assert(store.recs() == save_effect(m1, app_name@, file_name@, joined_nonempty(sv)));
        assert(store.recs() == m1.push((app_name@, file_name@, joined_nonempty(sv))));
    }
    Ok(())
}

/// Pushes `value` into the ring buffer file bounded by `buffersize`: reads
/// the current lines, appends `value`, discards from the front until at most
/// `buffersize` entries remain, and rewrites the file whole with the
/// nonempty entries, in order.
pub fn savebuffer(
    store: &mut PrefStore,
    app_name: &str,
    custom_filename_with_extension: &str,
    value: &str,
    buffersize: i8,
)
    requires
        old(store).wf(),
    ensures
        final(store).wf(),
        ({
            let m = old(store).recs();
            let kept = evicted(
                split_lines(content_or_empty(m, app_name@, custom_filename_with_extension@)).push(
                    value@,
                ),
                buffersize as int,
            );
            final(store).recs() == remove_effect(
                m,
                app_name@,
                custom_filename_with_extension@,
            ).push((app_name@, custom_filename_with_extension@, joined_nonempty(kept)))
        }),
{
    let vectos = saveStringtobuffer(
        store,
        app_name,
        value.to_owned(),
        buffersize,
        custom_filename_with_extension,
    );
    let _ = saveVecOfStrings(store, app_name, vectos, custom_filename_with_extension);
}

} // verus!
