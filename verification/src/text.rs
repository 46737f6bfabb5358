//! Text-level specifications and verified helpers: ASCII lower-casing,
//! suffix and prefix tests, and the newline-delimited line discipline shared
//! by the ring buffer and the line-oriented reads.

use vstd::prelude::*;

verus! {

/// The ASCII lower-case image of one character; any other character is
/// unchanged.
pub open spec fn lower_char(c: char) -> char {
    if 65 <= c as u32 && c as u32 <= 90 {
        ((c as u32 + 32) as u8) as char
    } else {
        c
    }
}

/// The character-wise ASCII lower-case image of a text.
pub open spec fn lower_seq(s: Seq<char>) -> Seq<char> {
    s.map_values(|c: char| lower_char(c))
}

/// Holds when `l` contains no newline, so that it can stand as one line of a
/// newline-delimited file.
pub open spec fn no_newline(l: Seq<char>) -> bool {
    forall|i: int| 0 <= i < l.len() ==> l[i] != '\n'
}

/// Holds when every element of `ls` is free of newlines.
pub open spec fn all_no_newline(ls: Seq<Seq<char>>) -> bool {
    forall|k: int| 0 <= k < ls.len() ==> no_newline(#[trigger] ls[k])
}

/// Index of the first occurrence of `c` in `s`, or `s.len()` if there is
/// none.
pub open spec fn first_hit(s: Seq<char>, c: char) -> nat
    decreases s.len(),
{
    if s.len() == 0 {
        0
    } else if s[0] == c {
        0
    } else {
        (1 + first_hit(s.drop_first(), c)) as nat
    }
}

/// The lines of `s`: the pieces between newlines, with no terminators kept. A
/// trailing newline produces no final empty line, and an empty text has no
/// lines at all, as when a file is read back line by line.
pub open spec fn split_lines(s: Seq<char>) -> Seq<Seq<char>>
    decreases s.len(),
{
    if s.len() == 0 {
        Seq::empty()
    } else {
        let b = first_hit(s, '\n');
        if b < s.len() {
            seq![s.take(b as int)] + split_lines(s.skip(b as int + 1))
        } else {
            seq![s]
        }
    }
}

/// The file content that persists the lines `ls`: each nonempty element in
/// order, each followed by one newline; empty elements leave no trace.
pub open spec fn joined_nonempty(ls: Seq<Seq<char>>) -> Seq<char>
    decreases ls.len(),
{
    if ls.len() == 0 {
        Seq::empty()
    } else {
        (if ls[0].len() > 0 {
            ls[0] + seq!['\n']
        } else {
            Seq::empty()
        }) + joined_nonempty(ls.drop_first())
    }
}

/// The subsequence of nonempty elements of `ls`, in order.
pub open spec fn drop_empty(ls: Seq<Seq<char>>) -> Seq<Seq<char>>
    decreases ls.len(),
{
    if ls.len() == 0 {
        Seq::empty()
    } else {
        (if ls[0].len() > 0 {
            seq![ls[0]]
        } else {
            Seq::empty()
        }) + drop_empty(ls.drop_first())
    }
}

pub proof fn lemma_first_hit(s: Seq<char>, c: char)
    ensures
        first_hit(s, c) <= s.len(),
        forall|i: int| 0 <= i < first_hit(s, c) ==> s[i] != c,
        first_hit(s, c) < s.len() ==> s[first_hit(s, c) as int] == c,
    decreases s.len(),
{
    if s.len() > 0 && s[0] != c {
        lemma_first_hit(s.drop_first(), c);
        assert forall|i: int| 0 <= i < first_hit(s, c) implies s[i] != c by {
            if i > 0 {
                assert(s.drop_first()[i - 1] == s[i]);
            }
        }
        if first_hit(s, c) < s.len() {
            assert(s.drop_first()[first_hit(s, c) as int - 1] == s[first_hit(s, c) as int]);
        }
    }
}

/// A sequence whose first `k` characters differ from `c`, with `c` (or the
/// end) at `k`, has its first hit exactly at `k`.
pub proof fn lemma_first_hit_at(t: Seq<char>, c: char, k: int)
    requires
        0 <= k <= t.len(),
        forall|i: int| 0 <= i < k ==> t[i] != c,
        k < t.len() ==> t[k] == c,
    ensures
        first_hit(t, c) == k,
    decreases t.len(),
{
    if t.len() > 0 && t[0] != c {
        assert forall|i: int| 0 <= i < k - 1 implies t.drop_first()[i] != c by {
            assert(t.drop_first()[i] == t[i + 1]);
        }
        lemma_first_hit_at(t.drop_first(), c, k - 1);
    }
}

/// Every line that `split_lines` yields is free of newlines.
pub proof fn lemma_split_lines_no_newline(s: Seq<char>)
    ensures
        all_no_newline(split_lines(s)),
    decreases s.len(),
{
    lemma_first_hit(s, '\n');
    if s.len() > 0 {
        let b = first_hit(s, '\n');
        if b < s.len() {
            lemma_split_lines_no_newline(s.skip(b as int + 1));
            assert forall|k: int| 0 <= k < split_lines(s).len() implies no_newline(
                #[trigger] split_lines(s)[k],
            ) by {
                if k > 0 {
                    assert(split_lines(s)[k] == split_lines(s.skip(b as int + 1))[k - 1]);
                }
            }
        }
    }
}

/// Splitting `x + "\n" + rest` peels off `x` as the first line, provided `x`
/// holds no newline of its own.
pub proof fn lemma_split_lines_peel(x: Seq<char>, rest: Seq<char>)
    requires
        no_newline(x),
    ensures
        split_lines(x + seq!['\n'] + rest) == seq![x] + split_lines(rest),
{
    let s = x + seq!['\n'] + rest;
    assert(s.len() > 0);
    lemma_first_hit_at(s, '\n', x.len() as int);
    assert(s.take(x.len() as int) =~= x);
    assert(s.skip(x.len() as int + 1) =~= rest);
}

/// Round trip of the line discipline: a file written as the newline-joined
/// nonempty elements of `ls` reads back as exactly those elements, provided
/// no element holds an embedded newline.
pub proof fn lemma_lines_round_trip(ls: Seq<Seq<char>>)
    requires
        all_no_newline(ls),
    ensures
        split_lines(joined_nonempty(ls)) == drop_empty(ls),
    decreases ls.len(),
{
    if ls.len() > 0 {
        assert forall|k: int| 0 <= k < ls.drop_first().len() implies no_newline(
            #[trigger] ls.drop_first()[k],
        ) by {
            assert(ls.drop_first()[k] == ls[k + 1]);
        }
        lemma_lines_round_trip(ls.drop_first());
        if ls[0].len() > 0 {
            assert(joined_nonempty(ls) =~= ls[0] + seq!['\n'] + joined_nonempty(ls.drop_first()));
            lemma_split_lines_peel(ls[0], joined_nonempty(ls.drop_first()));
            assert(drop_empty(ls) =~= seq![ls[0]] + drop_empty(ls.drop_first()));
        } else {
            assert(joined_nonempty(ls) =~= joined_nonempty(ls.drop_first()));
            assert(drop_empty(ls) =~= drop_empty(ls.drop_first()));
        }
    }
}

/// Appending one element at the end extends the joined content at the end.
pub proof fn lemma_joined_nonempty_snoc(ls: Seq<Seq<char>>, x: Seq<char>)
    ensures
        joined_nonempty(ls.push(x)) == joined_nonempty(ls) + (if x.len() > 0 {
            x + seq!['\n']
        } else {
            Seq::<char>::empty()
        }),
    decreases ls.len(),
{
    let tailpiece = if x.len() > 0 {
        x + seq!['\n']
    } else {
        Seq::<char>::empty()
    };
    if ls.len() == 0 {
        assert(ls.push(x)[0] == x);
        assert(ls.push(x).drop_first() =~= Seq::<Seq<char>>::empty());
        assert(joined_nonempty(Seq::<Seq<char>>::empty()) == Seq::<char>::empty());
        assert(joined_nonempty(ls) == Seq::<char>::empty());
        assert(joined_nonempty(ls.push(x)) =~= joined_nonempty(ls) + tailpiece);
    } else {
        let head = if ls[0].len() > 0 {
            ls[0] + seq!['\n']
        } else {
            Seq::<char>::empty()
        };
        assert(ls.push(x)[0] == ls[0]);
        assert(ls.push(x).drop_first() =~= ls.drop_first().push(x));
        lemma_joined_nonempty_snoc(ls.drop_first(), x);
        assert(joined_nonempty(ls.push(x)) == head + joined_nonempty(ls.drop_first().push(x)));
        assert(joined_nonempty(ls) == head + joined_nonempty(ls.drop_first()));
        assert(joined_nonempty(ls.push(x)) =~= joined_nonempty(ls) + tailpiece);
    }
}

/// Dropping the empty elements never lengthens a sequence.
pub proof fn lemma_drop_empty_len(ls: Seq<Seq<char>>)
    ensures
        drop_empty(ls).len() <= ls.len(),
    decreases ls.len(),
{
    if ls.len() > 0 {
        lemma_drop_empty_len(ls.drop_first());
    }
}

/// Relies on `String::push`: it appends exactly the one given character.
#[verifier::external_body]
pub(crate) fn push_char(s: &mut String, c: char)
    ensures
        final(s)@ == old(s)@.push(c),
{
    s.push(c);
}

/// The ASCII lower-case image of one character, executably.
fn lower_char_exec(c: char) -> (r: char)
    ensures
        r == lower_char(c),
{
    let u = c as u32;
    if 65 <= u && u <= 90 {
        ((u + 32) as u8) as char
    } else {
        c
    }
}

/// The character-wise ASCII lower-case image of a text.
pub fn to_lower(s: &str) -> (r: String)
    ensures
        r@ == lower_seq(s@),
{
    let n = s.unicode_len();
    let mut out = String::new();
    let mut i: usize = 0;
    while i < n
        invariant
            n == s@.len(),
            0 <= i <= n,
            out@ == lower_seq(s@.take(i as int)),
        decreases n - i,
    {
        let c = s.get_char(i);
        let lc = lower_char_exec(c);
        push_char(&mut out, lc);
        proof {
            assert(lower_seq(s@.take(i + 1)) =~= lower_seq(s@.take(i as int)).push(lower_char(c)));
        }
        i = i + 1;
    }
    proof {
        assert(s@.take(n as int) =~= s@);
    }
    out
}

/// Whether `suffix` ends `s`.
pub fn str_ends_with(s: &str, suffix: &str) -> (r: bool)
    ensures
        r == suffix@.is_suffix_of(s@),
{
    let n = s.unicode_len();
    let m = suffix.unicode_len();
    if m > n {
        return false;
    }
    let mut i: usize = 0;
    while i < m
        invariant
            n == s@.len(),
            m == suffix@.len(),
            m <= n,
            0 <= i <= m,
            forall|j: int| 0 <= j < i ==> s@[n - m + j] == suffix@[j],
        decreases m - i,
    {
        if s.get_char(n - m + i) != suffix.get_char(i) {
            assert(!suffix@.is_suffix_of(s@));
            return false;
        }
        i = i + 1;
    }
    assert(suffix@ =~= s@.subrange(n as int - m as int, n as int));
    true
}

/// Whether `prefix` begins `s`.
pub fn str_starts_with(s: &str, prefix: &str) -> (r: bool)
    ensures
        r == prefix@.is_prefix_of(s@),
{
    let n = s.unicode_len();
    let m = prefix.unicode_len();
    if m > n {
        return false;
    }
    let mut i: usize = 0;
    while i < m
        invariant
            n == s@.len(),
            m == prefix@.len(),
            m <= n,
            0 <= i <= m,
            forall|j: int| 0 <= j < i ==> s@[j] == prefix@[j],
        decreases m - i,
    {
        if s.get_char(i) != prefix.get_char(i) {
            assert(!prefix@.is_prefix_of(s@));
            return false;
        }
        i = i + 1;
    }
    assert(prefix@ =~= s@.subrange(0, m as int));
    true
}

/// Whether two texts are equal character for character.
pub fn str_equal(a: &str, b: &str) -> (r: bool)
    ensures
        r == (a@ == b@),
{
    let n = a.unicode_len();
    let m = b.unicode_len();
    if n != m {
        return false;
    }
    let mut i: usize = 0;
    while i < n
        invariant
            n == a@.len(),
            n == b@.len(),
            0 <= i <= n,
            forall|j: int| 0 <= j < i ==> a@[j] == b@[j],
        decreases n - i,
    {
        if a.get_char(i) != b.get_char(i) {
            return false;
        }
        i = i + 1;
    }
    assert(a@ =~= b@);
    true
}

/// The lines of `s`, executably: what reading a file of this content line by
/// line yields.
pub fn split_to_lines(s: &str) -> (r: Vec<String>)
    ensures
        r.deep_view() == split_lines(s@),
{
    let n = s.unicode_len();
    let mut out: Vec<String> = Vec::new();
    let mut pos: usize = 0;
    proof {
        assert(out.deep_view() =~= Seq::<Seq<char>>::empty());
        assert(s@.skip(0) =~= s@);
        assert(split_lines(s@) =~= out.deep_view() + split_lines(s@.skip(0)));
    }
    while pos < n
        invariant
            n == s@.len(),
            0 <= pos <= n,
            split_lines(s@) == out.deep_view() + split_lines(s@.skip(pos as int)),
        decreases n - pos,
    {
        let mut b: usize = pos;
        while b < n && s.get_char(b) != '\n'
            invariant
                n == s@.len(),
                pos <= b <= n,
                forall|j: int| pos <= j < b ==> s@[j] != '\n',
            decreases n - b,
        {
            b = b + 1;
        }
        let piece = s.substring_char(pos, b).to_owned();
        proof {
            let tail = s@.skip(pos as int);
            assert forall|i: int| 0 <= i < b - pos implies tail[i] != '\n' by {
                assert(tail[i] == s@[pos + i]);
            }
            if b < n {
                assert(tail[b - pos] == s@[b as int]);
            }
            lemma_first_hit_at(tail, '\n', b - pos);
            assert(piece@ =~= tail.take(b - pos));
            if b < n {
                assert(tail.skip(b - pos + 1) =~= s@.skip(b + 1));
                assert(split_lines(tail) == seq![piece@] + split_lines(s@.skip(b + 1)));
            } else {
                assert(piece@ =~= tail);
                assert(split_lines(tail) == seq![piece@]);
                assert(split_lines(s@.skip(n as int)) =~= Seq::<Seq<char>>::empty());
            }
        }
        out.push(piece);
        proof {
            assert(out.deep_view() =~= out.deep_view().drop_last().push(piece@));
        }
        if b < n {
            pos = b + 1;
        } else {
            pos = n;
        }
        proof {
            assert(split_lines(s@) =~= out.deep_view() + split_lines(s@.skip(pos as int)));
        }
    }
    proof {
        assert(s@.skip(n as int) =~= Seq::<char>::empty());
        assert(split_lines(s@) =~= out.deep_view());
    }
    out
}

} // verus!
