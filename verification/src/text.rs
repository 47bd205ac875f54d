//! Character-level text helpers with their mathematical meaning.

use vstd::prelude::*;

verus! {

/// Unicode `White_Space`, the property that `char::is_whitespace` tests.
pub open spec fn is_ws(c: char) -> bool {
    let v = c as u32;
    ||| 0x9 <= v <= 0xd
    ||| v == 0x20
    ||| v == 0x85
    ||| v == 0xa0
    ||| v == 0x1680
    ||| 0x2000 <= v <= 0x200a
    ||| v == 0x2028
    ||| v == 0x2029
    ||| v == 0x202f
    ||| v == 0x205f
    ||| v == 0x3000
}

/// Whether `c` is Unicode white space.
pub fn is_whitespace(c: char) -> (r: bool)
    ensures
        r == is_ws(c),
{
    let v = c as u32;
    (0x9 <= v && v <= 0xd) || v == 0x20 || v == 0x85 || v == 0xa0 || v == 0x1680 || (0x2000
        <= v && v <= 0x200a) || v == 0x2028 || v == 0x2029 || v == 0x202f || v == 0x205f || v
        == 0x3000
}


/// The views of a sequence of strings.
pub open spec fn views(v: Seq<String>) -> Seq<Seq<char>> {
    v.map_values(|x: String| x@)
}

/// `s` without its leading white space.
pub open spec fn trim_start(s: Seq<char>) -> Seq<char>
    decreases s.len(),
{
    if s.len() > 0 && is_ws(s[0]) {
        trim_start(s.drop_first())
    } else {
        s
    }
}

/// `s` without its trailing white space.
pub open spec fn trim_end(s: Seq<char>) -> Seq<char>
    decreases s.len(),
{
    if s.len() > 0 && is_ws(s.last()) {
        trim_end(s.drop_last())
    } else {
        s
    }
}

/// `s` without leading and trailing white space (what `str::trim` gives).
pub open spec fn trimmed(s: Seq<char>) -> Seq<char> {
    trim_end(trim_start(s))
}

/// The pieces of `s` between occurrences of `sep`, empty pieces kept
/// (what `str::split` with a `char` pattern yields).
pub open spec fn split_on(s: Seq<char>, sep: char) -> Seq<Seq<char>>
    decreases s.len(),
{
    if s.len() == 0 {
        seq![Seq::<char>::empty()]
    } else {
        let rest = split_on(s.drop_last(), sep);
        if s.last() == sep {
            rest.push(Seq::<char>::empty())
        } else {
            rest.update(rest.len() - 1, rest.last().push(s.last()))
        }
    }
}

/// The maximal runs of non-white-space characters of `s`, in order
/// (what `str::split_whitespace` yields).
pub open spec fn words(s: Seq<char>) -> Seq<Seq<char>>
    decreases s.len(),
{
    if s.len() == 0 {
        Seq::<Seq<char>>::empty()
    } else {
        let rest = words(s.drop_last());
        if is_ws(s.last()) {
            rest
        } else if s.len() >= 2 && !is_ws(s[s.len() - 2]) {
            rest.update(rest.len() - 1, rest.last().push(s.last()))
        } else {
            rest.push(seq![s.last()])
        }
    }
}

/// Whether `s` begins with `p`.
pub open spec fn has_prefix(s: Seq<char>, p: Seq<char>) -> bool {
    p.len() <= s.len() && s.take(p.len() as int) == p
}

/// `s` with leading and trailing white space removed.
pub fn trim_str(s: &str) -> (r: String)
    ensures
        r@ == trimmed(s@),
{
    let n = s.unicode_len();
    let mut i: usize = 0;
    assert(s@.skip(0) =~= s@);
    while i < n && is_whitespace(s.get_char(i))
        invariant
            i <= n,
            n == s@.len(),
            trim_start(s@) == trim_start(s@.skip(i as int)),
        decreases n - i,
    {
        assert(s@.skip(i as int).drop_first() =~= s@.skip(i + 1));
        i = i + 1;
    }
    assert(trim_start(s@) == s@.skip(i as int)) by {
        if i == n {
            assert(s@.skip(i as int).len() == 0);
        }
    }
    assert(s@.skip(i as int) =~= s@.subrange(i as int, n as int));
    let mut j: usize = n;
    while j > i && is_whitespace(s.get_char(j - 1))
        invariant
            i <= j <= n,
            n == s@.len(),
            trimmed(s@) == trim_end(s@.subrange(i as int, j as int)),
        decreases j,
    {
        assert(s@.subrange(i as int, j as int).drop_last() =~= s@.subrange(i as int, j - 1));
        j = j - 1;
    }
    s.substring_char(i, j).to_owned()
}

/// The pieces of `s` between occurrences of `sep`.
pub fn split_char(s: &str, sep: char) -> (r: Vec<String>)
    ensures
        views(r@) == split_on(s@, sep),
{
    let n = s.unicode_len();
    let mut pieces: Vec<String> = Vec::new();
    let mut start: usize = 0;
    let mut i: usize = 0;
    assert(s@.take(0) =~= Seq::<char>::empty());
    while i < n
        invariant
            start <= i <= n,
            n == s@.len(),
            views(pieces@).push(s@.subrange(start as int, i as int)) =~= split_on(
                s@.take(i as int),
                sep,
            ),
        decreases n - i,
    {
        let c = s.get_char(i);
        let ghost before = views(pieces@);
        assert(s@.take(i + 1).drop_last() =~= s@.take(i as int));
        if c == sep {
            let piece = s.substring_char(start, i).to_owned();
            pieces.push(piece);
            assert(views(pieces@) =~= before.push(s@.subrange(start as int, i as int)));
            assert(split_on(s@.take(i + 1), sep) == split_on(s@.take(i as int), sep).push(
                Seq::<char>::empty(),
            ));
            assert(s@.subrange(i + 1, i + 1) =~= Seq::<char>::empty());
            start = i + 1;
        } else {
            assert(s@.subrange(start as int, i + 1) =~= s@.subrange(start as int, i as int).push(
                c,
            ));
            let ghost rest = split_on(s@.take(i as int), sep);
            assert(split_on(s@.take(i + 1), sep) == rest.update(
                rest.len() - 1,
                rest.last().push(c),
            ));
        }
        i = i + 1;
    }
    let last = s.substring_char(start, n).to_owned();
    let ghost before = views(pieces@);
    pieces.push(last);
    assert(views(pieces@) =~= before.push(s@.subrange(start as int, n as int)));
    assert(s@.take(n as int) =~= s@);
    pieces
}

/// The white-space separated words of `s`.
pub fn split_words(s: &str) -> (r: Vec<String>)
    ensures
        views(r@) == words(s@),
{
    let n = s.unicode_len();
    let mut acc: Vec<String> = Vec::new();
    let mut start: usize = 0;
    let mut in_word = false;
    let mut i: usize = 0;
    assert(s@.take(0) =~= Seq::<char>::empty());
    while i < n
        invariant
            start <= i <= n,
            n == s@.len(),
            !in_word ==> views(acc@) =~= words(s@.take(i as int)),
            !in_word ==> (i == 0 || is_ws(s@[i - 1])),
            in_word ==> start < i,
            in_word ==> !is_ws(s@[i - 1]),
            in_word ==> views(acc@).push(s@.subrange(start as int, i as int)) =~= words(
                s@.take(i as int),
            ),
        decreases n - i,
    {
        let c = s.get_char(i);
        let ghost before = views(acc@);
        assert(s@.take(i + 1).drop_last() =~= s@.take(i as int));
        assert(s@.take(i + 1).last() == c);
        if is_whitespace(c) {
            if in_word {
                let w = s.substring_char(start, i).to_owned();
                acc.push(w);
                assert(views(acc@) =~= before.push(s@.subrange(start as int, i as int)));
                in_word = false;
            }
        } else {
            if in_word {
                assert(s@.take(i + 1)[i - 1] == s@[i - 1]);
                assert(s@.subrange(start as int, i + 1) =~= s@.subrange(
                    start as int,
                    i as int,
                ).push(c));
            } else {
                if i > 0 {
                    assert(s@.take(i + 1)[i - 1] == s@[i - 1]);
                }
                assert(s@.subrange(i as int, i + 1) =~= seq![c]);
                start = i;
                in_word = true;
            }
        }
        i = i + 1;
    }
    if in_word {
        let w = s.substring_char(start, n).to_owned();
        let ghost before = views(acc@);
        acc.push(w);
        assert(views(acc@) =~= before.push(s@.subrange(start as int, n as int)));
    }
    assert(s@.take(n as int) =~= s@);
    acc
}

/// Whether `s` begins with `p`.
pub fn starts_with(s: &str, p: &str) -> (r: bool)
    ensures
        r == has_prefix(s@, p@),
{
    let n = s.unicode_len();
    let m = p.unicode_len();
    if m > n {
        return false;
    }
    let mut i: usize = 0;
    while i < m
        invariant
            i <= m <= n,
            n == s@.len(),
            m == p@.len(),
            forall|k: int| 0 <= k < i ==> s@[k] == p@[k],
        decreases m - i,
    {
        if s.get_char(i) != p.get_char(i) {
            assert(s@.take(m as int)[i as int] != p@[i as int]);
            return false;
        }
        i = i + 1;
    }
    assert(s@.take(m as int) =~= p@);
    true
}


/// `split_on` always yields at least one piece.
pub proof fn lemma_split_on_nonempty(s: Seq<char>, sep: char)
    ensures
        split_on(s, sep).len() >= 1,
    decreases s.len(),
{
    if s.len() > 0 {
        lemma_split_on_nonempty(s.drop_last(), sep);
    }
}

/// Appending text without `sep` to `a` extends the last piece of `a`.
pub proof fn lemma_split_on_append_plain(a: Seq<char>, t: Seq<char>, sep: char)
    requires
        forall|k: int| 0 <= k < t.len() ==> t[k] != sep,
    ensures
        ({
            let p = split_on(a, sep);
            split_on(a + t, sep) == p.update(p.len() - 1, p.last() + t)
        }),
    decreases t.len(),
{
    lemma_split_on_nonempty(a, sep);
    let p = split_on(a, sep);
    if t.len() == 0 {
        assert(a + t =~= a);
        assert(p.last() + t =~= p.last());
        assert(p.update(p.len() - 1, p.last() + t) =~= p);
    } else {
        let t0 = t.drop_last();
        lemma_split_on_append_plain(a, t0, sep);
        assert((a + t).drop_last() =~= a + t0);
        assert((a + t).last() == t.last());
        let q = p.update(p.len() - 1, p.last() + t0);
        assert(split_on(a + t, sep) == q.update(q.len() - 1, q.last().push(t.last())));
        assert((p.last() + t0).push(t.last()) =~= p.last() + t);
        assert(q.update(q.len() - 1, q.last().push(t.last())) =~= p.update(p.len() - 1, p.last() + t));
    }
}

/// Appending `sep` to `a` starts a new, empty piece.
pub proof fn lemma_split_on_append_sep(a: Seq<char>, sep: char)
    ensures
        split_on(a.push(sep), sep) == split_on(a, sep).push(Seq::<char>::empty()),
{
    assert(a.push(sep).drop_last() =~= a);
}

/// `w` is all white space.
pub open spec fn all_ws(w: Seq<char>) -> bool {
    forall|k: int| 0 <= k < w.len() ==> is_ws(#[trigger] w[k])
}

/// `trim_start` drops exactly the leading white space.
proof fn lemma_trim_start_shape(s: Seq<char>)
    ensures
        exists|n: int|
            0 <= n <= s.len() && all_ws(#[trigger] s.take(n)) && trim_start(s) == s.skip(n),
        trim_start(s).len() > 0 ==> !is_ws(trim_start(s)[0]),
    decreases s.len(),
{
    if s.len() > 0 && is_ws(s[0]) {
        lemma_trim_start_shape(s.drop_first());
        let n = choose|n: int|
            0 <= n <= s.drop_first().len() && all_ws(#[trigger] s.drop_first().take(n))
                && trim_start(s.drop_first()) == s.drop_first().skip(n);
        assert(s.drop_first().skip(n) =~= s.skip(n + 1));
        assert forall|k: int| 0 <= k < n + 1 implies is_ws(#[trigger] s.take(n + 1)[k]) by {
            if k > 0 {
                assert(s.take(n + 1)[k] == s.drop_first().take(n)[k - 1]);
            }
        }
        assert(all_ws(s.take(n + 1)) && trim_start(s) == s.skip(n + 1));
    } else {
        assert(s.skip(0) =~= s);
        assert(all_ws(s.take(0)) && trim_start(s) == s.skip(0));
    }
}

/// `trim_end` drops exactly the trailing white space.
proof fn lemma_trim_end_shape(s: Seq<char>)
    ensures
        exists|n: int|
            0 <= n <= s.len() && all_ws(#[trigger] s.skip(n)) && trim_end(s) == s.take(n),
        trim_end(s).len() > 0 ==> !is_ws(trim_end(s).last()),
    decreases s.len(),
{
    if s.len() > 0 && is_ws(s.last()) {
        lemma_trim_end_shape(s.drop_last());
        let n = choose|n: int|
            0 <= n <= s.drop_last().len() && all_ws(#[trigger] s.drop_last().skip(n))
                && trim_end(s.drop_last()) == s.drop_last().take(n);
        assert(s.drop_last().take(n) =~= s.take(n));
        assert forall|k: int| 0 <= k < s.len() - n implies is_ws(#[trigger] s.skip(n)[k]) by {
            if k < s.len() - n - 1 {
                assert(s.skip(n)[k] == s.drop_last().skip(n)[k]);
            }
        }
        assert(all_ws(s.skip(n)) && trim_end(s) == s.take(n));
    } else {
        assert(s.take(s.len() as int) =~= s);
        assert(all_ws(s.skip(s.len() as int)) && trim_end(s) == s.take(s.len() as int));
    }
}

/// Trimming removes white space at both ends and nothing else: `s` is some
/// white space, the trimmed text, then some white space, and the trimmed text
/// neither begins nor ends with white space.
pub proof fn trimmed_drops_only_outer_white_space(s: Seq<char>)
    ensures
        exists|a: int, b: int|
            0 <= a <= b <= s.len() && all_ws(#[trigger] s.take(a)) && all_ws(#[trigger] s.skip(b))
                && trimmed(s) == s.subrange(a, b),
        trimmed(s).len() > 0 ==> !is_ws(trimmed(s)[0]) && !is_ws(trimmed(s).last()),
{
    lemma_trim_start_shape(s);
    let a = choose|n: int| 0 <= n <= s.len() && all_ws(#[trigger] s.take(n)) && trim_start(s) == s.skip(n);
    let t = s.skip(a);
    lemma_trim_end_shape(t);
    let m = choose|n: int| 0 <= n <= t.len() && all_ws(#[trigger] t.skip(n)) && trim_end(t) == t.take(n);
    assert(t.take(m) =~= s.subrange(a, a + m));
    assert(t.skip(m) =~= s.skip(a + m));
    assert(all_ws(s.take(a)) && all_ws(s.skip(a + m)) && trimmed(s) == s.subrange(a, a + m));
}

/// The number of times `sep` occurs in `s`.
pub open spec fn occurrences(s: Seq<char>, sep: char) -> nat
    decreases s.len(),
{
    if s.len() == 0 {
        0
    } else {
        occurrences(s.drop_last(), sep) + if s.last() == sep {
            1nat
        } else {
            0nat
        }
    }
}

/// Splitting yields one piece more than there are separators, no piece holds
/// the separator, and the pieces hold every other character of `s`.
pub proof fn split_on_pieces(s: Seq<char>, sep: char)
    ensures
        split_on(s, sep).len() == occurrences(s, sep) + 1,
        forall|i: int, k: int|
            0 <= i < split_on(s, sep).len() && 0 <= k < split_on(s, sep)[i].len()
                ==> #[trigger] split_on(s, sep)[i][k] != sep,
        split_on(s, sep).len() + total_len(split_on(s, sep)) == s.len() + 1,
    decreases s.len(),
{
    if s.len() > 0 {
        let d = s.drop_last();
        split_on_pieces(d, sep);
        let p = split_on(d, sep);
        lemma_split_on_nonempty(d, sep);
        if s.last() == sep {
            assert(split_on(s, sep) == p.push(Seq::<char>::empty()));
            lemma_total_len_push(p, Seq::<char>::empty());
            assert forall|i: int, k: int|
                0 <= i < split_on(s, sep).len() && 0 <= k < split_on(s, sep)[i].len()
                    implies #[trigger] split_on(s, sep)[i][k] != sep by {
                assert(i < p.len());
                assert(split_on(s, sep)[i] == p[i]);
            }
        } else {
            let q = p.update(p.len() - 1, p.last().push(s.last()));
            assert(split_on(s, sep) == q);
            assert(p =~= p.drop_last().push(p.last()));
            assert(q =~= p.drop_last().push(p.last().push(s.last())));
            lemma_total_len_push(p.drop_last(), p.last());
            lemma_total_len_push(p.drop_last(), p.last().push(s.last()));
            assert forall|i: int, k: int|
                0 <= i < q.len() && 0 <= k < q[i].len() implies #[trigger] q[i][k] != sep by {
                if i < p.len() - 1 {
                    assert(q[i] == p[i]);
                } else if k < p.last().len() {
                    assert(q[i][k] == p[p.len() - 1][k]);
                }
            }
        }
    } else {
        let e = split_on(s, sep);
        assert(e == seq![Seq::<char>::empty()]);
        assert(e.drop_last() =~= Seq::<Seq<char>>::empty());
        assert(total_len(e) == total_len(e.drop_last()) + e.last().len());
    }
}

/// The total length of some pieces.
pub open spec fn total_len(ps: Seq<Seq<char>>) -> nat
    decreases ps.len(),
{
    if ps.len() == 0 {
        0
    } else {
        total_len(ps.drop_last()) + ps.last().len()
    }
}

proof fn lemma_total_len_push(ps: Seq<Seq<char>>, x: Seq<char>)
    ensures
        total_len(ps.push(x)) == total_len(ps) + x.len(),
{
    assert(ps.push(x).drop_last() =~= ps);
}

/// `w` is a word: non-empty and free of white space.
pub open spec fn is_word(w: Seq<char>) -> bool {
    w.len() > 0 && forall|j: int| 0 <= j < w.len() ==> !is_ws(#[trigger] w[j])
}

/// Every piece that `words` yields is a word, and text ending in a non-space
/// character has at least one word.
pub proof fn words_are_words(s: Seq<char>)
    ensures
        forall|i: int| 0 <= i < words(s).len() ==> is_word(#[trigger] words(s)[i]),
        (s.len() > 0 && !is_ws(s.last())) ==> words(s).len() > 0,
    decreases s.len(),
{
    if s.len() > 0 {
        let init = s.drop_last();
        words_are_words(init);
        let rest = words(init);
        let c = s.last();
        if is_ws(c) {
        } else if s.len() >= 2 && !is_ws(s[s.len() - 2]) {
            assert(init.last() == s[s.len() - 2]);
            assert(rest.len() > 0);
            let w = rest.last().push(c);
            assert(is_word(rest[rest.len() - 1]));
            assert forall|j: int| 0 <= j < w.len() implies !is_ws(#[trigger] w[j]) by {
                if j < w.len() - 1 {
                    assert(w[j] == rest.last()[j]);
                }
            }
            assert(words(s) == rest.update(rest.len() - 1, w));
        } else {
            assert(is_word(seq![c]));
            assert(words(s) == rest.push(seq![c]));
        }
    }
}

} // verus!
