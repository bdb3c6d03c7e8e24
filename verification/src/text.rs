//! Character-sequence model of the string operations the agent relies on.

use vstd::prelude::*;

verus! {

/// The Unicode `White_Space` property, the set that `char::is_whitespace` tests.
pub open spec fn is_ws(c: char) -> bool {
    ||| ('\u{9}' <= c && c <= '\u{d}')
    ||| c == ' '
    ||| c == '\u{85}'
    ||| c == '\u{a0}'
    ||| c == '\u{1680}'
    ||| ('\u{2000}' <= c && c <= '\u{200a}')
    ||| c == '\u{2028}'
    ||| c == '\u{2029}'
    ||| c == '\u{202f}'
    ||| c == '\u{205f}'
    ||| c == '\u{3000}'
}

/// Whether `c` is white space in the sense of `char::is_whitespace`.
pub fn is_whitespace(c: char) -> (b: bool)
    ensures
        b == is_ws(c),
{
    ('\u{9}' <= c && c <= '\u{d}') || c == ' ' || c == '\u{85}' || c == '\u{a0}' || c == '\u{1680}'
        || ('\u{2000}' <= c && c <= '\u{200a}') || c == '\u{2028}' || c == '\u{2029}' || c
        == '\u{202f}' || c == '\u{205f}' || c == '\u{3000}'
}

/// `s` without its leading white space.
pub open spec fn trim_start(s: Seq<char>) -> Seq<char>
    decreases s.len(),
{
    if s.len() > 0 && is_ws(s[0]) {
        trim_start(s.drop_first())
    } else {
        s
    }
}

/// `s` without its trailing white space.
pub open spec fn trim_end(s: Seq<char>) -> Seq<char>
    decreases s.len(),
{
    if s.len() > 0 && is_ws(s.last()) {
        trim_end(s.drop_last())
    } else {
        s
    }
}

/// `s` without leading and trailing white space, as `str::trim` gives it.
pub open spec fn trim(s: Seq<char>) -> Seq<char> {
    trim_end(trim_start(s))
}

pub proof fn lemma_trim_start_skip(s: Seq<char>, i: int)
    requires
        0 <= i <= s.len(),
        forall|j: int| 0 <= j < i ==> is_ws(#[trigger] s[j]),
        i == s.len() || !is_ws(s[i]),
    ensures
        trim_start(s) == s.skip(i),
    decreases i,
{
    if i == 0 {
        assert(s.skip(0) =~= s);
    } else {
        let t = s.drop_first();
        assert forall|j: int| 0 <= j < i - 1 implies is_ws(#[trigger] t[j]) by {
            assert(t[j] == s[j + 1]);
        }
        lemma_trim_start_skip(t, i - 1);
        assert(t.skip(i - 1) =~= s.skip(i));
    }
}

pub proof fn lemma_trim_end_take(s: Seq<char>, i: int)
    requires
        0 <= i <= s.len(),
        forall|j: int| i <= j < s.len() ==> is_ws(#[trigger] s[j]),
        i == 0 || !is_ws(s[i - 1]),
    ensures
        trim_end(s) == s.take(i),
    decreases s.len() - i,
{
    if i == s.len() {
        assert(s.take(i) =~= s);
    } else {
        let t = s.drop_last();
        assert forall|j: int| i <= j < t.len() implies is_ws(#[trigger] t[j]) by {
            assert(t[j] == s[j]);
        }
        lemma_trim_end_take(t, i);
        assert(t.take(i) =~= s.take(i));
    }
}

/// The characters of `s`, in order.
pub fn chars_of(s: &str) -> (v: Vec<char>)
    ensures
        v@ == s@,
{
    let mut v: Vec<char> = Vec::new();
    for c in it: s.chars()
        invariant
            v@ == it.seq().take(it.index() as int),
    {
        v.push(c);
    }
    v
}


/// Whether `p` occurs in `s` at index `i`.
pub open spec fn matches_at(s: Seq<char>, i: int, p: Seq<char>) -> bool {
    0 <= i && i + p.len() <= s.len() && s.subrange(i, i + p.len()) == p
}

/// Whether `p` occurs anywhere in `s` (`str::contains`).
pub open spec fn contains(s: Seq<char>, p: Seq<char>) -> bool {
    exists|i: int| matches_at(s, i, p)
}

/// Whether `s` begins with `p` (`str::starts_with`).
pub open spec fn starts_with(s: Seq<char>, p: Seq<char>) -> bool {
    matches_at(s, 0, p)
}

/// Whether `s` ends with `p` (`str::ends_with`).
pub open spec fn ends_with(s: Seq<char>, p: Seq<char>) -> bool {
    matches_at(s, s.len() - p.len(), p)
}

/// The views of a sequence of character vectors.
pub open spec fn views(v: Seq<Vec<char>>) -> Seq<Seq<char>> {
    v.map_values(|x: Vec<char>| x@)
}

/// `s` with every non-overlapping occurrence of `p`, taken from the left,
/// removed: what `str::replace(p, "")` computes.
pub open spec fn remove_all(s: Seq<char>, p: Seq<char>) -> Seq<char>
    decreases s.len(),
{
    if s.len() == 0 {
        s
    } else if p.len() > 0 && starts_with(s, p) {
        remove_all(s.skip(p.len() as int), p)
    } else {
        seq![s[0]] + remove_all(s.drop_first(), p)
    }
}

/// The pieces of `ls` joined by `sep` (`[T]::join`).
pub open spec fn join(ls: Seq<Seq<char>>, sep: Seq<char>) -> Seq<char>
    decreases ls.len(),
{
    if ls.len() == 0 {
        seq![]
    } else if ls.len() == 1 {
        ls[0]
    } else {
        join(ls.drop_last(), sep) + sep + ls.last()
    }
}

/// The characters `s[lo..hi]`.
pub fn slice_chars(s: &Vec<char>, lo: usize, hi: usize) -> (r: Vec<char>)
    requires
        lo <= hi <= s.len(),
    ensures
        r@ == s@.subrange(lo as int, hi as int),
{
    let mut r: Vec<char> = Vec::new();
    let mut i: usize = lo;
    while i < hi
        invariant
            lo <= i <= hi,
            hi <= s.len(),
            r@ == s@.subrange(lo as int, i as int),
        decreases hi - i,
    {
        r.push(s[i]);
        i += 1;
        assert(r@ =~= s@.subrange(lo as int, i as int));
    }
    r
}

/// Appends the characters of `src` to `dst`.
pub fn append_chars(dst: &mut Vec<char>, src: &Vec<char>)
    ensures
        final(dst)@ == old(dst)@ + src@,
{
    let mut i: usize = 0;
    while i < src.len()
        invariant
            i <= src.len(),
            dst@ == old(dst)@ + src@.take(i as int),
        decreases src.len() - i,
    {
        dst.push(src[i]);
        i += 1;
        assert(dst@ =~= old(dst)@ + src@.take(i as int));
    }
    assert(src@.take(src.len() as int) =~= src@);
}

/// Whether `p` occurs in `s` at index `i`.
pub fn matches_at_exec(s: &Vec<char>, i: usize, p: &Vec<char>) -> (b: bool)
    ensures
        b == matches_at(s@, i as int, p@),
{
    if i > s.len() || p.len() > s.len() - i {
        return false;
    }
    let mut j: usize = 0;
    while j < p.len()
        invariant
            j <= p.len(),
            i + p.len() <= s.len(),
            forall|m: int| 0 <= m < j ==> s@[i + m] == p@[m],
        decreases p.len() - j,
    {
        if s[i + j] != p[j] {
            assert(s@.subrange(i as int, i + p.len())[j as int] != p@[j as int]);
            return false;
        }
        j += 1;
    }
    assert(s@.subrange(i as int, i + p.len()) =~= p@);
    true
}

/// Whether `p` occurs in `s`.
pub fn contains_exec(s: &Vec<char>, p: &Vec<char>) -> (b: bool)
    ensures
        b == contains(s@, p@),
{
    if p.len() > s.len() {
        assert forall|k: int| !matches_at(s@, k, p@) by {}
        return false;
    }
    let last: usize = s.len() - p.len();
    let mut i: usize = 0;
    while i <= last
        invariant
            last == s.len() - p.len(),
            p.len() <= s.len(),
            forall|k: int| 0 <= k < i ==> !matches_at(s@, k, p@),
        decreases last + 1 - i,
    {
        if matches_at_exec(s, i, p) {
            return true;
        }
        if i == last {
            assert forall|k: int| !matches_at(s@, k, p@) by {
                if 0 <= k < i + 1 {
                } else {
                }
            }
            return false;
        }
        i += 1;
    }
    false
}

/// Whether `s` contains the text `needle`.
pub fn contains_str(s: &Vec<char>, needle: &str) -> (b: bool)
    ensures
        b == contains(s@, needle@),
{
    let p = chars_of(needle);
    contains_exec(s, &p)
}

/// Whether `s` begins with the text `prefix`.
pub fn starts_with_str(s: &Vec<char>, prefix: &str) -> (b: bool)
    ensures
        b == starts_with(s@, prefix@),
{
    let p = chars_of(prefix);
    matches_at_exec(s, 0, &p)
}

/// Whether the characters of `s` are exactly the text `t`.
pub fn eq_str(s: &Vec<char>, t: &str) -> (b: bool)
    ensures
        b == (s@ == t@),
{
    let p = chars_of(t);
    if s.len() != p.len() {
        return false;
    }
    let b = matches_at_exec(s, 0, &p);
    assert(s@.subrange(0, p.len() as int) =~= s@);
    b
}

/// First index at or after `from` that holds no white space (or `s.len()`).
pub fn skip_ws_from(s: &Vec<char>, from: usize) -> (i: usize)
    requires
        from <= s.len(),
    ensures
        from <= i <= s.len(),
        forall|j: int| from <= j < i ==> is_ws(#[trigger] s@[j]),
        i == s.len() || !is_ws(s@[i as int]),
{
    let mut i: usize = from;
    while i < s.len() && is_whitespace(s[i])
        invariant
            from <= i <= s.len(),
            forall|j: int| from <= j < i ==> is_ws(#[trigger] s@[j]),
        decreases s.len() - i,
    {
        i += 1;
    }
    i
}

/// Bounds `(lo, hi)` with `trim_start(s) == s[lo..]` and `trim(s) == s[lo..hi]`.
pub fn trim_bounds(s: &Vec<char>) -> (r: (usize, usize))
    ensures
        r.0 <= r.1 <= s.len(),
        trim_start(s@) == s@.skip(r.0 as int),
        trim(s@) == s@.subrange(r.0 as int, r.1 as int),
{
    let lo = skip_ws_from(s, 0);
    proof {
        lemma_trim_start_skip(s@, lo as int);
    }
    let mut hi: usize = s.len();
    while hi > lo && is_whitespace(s[hi - 1])
        invariant
            lo <= hi <= s.len(),
            forall|j: int| hi <= j < s.len() ==> is_ws(#[trigger] s@[j]),
        decreases hi,
    {
        hi -= 1;
    }
    proof {
        let t = s@.skip(lo as int);
        assert forall|j: int| hi - lo <= j < t.len() implies is_ws(#[trigger] t[j]) by {
            assert(t[j] == s@[lo + j]);
        }
        lemma_trim_end_take(t, hi - lo);
        assert(t.take(hi - lo) =~= s@.subrange(lo as int, hi as int));
    }
    (lo, hi)
}

/// `trim(s)` as a new vector.
pub fn trim_vec(s: &Vec<char>) -> (r: Vec<char>)
    ensures
        r@ == trim(s@),
{
    let (lo, hi) = trim_bounds(s);
    slice_chars(s, lo, hi)
}

/// `trim_start(s)` as a new vector.
pub fn trim_start_vec(s: &Vec<char>) -> (r: Vec<char>)
    ensures
        r@ == trim_start(s@),
{
    let lo = skip_ws_from(s, 0);
    proof {
        lemma_trim_start_skip(s@, lo as int);
    }
    slice_chars(s, lo, s.len())
}

/// `trim_end(s)` as a new vector.
pub fn trim_end_vec(s: &Vec<char>) -> (r: Vec<char>)
    ensures
        r@ == trim_end(s@),
{
    let mut hi: usize = s.len();
    while hi > 0 && is_whitespace(s[hi - 1])
        invariant
            hi <= s.len(),
            forall|j: int| hi <= j < s.len() ==> is_ws(#[trigger] s@[j]),
        decreases hi,
    {
        hi -= 1;
    }
    proof {
        lemma_trim_end_take(s@, hi as int);
    }
    slice_chars(s, 0, hi)
}

/// `remove_all(s, p)`: `s` with every occurrence of `p` taken out.
pub fn remove_all_exec(s: &Vec<char>, p: &Vec<char>) -> (r: Vec<char>)
    ensures
        r@ == remove_all(s@, p@),
{
    let mut r: Vec<char> = Vec::new();
    let mut i: usize = 0;
    assert(s@.skip(0) =~= s@);
    while i < s.len()
        invariant
            i <= s.len(),
            remove_all(s@, p@) == r@ + remove_all(s@.skip(i as int), p@),
        decreases s.len() - i,
    {
        let t = Ghost(s@.skip(i as int));
        if p.len() > 0 && matches_at_exec(s, i, p) {
            assert(t@.subrange(0, p.len() as int) =~= s@.subrange(i as int, i + p.len()));
            assert(t@.skip(p.len() as int) =~= s@.skip(i + p.len()));
            i += p.len();
        } else {
            assert(!(p.len() > 0 && starts_with(t@, p@))) by {
                if p.len() > 0 && starts_with(t@, p@) {
                    assert(t@.subrange(0, p.len() as int) =~= s@.subrange(i as int, i + p.len()));
                }
            }
            assert(t@.drop_first() =~= s@.skip(i + 1));
            assert(t@[0] == s@[i as int]);
            let ghost r0 = r@;
            r.push(s[i]);
            assert(r0 + (seq![t@[0]] + remove_all(s@.skip(i + 1), p@)) =~= r@ + remove_all(
                s@.skip(i + 1),
                p@,
            ));
            i += 1;
        }
    }
    assert(s@.skip(s.len() as int) =~= Seq::<char>::empty());
    assert(r@ + Seq::<char>::empty() =~= r@);
    r
}


/// `ls` joined by `sep`, as a new vector.
pub fn join_exec(ls: &Vec<Vec<char>>, sep: &Vec<char>) -> (r: Vec<char>)
    ensures
        r@ == join(views(ls@), sep@),
{
    let mut r: Vec<char> = Vec::new();
    if ls.len() == 0 {
        return r;
    }
    append_chars(&mut r, &ls[0]);
    let mut i: usize = 1;
    assert(views(ls@).take(1) =~= seq![ls@[0]@]);
    while i < ls.len()
        invariant
            1 <= i <= ls.len(),
            r@ == join(views(ls@).take(i as int), sep@),
        decreases ls.len() - i,
    {
        append_chars(&mut r, sep);
        append_chars(&mut r, &ls[i]);
        assert(views(ls@).take(i + 1).drop_last() =~= views(ls@).take(i as int));
        i += 1;
    }
    assert(views(ls@).take(ls.len() as int) =~= views(ls@));
    r
}

/// Number of characters before the first white space in `s`.
pub open spec fn word_len(s: Seq<char>) -> nat
    decreases s.len(),
{
    if s.len() > 0 && !is_ws(s[0]) {
        1 + word_len(s.drop_first())
    } else {
        0
    }
}

/// The white-space separated words of `s` (`str::split_whitespace`).
pub open spec fn words(s: Seq<char>) -> Seq<Seq<char>>
    decreases s.len(),
{
    if s.len() == 0 {
        seq![]
    } else if is_ws(s[0]) {
        words(s.drop_first())
    } else {
        proof {
            lemma_word_len_bound(s);
        }
        seq![s.take(word_len(s) as int)] + words(s.skip(word_len(s) as int))
    }
}

/// Index just past the `n`-th word of `s` (counting from 1), or `s.len()`
/// when `s` has fewer words.
pub open spec fn word_end(s: Seq<char>, n: nat) -> nat
    decreases s.len(),
{
    if s.len() == 0 {
        0
    } else if is_ws(s[0]) {
        1 + word_end(s.drop_first(), n)
    } else if n <= 1 {
        word_len(s)
    } else {
        proof {
            lemma_word_len_bound(s);
        }
        word_len(s) + word_end(s.skip(word_len(s) as int), (n - 1) as nat)
    }
}

pub proof fn lemma_word_len(t: Seq<char>, k: int)
    requires
        0 <= k <= t.len(),
        forall|m: int| 0 <= m < k ==> !is_ws(#[trigger] t[m]),
        k == t.len() || is_ws(t[k]),
    ensures
        word_len(t) == k,
    decreases k,
{
    if k > 0 {
        let u = t.drop_first();
        assert forall|m: int| 0 <= m < k - 1 implies !is_ws(#[trigger] u[m]) by {
            assert(u[m] == t[m + 1]);
        }
        lemma_word_len(u, k - 1);
    }
}

pub proof fn lemma_word_len_bound(t: Seq<char>)
    ensures
        word_len(t) <= t.len(),
    decreases t.len(),
{
    if t.len() > 0 {
        lemma_word_len_bound(t.drop_first());
    }
}

/// Index just past the run of non-white-space characters starting at `from`.
pub fn word_run_end(s: &Vec<char>, from: usize) -> (j: usize)
    requires
        from <= s.len(),
    ensures
        from <= j <= s.len(),
        forall|m: int| from <= m < j ==> !is_ws(#[trigger] s@[m]),
        j == s.len() || is_ws(s@[j as int]),
{
    let mut j: usize = from;
    while j < s.len() && !is_whitespace(s[j])
        invariant
            from <= j <= s.len(),
            forall|m: int| from <= m < j ==> !is_ws(#[trigger] s@[m]),
        decreases s.len() - j,
    {
        j += 1;
    }
    j
}

pub proof fn lemma_run_word_len(s: Seq<char>, i: int, j: int)
    requires
        0 <= i <= j <= s.len(),
        forall|m: int| i <= m < j ==> !is_ws(#[trigger] s[m]),
        j == s.len() || is_ws(s[j]),
    ensures
        word_len(s.skip(i)) == j - i,
{
    let t = s.skip(i);
    assert forall|m: int| 0 <= m < j - i implies !is_ws(#[trigger] t[m]) by {
        assert(t[m] == s[i + m]);
    }
    lemma_word_len(t, j - i);
}

pub proof fn lemma_words_ws(s: Seq<char>, i: int)
    requires
        0 <= i < s.len(),
        is_ws(s[i]),
    ensures
        words(s.skip(i)) == words(s.skip(i + 1)),
        forall|n: nat| word_end(s.skip(i), n) == 1 + word_end(s.skip(i + 1), n),
{
    let t = s.skip(i);
    assert(t[0] == s[i]);
    assert(t.drop_first() =~= s.skip(i + 1));
}

pub proof fn lemma_words_word(s: Seq<char>, i: int, j: int)
    requires
        0 <= i < j <= s.len(),
        forall|m: int| i <= m < j ==> !is_ws(#[trigger] s[m]),
        j == s.len() || is_ws(s[j]),
    ensures
        words(s.skip(i)) == seq![s.subrange(i, j)] + words(s.skip(j)),
        forall|n: nat|
            word_end(s.skip(i), n) == if n <= 1 {
                j - i
            } else {
                j - i + word_end(s.skip(j), (n - 1) as nat)
            },
{
    let t = s.skip(i);
    lemma_run_word_len(s, i, j);
    assert(t[0] == s[i]);
    assert(t.take(j - i) =~= s.subrange(i, j));
    assert(t.skip(j - i) =~= s.skip(j));
}

/// The words of `s`.
pub fn split_whitespace(s: &Vec<char>) -> (r: Vec<Vec<char>>)
    ensures
        views(r@) == words(s@),
{
    let mut r: Vec<Vec<char>> = Vec::new();
    let mut i: usize = 0;
    assert(s@.skip(0) =~= s@);
    while i < s.len()
        invariant
            i <= s.len(),
            words(s@) == views(r@) + words(s@.skip(i as int)),
        decreases s.len() - i,
    {
        if is_whitespace(s[i]) {
            proof {
                lemma_words_ws(s@, i as int);
            }
            i += 1;
        } else {
            let j = word_run_end(s, i);
            proof {
                lemma_words_word(s@, i as int, j as int);
            }
            let w = slice_chars(s, i, j);
            let ghost r0 = r@;
            r.push(w);
            assert(views(r@) =~= views(r0).push(w@));
            assert(views(r0) + (seq![w@] + words(s@.skip(j as int))) =~= views(r@) + words(
                s@.skip(j as int),
            ));
            i = j;
        }
    }
    assert(s@.skip(s.len() as int) =~= Seq::<char>::empty());
    assert(views(r@) + Seq::<Seq<char>>::empty() =~= views(r@));
    r
}

/// Where the `n`-th word of `s` ends (counting from 1); the whole length
/// when `s` has fewer words, or when `n` is 0 (no word is ever the 0-th).
pub fn end_of_nth_word(s: &Vec<char>, n: usize) -> (e: usize)
    ensures
        e == if n == 0 {
            s.len() as nat
        } else {
            word_end(s@, n as nat)
        },
{
    if n == 0 {
        return s.len();
    }
    let mut i: usize = 0;
    let mut left: usize = n;
    assert(s@.skip(0) =~= s@);
    while i < s.len()
        invariant
            i <= s.len(),
            1 <= left <= n,
            word_end(s@, n as nat) == i + word_end(s@.skip(i as int), left as nat),
        decreases s.len() - i,
    {
        if is_whitespace(s[i]) {
            proof {
                lemma_words_ws(s@, i as int);
            }
            i += 1;
        } else {
            let j = word_run_end(s, i);
            proof {
                lemma_words_word(s@, i as int, j as int);
            }
            if left == 1 {
                return j;
            }
            left -= 1;
            i = j;
        }
    }
    assert(s@.skip(s.len() as int) =~= Seq::<char>::empty());
    i
}

/// Number of characters before the first line feed in `s`.
pub open spec fn line_len(s: Seq<char>) -> nat
    decreases s.len(),
{
    if s.len() > 0 && s[0] != '\n' {
        1 + line_len(s.drop_first())
    } else {
        0
    }
}

/// `s` without one trailing carriage return.
pub open spec fn strip_cr(s: Seq<char>) -> Seq<char> {
    if s.len() > 0 && s.last() == '\r' {
        s.drop_last()
    } else {
        s
    }
}

/// The lines of `s` (`str::lines`): split at `\n`, a `\r` before a `\n`
/// dropped, no empty line after a final line ending.
pub open spec fn lines(s: Seq<char>) -> Seq<Seq<char>>
    decreases s.len(),
{
    if s.len() == 0 {
        seq![]
    } else if line_len(s) < s.len() {
        seq![strip_cr(s.take(line_len(s) as int))] + lines(s.skip(line_len(s) as int + 1))
    } else {
        seq![s]
    }
}

pub proof fn lemma_line_len(t: Seq<char>, k: int)
    requires
        0 <= k <= t.len(),
        forall|m: int| 0 <= m < k ==> #[trigger] t[m] != '\n',
        k == t.len() || t[k] == '\n',
    ensures
        line_len(t) == k,
    decreases k,
{
    if k > 0 {
        let u = t.drop_first();
        assert forall|m: int| 0 <= m < k - 1 implies #[trigger] u[m] != '\n' by {
            assert(u[m] == t[m + 1]);
        }
        lemma_line_len(u, k - 1);
    }
}

/// First index at or after `from` holding a line feed, or `s.len()`.
pub fn find_newline(s: &Vec<char>, from: usize) -> (j: usize)
    requires
        from <= s.len(),
    ensures
        from <= j <= s.len(),
        forall|m: int| from <= m < j ==> #[trigger] s@[m] != '\n',
        j == s.len() || s@[j as int] == '\n',
{
    let mut j: usize = from;
    while j < s.len() && s[j] != '\n'
        invariant
            from <= j <= s.len(),
            forall|m: int| from <= m < j ==> #[trigger] s@[m] != '\n',
        decreases s.len() - j,
    {
        j += 1;
    }
    j
}

pub proof fn lemma_lines_step(s: Seq<char>, i: int, j: int)
    requires
        0 <= i < s.len(),
        i <= j <= s.len(),
        forall|m: int| i <= m < j ==> #[trigger] s[m] != '\n',
        j == s.len() || s[j] == '\n',
    ensures
        j < s.len() ==> lines(s.skip(i)) == seq![strip_cr(s.subrange(i, j))] + lines(
            s.skip(j + 1),
        ),
        j == s.len() ==> lines(s.skip(i)) == seq![s.skip(i)],
{
    let t = s.skip(i);
    assert forall|m: int| 0 <= m < j - i implies #[trigger] t[m] != '\n' by {
        assert(t[m] == s[i + m]);
    }
    lemma_line_len(t, j - i);
    assert(t.take(j - i) =~= s.subrange(i, j));
    if j < s.len() {
        assert(t.skip(j - i + 1) =~= s.skip(j + 1));
    }
}

/// `strip_cr(s[lo..hi])` as a new vector.
pub fn line_chars(s: &Vec<char>, lo: usize, hi: usize) -> (r: Vec<char>)
    requires
        lo <= hi <= s.len(),
    ensures
        r@ == strip_cr(s@.subrange(lo as int, hi as int)),
{
    if hi > lo && s[hi - 1] == '\r' {
        let r = slice_chars(s, lo, hi - 1);
        assert(s@.subrange(lo as int, hi as int).drop_last() =~= r@);
        r
    } else {
        slice_chars(s, lo, hi)
    }
}


/// Number of bytes in the UTF-8 encoding of `c` (`char::len_utf8`).
pub open spec fn utf8_width(c: char) -> nat {
    if (c as u32) < 0x80 {
        1
    } else if (c as u32) < 0x800 {
        2
    } else if (c as u32) < 0x10000 {
        3
    } else {
        4
    }
}

/// Number of bytes in the UTF-8 encoding of `s` (`str::len`).
pub open spec fn byte_len(s: Seq<char>) -> nat
    decreases s.len(),
{
    if s.len() == 0 {
        0
    } else {
        utf8_width(s[0]) + byte_len(s.drop_first())
    }
}

/// The character index of `s` at which byte offset `b` of its UTF-8 encoding
/// falls, if `b` is a character boundary (`str::is_char_boundary`); `None`
/// where slicing `s` at `b` panics.
pub open spec fn char_at_byte(s: Seq<char>, b: int) -> Option<nat>
    decreases s.len(),
{
    if b == 0 {
        Some(0)
    } else if s.len() == 0 || b < utf8_width(s[0]) {
        None
    } else {
        match char_at_byte(s.drop_first(), b - utf8_width(s[0])) {
            Some(j) => Some(j + 1),
            None => None,
        }
    }
}

pub proof fn lemma_byte_len_push(a: Seq<char>, c: char)
    ensures
        byte_len(a.push(c)) == byte_len(a) + utf8_width(c),
    decreases a.len(),
{
    if a.len() > 0 {
        assert(a.push(c).drop_first() =~= a.drop_first().push(c));
        assert(a.push(c)[0] == a[0]);
        lemma_byte_len_push(a.drop_first(), c);
    } else {
        assert(a.push(c).drop_first() =~= Seq::<char>::empty());
        assert(a.push(c)[0] == c);
        assert(byte_len(Seq::<char>::empty()) == 0);
        assert(byte_len(a) == 0);
    }
}

pub proof fn lemma_byte_len_take_step(s: Seq<char>, j: int)
    requires
        0 <= j < s.len(),
    ensures
        byte_len(s.take(j + 1)) == byte_len(s.take(j)) + utf8_width(s[j]),
{
    assert(s.take(j + 1) =~= s.take(j).push(s[j]));
    lemma_byte_len_push(s.take(j), s[j]);
}

pub proof fn lemma_byte_len_take_mono(s: Seq<char>, j1: int, j2: int)
    requires
        0 <= j1 < j2 <= s.len(),
    ensures
        byte_len(s.take(j1)) < byte_len(s.take(j2)),
    decreases j2 - j1,
{
    lemma_byte_len_take_step(s, j2 - 1);
    if j1 < j2 - 1 {
        lemma_byte_len_take_mono(s, j1, j2 - 1);
    }
}

pub proof fn lemma_char_at_byte_sound(s: Seq<char>, b: int)
    requires
        char_at_byte(s, b) is Some,
    ensures
        char_at_byte(s, b)->0 <= s.len(),
        byte_len(s.take(char_at_byte(s, b)->0 as int)) == b,
    decreases s.len(),
{
    if b == 0 {
        assert(s.take(0) =~= Seq::<char>::empty());
    } else {
        let t = s.drop_first();
        lemma_char_at_byte_sound(t, b - utf8_width(s[0]));
        let j = char_at_byte(t, b - utf8_width(s[0]))->0;
        assert(s.take(j as int + 1).drop_first() =~= t.take(j as int));
    }
}

/// Two byte offsets that are both character boundaries keep their order as
/// character indices.
pub proof fn lemma_char_at_byte_order(s: Seq<char>, b1: int, b2: int)
    requires
        char_at_byte(s, b1) is Some,
        char_at_byte(s, b2) is Some,
        b1 < b2,
    ensures
        char_at_byte(s, b1)->0 < char_at_byte(s, b2)->0,
{
    lemma_char_at_byte_sound(s, b1);
    lemma_char_at_byte_sound(s, b2);
    let j1 = char_at_byte(s, b1)->0 as int;
    let j2 = char_at_byte(s, b2)->0 as int;
    if j2 < j1 {
        lemma_byte_len_take_mono(s, j2, j1);
    }
}

/// Number of bytes in the UTF-8 encoding of `c`.
pub fn utf8_width_exec(c: char) -> (w: u128)
    ensures
        w == utf8_width(c),
{
    let v = c as u32;
    if v < 0x80 {
        1
    } else if v < 0x800 {
        2
    } else if v < 0x10000 {
        3
    } else {
        4
    }
}

/// Byte length of the UTF-8 encoding of `s[..k]`.
pub fn byte_len_prefix(s: &Vec<char>, k: usize) -> (b: u128)
    requires
        k <= s.len(),
    ensures
        b == byte_len(s@.take(k as int)),
        b <= 4 * k,
{
    let mut acc: u128 = 0;
    let mut i: usize = 0;
    assert(s@.take(0) =~= Seq::<char>::empty());
    while i < k
        invariant
            i <= k <= s.len(),
            acc == byte_len(s@.take(i as int)),
            acc <= 4 * i,
        decreases k - i,
    {
        proof {
            lemma_byte_len_take_step(s@, i as int);
        }
        acc = acc + utf8_width_exec(s[i]);
        i += 1;
    }
    acc
}

/// The character index at byte offset `b` of `s`, when `b` is a boundary.
pub fn char_index_at_byte(s: &Vec<char>, b: u128) -> (r: Option<usize>)
    ensures
        match r {
            Some(j) => char_at_byte(s@, b as int) == Some(j as nat),
            None => char_at_byte(s@, b as int) is None,
        },
{
    let mut acc: u128 = 0;
    let mut i: usize = 0;
    assert(s@.skip(0) =~= s@);
    while i < s.len() && acc < b
        invariant
            i <= s.len(),
            acc <= b,
            char_at_byte(s@, b as int) == match char_at_byte(s@.skip(i as int), b - acc) {
                Some(j) => Some((j + i) as nat),
                None => None::<nat>,
            },
        decreases s.len() - i,
    {
        let w = utf8_width_exec(s[i]);
        let ghost t = s@.skip(i as int);
        assert(t[0] == s@[i as int]);
        assert(t.drop_first() =~= s@.skip(i + 1));
        if w > b - acc {
            return None;
        }
        acc = acc + w;
        i += 1;
    }
    if acc == b {
        Some(i)
    } else {
        assert(s@.skip(i as int).len() == 0);
        None
    }
}


/// `trim_start(s[from..])` is `s[i..]` when `i` is the first non-white-space
/// index at or after `from`.
pub proof fn lemma_trim_start_from(s: Seq<char>, from: int, i: int)
    requires
        0 <= from <= i <= s.len(),
        forall|j: int| from <= j < i ==> is_ws(#[trigger] s[j]),
        i == s.len() || !is_ws(s[i]),
    ensures
        trim_start(s.skip(from)) == s.skip(i),
{
    let t = s.skip(from);
    assert forall|j: int| 0 <= j < i - from implies is_ws(#[trigger] t[j]) by {
        assert(t[j] == s[from + j]);
    }
    if i < s.len() {
        assert(t[i - from] == s[i]);
    }
    lemma_trim_start_skip(t, i - from);
    assert(t.skip(i - from) =~= s.skip(i));
}

pub proof fn lemma_trim_start_len(s: Seq<char>)
    ensures
        trim_start(s).len() <= s.len(),
    decreases s.len(),
{
    if s.len() > 0 && is_ws(s[0]) {
        lemma_trim_start_len(s.drop_first());
    }
}

pub proof fn lemma_trim_end_len(s: Seq<char>)
    ensures
        trim_end(s).len() <= s.len(),
    decreases s.len(),
{
    if s.len() > 0 && is_ws(s.last()) {
        lemma_trim_end_len(s.drop_last());
    }
}


/// Appends the characters of `s` to `dst`.
pub fn push_str(dst: &mut Vec<char>, s: &str)
    ensures
        final(dst)@ == old(dst)@ + s@,
{
    let cs = chars_of(s);
    append_chars(dst, &cs);
}


pub proof fn lemma_trim_start_first(s: Seq<char>)
    ensures
        trim_start(s).len() == 0 || !is_ws(trim_start(s)[0]),
    decreases s.len(),
{
    if s.len() > 0 && is_ws(s[0]) {
        lemma_trim_start_first(s.drop_first());
    }
}

pub proof fn lemma_trim_end_prefix(s: Seq<char>)
    ensures
        trim_end(s).len() <= s.len(),
        trim_end(s) == s.take(trim_end(s).len() as int),
        trim_end(s).len() == 0 || !is_ws(trim_end(s).last()),
    decreases s.len(),
{
    if s.len() > 0 && is_ws(s.last()) {
        lemma_trim_end_prefix(s.drop_last());
        let t = trim_end(s.drop_last());
        assert(s.drop_last().take(t.len() as int) =~= s.take(t.len() as int));
    } else {
        assert(s.take(s.len() as int) =~= s);
    }
}

/// A text whose ends are not white space is its own trim.
pub proof fn lemma_trim_noop(s: Seq<char>)
    requires
        s.len() > 0,
        !is_ws(s[0]),
        !is_ws(s.last()),
    ensures
        trim(s) == s,
{
}

/// Trimming twice is trimming once.
pub proof fn lemma_trim_idempotent(s: Seq<char>)
    ensures
        trim(trim(s)) == trim(s),
{
    let y = trim_start(s);
    let t = trim_end(y);
    lemma_trim_start_first(s);
    lemma_trim_end_prefix(y);
    if t.len() > 0 {
        assert(t[0] == y[0]);
        lemma_trim_noop(t);
    }
}


/// The byte model agrees with the UTF-8 encoding of vstd, which the
/// specification of `str::len` is stated over.
pub proof fn lemma_byte_len_is_utf8_len(s: Seq<char>)
    ensures
        byte_len(s) == vstd::utf8::encode_utf8(s).len(),
    decreases s.len(),
{
    if s.len() > 0 {
        vstd::utf8::char_is_scalar(s[0]);
        lemma_byte_len_is_utf8_len(s.drop_first());
    }
}

} // verus!
