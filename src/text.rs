//! Character-level helpers on strings.

use vstd::prelude::*;

verus! {

/// The views of a sequence of strings.
pub open spec fn views(v: Seq<String>) -> Seq<Seq<char>> {
    v.map_values(|x: String| x@)
}

/// What `char::is_whitespace` answers for `c`.
pub uninterp spec fn is_space(c: char) -> bool;

/// Relies on `char::is_whitespace`: whether `c` has the Unicode
/// White_Space property, a function of `c` alone.
#[verifier::external_body]
pub(crate) fn whitespace(c: char) -> (r: bool)
    ensures
        r == is_space(c),
{
    c.is_whitespace()
}

/// What `str::to_uppercase` returns for `s`.
pub uninterp spec fn upper_of(s: Seq<char>) -> Seq<char>;

/// Relies on `str::to_uppercase`: the Unicode uppercase mapping of the
/// text, a function of the text alone.
#[verifier::external_body]
pub(crate) fn to_upper(s: &str) -> (r: String)
    ensures
        r@ == upper_of(s@),
{
    s.to_uppercase()
}

/// Whether `c` separates pieces: any whitespace when `ws`, else a slash.
pub open spec fn is_sep(c: char, ws: bool) -> bool {
    if ws {
        is_space(c)
    } else {
        c == '/'
    }
}

/// Reading `s` from the left: the non-empty pieces already closed by a
/// separator, and the piece still open at the end.
pub open spec fn split_state(s: Seq<char>, ws: bool) -> (Seq<Seq<char>>, Seq<char>)
    decreases s.len(),
{
    if s.len() == 0 {
        (Seq::empty(), Seq::empty())
    } else {
        let (done, cur) = split_state(s.drop_last(), ws);
        if is_sep(s.last(), ws) {
            if cur.len() > 0 {
                (done.push(cur), Seq::empty())
            } else {
                (done, Seq::empty())
            }
        } else {
            (done, cur.push(s.last()))
        }
    }
}

/// The non-empty pieces of `s` between separators, in order.
pub open spec fn split_nonempty(s: Seq<char>, ws: bool) -> Seq<Seq<char>> {
    let (done, cur) = split_state(s, ws);
    if cur.len() > 0 {
        done.push(cur)
    } else {
        done
    }
}

/// The path segments of `s`: its `/`-separated pieces with the empty ones dropped.
pub open spec fn segments(s: Seq<char>) -> Seq<Seq<char>> {
    split_nonempty(s, false)
}

/// The whitespace-separated words of `s`.
pub open spec fn words(s: Seq<char>) -> Seq<Seq<char>> {
    split_nonempty(s, true)
}

/// `s` without its leading whitespace.
pub open spec fn trim_start(s: Seq<char>) -> Seq<char>
    decreases s.len(),
{
    if s.len() > 0 && is_space(s[0]) {
        trim_start(s.drop_first())
    } else {
        s
    }
}

/// `s` without its trailing whitespace.
pub open spec fn trim_end(s: Seq<char>) -> Seq<char>
    decreases s.len(),
{
    if s.len() > 0 && is_space(s.last()) {
        trim_end(s.drop_last())
    } else {
        s
    }
}

/// `s` without leading or trailing whitespace.
pub open spec fn trimmed(s: Seq<char>) -> Seq<char> {
    trim_end(trim_start(s))
}

/// The index of the first `c` in `s`, or the length of `s` where there is none.
pub open spec fn index_of(s: Seq<char>, c: char) -> int
    decreases s.len(),
{
    if s.len() == 0 {
        0
    } else if s[0] == c {
        0
    } else {
        1 + index_of(s.drop_first(), c)
    }
}

fn separates(c: char, ws: bool) -> (r: bool)
    ensures
        r == is_sep(c, ws),
{
    if ws {
        whitespace(c)
    } else {
        c == '/'
    }
}

/// Splits `s` into its non-empty pieces between separators: whitespace
/// when `ws`, slashes otherwise.
pub fn split_pieces(s: &str, ws: bool) -> (r: Vec<String>)
    ensures
        views(r@) == split_nonempty(s@, ws),
{
    let n = s.unicode_len();
    let mut out: Vec<String> = Vec::new();
    let mut start: usize = 0;
    let mut i: usize = 0;
    while i < n
        invariant
            n == s@.len(),
            start <= i <= n,
            split_state(s@.subrange(0, i as int), ws) == (views(out@), s@.subrange(start as int, i as int)),
        decreases n - i,
    {
        let c = s.get_char(i);
        proof {
            assert(s@.subrange(0, i + 1).drop_last() == s@.subrange(0, i as int));
            assert(s@.subrange(0, i + 1).last() == c);
        }
        if separates(c, ws) {
            if start < i {
                let piece = s.substring_char(start, i).to_owned();
                let ghost prev = out@;
                out.push(piece);
                proof {
                    assert(views(out@) =~= views(prev).push(piece@));
                }
            }
            start = i + 1;
        } else {
            proof {
                assert(s@.subrange(start as int, i + 1) == s@.subrange(start as int, i as int).push(c));
            }
        }
        i = i + 1;
    }
    assert(s@.subrange(0, n as int) == s@);
    if start < n {
        let piece = s.substring_char(start, n).to_owned();
        let ghost prev = out@;
        out.push(piece);
        assert(views(out@) =~= views(prev).push(piece@));
    }
    out
}

/// Compares two string slices character by character.
pub fn str_eq(a: &str, b: &str) -> (r: bool)
    ensures
        r == (a@ == b@),
{
    let n = a.unicode_len();
    if n != b.unicode_len() {
        return false;
    }
    let mut i: usize = 0;
    while i < n
        invariant
            n == a@.len(),
            n == b@.len(),
            0 <= i <= n,
            a@.subrange(0, i as int) == b@.subrange(0, i as int),
        decreases n - i,
    {
        if a.get_char(i) != b.get_char(i) {
            assert(a@[i as int] != b@[i as int]);
            return false;
        }
        assert(a@.subrange(0, i + 1) == a@.subrange(0, i as int).push(a@[i as int]));
        assert(b@.subrange(0, i + 1) == b@.subrange(0, i as int).push(b@[i as int]));
        i = i + 1;
    }
    assert(a@ == a@.subrange(0, n as int));
    assert(b@ == b@.subrange(0, n as int));
    true
}

/// `s` without leading or trailing whitespace.
pub fn trim(s: &str) -> (r: String)
    ensures
        r@ == trimmed(s@),
{
    let n = s.unicode_len();
    let mut a: usize = 0;
    assert(s@.subrange(0, n as int) == s@);
    while a < n && whitespace(s.get_char(a))
        invariant
            n == s@.len(),
            a <= n,
            trim_start(s@) == trim_start(s@.subrange(a as int, n as int)),
        decreases n - a,
    {
        assert(s@.subrange(a as int, n as int).drop_first() == s@.subrange(a + 1, n as int));
        a = a + 1;
    }
    assert(trim_start(s@) == s@.subrange(a as int, n as int));
    let mut b: usize = n;
    while b > a && whitespace(s.get_char(b - 1))
        invariant
            n == s@.len(),
            a <= b <= n,
            trimmed(s@) == trim_end(s@.subrange(a as int, b as int)),
        decreases b - a,
    {
        assert(s@.subrange(a as int, b as int).drop_last() == s@.subrange(a as int, b - 1));
        b = b - 1;
    }
    s.substring_char(a, b).to_owned()
}

/// The index of the first `c` in `s`, or its length where there is none.
pub fn find_char(s: &str, c: char) -> (r: usize)
    ensures
        r as int == index_of(s@, c),
        r <= s@.len(),
        r < s@.len() ==> s@[r as int] == c,
        forall|j: int| 0 <= j < r ==> s@[j] != c,
{
    let n = s.unicode_len();
    let mut i: usize = 0;
    assert(s@.subrange(0, n as int) == s@);
    while i < n && s.get_char(i) != c
        invariant
            n == s@.len(),
            i <= n,
            index_of(s@, c) == i + index_of(s@.subrange(i as int, n as int), c),
            forall|j: int| 0 <= j < i ==> s@[j] != c,
        decreases n - i,
    {
        assert(s@.subrange(i as int, n as int).drop_first() == s@.subrange(i + 1, n as int));
        i = i + 1;
    }
    i
}

/// Every piece closed so far, and so every piece of the split, is non-empty.
pub proof fn lemma_split_state_nonempty(s: Seq<char>, ws: bool)
    ensures
        forall|i: int| 0 <= i < split_state(s, ws).0.len() ==> split_state(s, ws).0[i].len() > 0,
    decreases s.len(),
{
    if s.len() > 0 {
        lemma_split_state_nonempty(s.drop_last(), ws);
        let (done, cur) = split_state(s.drop_last(), ws);
        if is_sep(s.last(), ws) && cur.len() > 0 {
            assert forall|i: int| 0 <= i < done.push(cur).len() implies done.push(cur)[i].len() > 0 by {
                if i < done.len() {
                    assert(done.push(cur)[i] == done[i]);
                }
            }
        }
    }
}

/// Every piece of a split is non-empty.
pub proof fn lemma_pieces_nonempty(s: Seq<char>, ws: bool)
    ensures
        forall|i: int| 0 <= i < split_nonempty(s, ws).len() ==> split_nonempty(s, ws)[i].len() > 0,
{
    lemma_split_state_nonempty(s, ws);
    let (done, cur) = split_state(s, ws);
    if cur.len() > 0 {
        assert forall|i: int| 0 <= i < done.push(cur).len() implies done.push(cur)[i].len() > 0 by {
            if i < done.len() {
                assert(done.push(cur)[i] == done[i]);
            }
        }
    }
}

} // verus!
