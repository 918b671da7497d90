//! Route patterns: compiling a pattern into segments and matching a
//! concrete path against them, binding named parameters.

use vstd::prelude::*;
use crate::strmap::StrMap;
use crate::text::{segments, split_pieces, str_eq, views};

verus! {

/// A compiled pattern segment, as a mathematical value.
pub enum SegSpec {
    /// Matches exactly this text.
    Static(Seq<char>),
    /// Matches any one segment and binds it under this name.
    Param(Seq<char>),
    /// In last place: matches the rest of the path, one segment or more,
    /// and binds it under this name.
    Wildcard(Seq<char>),
}

/// One segment of a compiled route pattern.
pub enum PathSegment {
    /// A literal segment.
    Static(String),
    /// A named parameter, written `:name`.
    Param(String),
    /// A trailing wildcard, written `*name` as the pattern's last segment.
    Wildcard(String),
}

impl View for PathSegment {
    type V = SegSpec;

    open spec fn view(&self) -> SegSpec {
        match self {
            PathSegment::Static(s) => SegSpec::Static(s@),
            PathSegment::Param(s) => SegSpec::Param(s@),
            PathSegment::Wildcard(s) => SegSpec::Wildcard(s@),
        }
    }
}

/// The views of a sequence of compiled segments.
pub open spec fn seg_views(v: Seq<PathSegment>) -> Seq<SegSpec> {
    v.map_values(|s: PathSegment| s@)
}

/// How one non-empty piece of a pattern compiles; `last` tells whether it
/// ends the pattern.
pub open spec fn classify(piece: Seq<char>, last: bool) -> SegSpec {
    if piece.len() > 0 && piece[0] == ':' {
        SegSpec::Param(piece.drop_first())
    } else if last && piece.len() > 0 && piece[0] == '*' {
        SegSpec::Wildcard(piece.drop_first())
    } else {
        SegSpec::Static(piece)
    }
}

/// The compiled form of a pattern.
pub open spec fn compile(pattern: Seq<char>) -> Seq<SegSpec> {
    let parts = segments(pattern);
    Seq::new(parts.len(), |i: int| classify(parts[i], i == parts.len() - 1))
}

/// Whether the pattern ends in a wildcard.
pub open spec fn has_wildcard(pat: Seq<SegSpec>) -> bool {
    pat.len() > 0 && pat.last() is Wildcard
}

/// The number of pattern positions compared one to one with the path.
pub open spec fn positional(pat: Seq<SegSpec>) -> int {
    if has_wildcard(pat) {
        pat.len() - 1
    } else {
        pat.len() as int
    }
}

/// Whether one pattern segment accepts one path segment.
pub open spec fn seg_accepts(p: SegSpec, c: Seq<char>) -> bool {
    match p {
        SegSpec::Static(s) => s == c,
        _ => true,
    }
}

/// Whether the path has as many segments as the pattern needs.
pub open spec fn counts_fit(pat: Seq<SegSpec>, path: Seq<Seq<char>>) -> bool {
    if has_wildcard(pat) {
        path.len() >= pat.len()
    } else {
        path.len() == pat.len()
    }
}

/// Whether a path, as segments, matches a compiled pattern.
pub open spec fn pattern_matches(pat: Seq<SegSpec>, path: Seq<Seq<char>>) -> bool {
    counts_fit(pat, path) && forall|i: int| 0 <= i < positional(pat) ==> seg_accepts(pat[i], path[i])
}

/// Segments joined by single slashes.
pub open spec fn join_slash(s: Seq<Seq<char>>) -> Seq<char>
    decreases s.len(),
{
    if s.len() == 0 {
        Seq::empty()
    } else if s.len() == 1 {
        s[0]
    } else {
        join_slash(s.drop_last()) + seq!['/'] + s.last()
    }
}

/// The parameter map after comparing pattern positions from `k` on, left to
/// right, binding each parameter and stopping at the first static segment
/// that differs.
pub open spec fn walk(
    pat: Seq<SegSpec>,
    path: Seq<Seq<char>>,
    k: int,
    m: Map<Seq<char>, Seq<char>>,
) -> Map<Seq<char>, Seq<char>>
    decreases positional(pat) - k,
{
    if k < 0 || k >= positional(pat) {
        m
    } else {
        match pat[k] {
            SegSpec::Static(s) => if s == path[k] {
                walk(pat, path, k + 1, m)
            } else {
                m
            },
            SegSpec::Param(name) => walk(pat, path, k + 1, m.insert(name, path[k])),
            SegSpec::Wildcard(_) => walk(pat, path, k + 1, m),
        }
    }
}

/// The parameter map after matching `path` against `pat`, starting from `m`:
/// unchanged where the segment counts do not fit; otherwise the parameters
/// bound up to the first differing static segment, and on a full match with
/// a wildcard, the rest of the path under the wildcard's name.
pub open spec fn match_params(
    pat: Seq<SegSpec>,
    path: Seq<Seq<char>>,
    m: Map<Seq<char>, Seq<char>>,
) -> Map<Seq<char>, Seq<char>> {
    if !counts_fit(pat, path) {
        m
    } else {
        let bound = walk(pat, path, 0, m);
        if pattern_matches(pat, path) && has_wildcard(pat) {
            bound.insert(pat.last()->Wildcard_0, join_slash(path.skip(pat.len() - 1)))
        } else {
            bound
        }
    }
}

/// Whether `s` begins with `c`.
fn starts_with_char(s: &str, c: char) -> (r: bool)
    ensures
        r == (s@.len() > 0 && s@[0] == c),
{
    s.unicode_len() > 0 && s.get_char(0) == c
}

/// Compiles a pattern: its non-empty `/`-separated pieces, each a parameter
/// where it starts with `:`, the last one a wildcard where it starts with
/// `*`, the others literal.
pub fn parse_path_pattern(pattern: &str) -> (r: Vec<PathSegment>)
    ensures
        seg_views(r@) == compile(pattern@),
{
    let parts = split_pieces(pattern, false);
    let ghost pv = views(parts@);
    let n = parts.len();
    let mut out: Vec<PathSegment> = Vec::new();
    let mut i: usize = 0;
    while i < n
        invariant
            n == parts@.len(),
            pv == views(parts@),
            pv == segments(pattern@),
            i <= n,
            out@.len() == i,
            forall|j: int| 0 <= j < i ==> out@[j]@ == classify(pv[j], j == n - 1),
        decreases n - i,
    {
        let piece = parts[i].as_str();
        assert(piece@ == pv[i as int]);
        let len = piece.unicode_len();
        let seg = if starts_with_char(piece, ':') {
            PathSegment::Param(piece.substring_char(1, len).to_owned())
        } else if i + 1 == n && starts_with_char(piece, '*') {
            PathSegment::Wildcard(piece.substring_char(1, len).to_owned())
        } else {
            PathSegment::Static(piece.to_owned())
        };
        assert(piece@.drop_first() == piece@.subrange(1, len as int));
        out.push(seg);
        i = i + 1;
    }
    assert(seg_views(out@) =~= compile(pattern@));
    out
}

/// Segments `k..` of `parts` joined by single slashes.
fn join_from(parts: &Vec<String>, k: usize) -> (r: String)
    requires
        k <= parts@.len(),
    ensures
        r@ == join_slash(views(parts@).skip(k as int)),
{
    let n = parts.len();
    let mut out = String::new();
    let mut i: usize = k;
    proof {
        reveal_strlit("/");
        assert(views(parts@).skip(k as int).subrange(0, 0) =~= Seq::<Seq<char>>::empty());
    }
    while i < n
        invariant
            n == parts@.len(),
            k <= i <= n,
            out@ == join_slash(views(parts@).skip(k as int).subrange(0, i - k)),
            "/"@ == seq!['/'],
        decreases n - i,
    {
        let ghost all = views(parts@).skip(k as int);
        let ghost next = all.subrange(0, i - k + 1);
        assert(next.drop_last() =~= all.subrange(0, i - k));
        assert(next.last() == parts@[i as int]@);
        if i > k {
            out.append("/");
        }
        out.append(parts[i].as_str());
        proof {
            if i == k {
                assert(next.len() == 1);
            }
        }
        i = i + 1;
    }
    assert(views(parts@).skip(k as int).subrange(0, n - k) =~= views(parts@).skip(k as int));
    out
}

/// Matches `path` against a compiled pattern, writing bound parameters into
/// `params` as `match_params` describes.
pub fn match_segments(pattern: &Vec<PathSegment>, path: &str, params: &mut StrMap) -> (r: bool)
    requires
        old(params).wf(),
    ensures
        final(params).wf(),
        r == pattern_matches(seg_views(pattern@), segments(path@)),
        final(params)@ == match_params(seg_views(pattern@), segments(path@), old(params)@),
{
    let ghost pat = seg_views(pattern@);
    let parts = split_pieces(path, false);
    let ghost pv = views(parts@);
    let n = pattern.len();
    let wild = n > 0 && match &pattern[n - 1] {
        PathSegment::Wildcard(_) => true,
        _ => false,
    };
    assert(wild == has_wildcard(pat));
    if wild {
        if parts.len() < n {
            return false;
        }
    } else if parts.len() != n {
        return false;
    }
    let fixed = if wild { n - 1 } else { n };
    let mut i: usize = 0;
    while i < fixed
        invariant
            pat == seg_views(pattern@),
            pv == views(parts@),
            pv == segments(path@),
            n == pattern@.len(),
            fixed == positional(pat),
            fixed <= parts@.len(),
            counts_fit(pat, pv),
            i <= fixed,
            params.wf(),
            walk(pat, pv, 0, old(params)@) == walk(pat, pv, i as int, params@),
            forall|j: int| 0 <= j < i ==> seg_accepts(pat[j], pv[j]),
        decreases fixed - i,
    {
        assert(pat[i as int] == pattern@[i as int]@);
        assert(pv[i as int] == parts@[i as int]@);
        match &pattern[i] {
            PathSegment::Static(s) => {
                if !str_eq(s.as_str(), parts[i].as_str()) {
                    return false;
                }
            },
            PathSegment::Param(name) => {
                params.insert(name.clone(), parts[i].clone());
            },
            PathSegment::Wildcard(_) => {},
        }
        i = i + 1;
    }
    if wild {
        let value = join_from(&parts, n - 1);
        match &pattern[n - 1] {
            PathSegment::Wildcard(name) => {
                params.insert(name.clone(), value);
            },
            _ => {},
        }
    }
    true
}

/// Walking from `k` keeps the entry of a name that no parameter from `k`
/// on binds.
proof fn lemma_walk_keeps(
    pat: Seq<SegSpec>,
    path: Seq<Seq<char>>,
    k: int,
    m: Map<Seq<char>, Seq<char>>,
    n: Seq<char>,
)
    requires
        0 <= k,
        forall|j: int| k <= j < positional(pat) ==> pat[j] != SegSpec::Param(n),
    ensures
        walk(pat, path, k, m).contains_key(n) == m.contains_key(n),
        m.contains_key(n) ==> walk(pat, path, k, m)[n] == m[n],
    decreases positional(pat) - k,
{
    if k < positional(pat) {
        match pat[k] {
            SegSpec::Static(s) => {
                if s == path[k] {
                    lemma_walk_keeps(pat, path, k + 1, m, n);
                }
            },
            SegSpec::Param(x) => {
                lemma_walk_keeps(pat, path, k + 1, m.insert(x, path[k]), n);
            },
            SegSpec::Wildcard(_) => {
                lemma_walk_keeps(pat, path, k + 1, m, n);
            },
        }
    }
}

/// Where every position from `k` on accepts its path segment, a parameter
/// at `i` that no later parameter of its name overrides ends up bound to
/// the path segment at `i`.
proof fn lemma_walk_binds(
    pat: Seq<SegSpec>,
    path: Seq<Seq<char>>,
    k: int,
    m: Map<Seq<char>, Seq<char>>,
    i: int,
)
    requires
        0 <= k <= i < positional(pat),
        pat[i] is Param,
        forall|j: int| k <= j < positional(pat) ==> seg_accepts(pat[j], path[j]),
        forall|j: int| i < j < positional(pat) ==> pat[j] != pat[i],
    ensures
        walk(pat, path, k, m).contains_key(pat[i]->Param_0),
        walk(pat, path, k, m)[pat[i]->Param_0] == path[i],
    decreases i - k,
{
    let name = pat[i]->Param_0;
    if k == i {
        lemma_walk_keeps(pat, path, k + 1, m.insert(name, path[i]), name);
    } else {
        match pat[k] {
            SegSpec::Static(s) => {
                lemma_walk_binds(pat, path, k + 1, m, i);
            },
            SegSpec::Param(x) => {
                lemma_walk_binds(pat, path, k + 1, m.insert(x, path[k]), i);
            },
            SegSpec::Wildcard(_) => {
                lemma_walk_binds(pat, path, k + 1, m, i);
            },
        }
    }
}

/// Walking from `k` lays what a walk into an empty map binds over `m`.
proof fn lemma_walk_union(pat: Seq<SegSpec>, path: Seq<Seq<char>>, k: int, m: Map<Seq<char>, Seq<char>>)
    requires
        0 <= k,
    ensures
        walk(pat, path, k, m) == m.union_prefer_right(walk(pat, path, k, Map::empty())),
    decreases positional(pat) - k,
{
    let e = Map::<Seq<char>, Seq<char>>::empty();
    if k < positional(pat) {
        match pat[k] {
            SegSpec::Static(s) => {
                if s == path[k] {
                    lemma_walk_union(pat, path, k + 1, m);
                    lemma_walk_union(pat, path, k + 1, e);
                } else {
                    assert(m.union_prefer_right(e) =~= m);
                }
            },
            SegSpec::Param(x) => {
                let v = path[k];
                lemma_walk_union(pat, path, k + 1, m.insert(x, v));
                lemma_walk_union(pat, path, k + 1, e.insert(x, v));
                let w = walk(pat, path, k + 1, e);
                assert(m.insert(x, v).union_prefer_right(w) =~= m.union_prefer_right(
                    e.insert(x, v).union_prefer_right(w),
                ));
            },
            SegSpec::Wildcard(_) => {
                lemma_walk_union(pat, path, k + 1, m);
                lemma_walk_union(pat, path, k + 1, e);
            },
        }
    } else {
        assert(m.union_prefer_right(e) =~= m);
    }
}

/// Matching into a map keeps every entry that the match does not bind and
/// adds those it binds: the result is what a fresh map would get, laid over
/// the starting map.
pub proof fn lemma_match_params_union(pat: Seq<SegSpec>, path: Seq<Seq<char>>, m: Map<Seq<char>, Seq<char>>)
    ensures
        match_params(pat, path, m) == m.union_prefer_right(match_params(pat, path, Map::empty())),
{
    let e = Map::<Seq<char>, Seq<char>>::empty();
    if !counts_fit(pat, path) {
        assert(m.union_prefer_right(e) =~= m);
    } else {
        lemma_walk_union(pat, path, 0, m);
        if pattern_matches(pat, path) && has_wildcard(pat) {
            let w = walk(pat, path, 0, e);
            let name = pat.last()->Wildcard_0;
            let v = join_slash(path.skip(pat.len() - 1));
            assert(m.union_prefer_right(w).insert(name, v) =~= m.union_prefer_right(w.insert(name, v)));
        }
    }
}

/// A path matches a pattern that does not end in a wildcard exactly when
/// both have as many segments and each literal segment of the pattern
/// equals the path segment at its place. On a match, each parameter that
/// no later parameter of the same name overrides binds the path segment at
/// its place.
pub proof fn law_match_segmentwise(pattern: Seq<char>, path: Seq<char>, m: Map<Seq<char>, Seq<char>>)
    requires
        !has_wildcard(compile(pattern)),
    ensures
        pattern_matches(compile(pattern), segments(path)) <==> (compile(pattern).len()
            == segments(path).len() && forall|i: int|
            0 <= i < compile(pattern).len() && compile(pattern)[i] is Static
                ==> compile(pattern)[i]->Static_0 == segments(path)[i]),
        pattern_matches(compile(pattern), segments(path)) ==> forall|i: int|
            0 <= i < compile(pattern).len() && compile(pattern)[i] is Param && (forall|j: int|
                i < j < compile(pattern).len() ==> compile(pattern)[j] != compile(pattern)[i])
                ==> match_params(compile(pattern), segments(path), m).contains_key(
                compile(pattern)[i]->Param_0,
            ) && match_params(compile(pattern), segments(path), m)[compile(pattern)[i]->Param_0]
                == segments(path)[i],
{
    let pat = compile(pattern);
    let c = segments(path);
    assert forall|i: int| 0 <= i < pat.len() implies
        (seg_accepts(pat[i], c[i]) <==> (pat[i] is Static ==> pat[i]->Static_0 == c[i])) by {}
    if pattern_matches(pat, c) {
        assert forall|i: int|
            0 <= i < pat.len() && pat[i] is Param && (forall|j: int| i < j < pat.len() ==> pat[j] != pat[i])
            implies match_params(pat, c, m).contains_key(pat[i]->Param_0)
                && match_params(pat, c, m)[pat[i]->Param_0] == c[i] by {
            lemma_walk_binds(pat, c, 0, m, i);
        }
    }
}

/// Matching is idempotent: matching a pattern and a path again, into the
/// map that the first match produced, changes nothing. In particular two
/// matches into fresh maps bind the same parameters.
pub proof fn law_match_idempotent(pattern: Seq<char>, path: Seq<char>, m: Map<Seq<char>, Seq<char>>)
    ensures
        match_params(compile(pattern), segments(path), match_params(compile(pattern), segments(path), m))
            == match_params(compile(pattern), segments(path), m),
        match_params(compile(pattern), segments(path), m) == m.union_prefer_right(
            match_params(compile(pattern), segments(path), Map::empty()),
        ),
{
    let pat = compile(pattern);
    let c = segments(path);
    let x = match_params(pat, c, Map::empty());
    lemma_match_params_union(pat, c, m);
    lemma_match_params_union(pat, c, m.union_prefer_right(x));
    assert(m.union_prefer_right(x).union_prefer_right(x) =~= m.union_prefer_right(x));
}

} // verus!
