use vstd::prelude::*;

use crate::error::AppError;
use crate::text::{lemma_all_ws_trims_empty, is_ws, push_char, trim, trimmed};

verus! {

/// Either directory separator that a client may use.
pub open spec fn is_sep(c: char) -> bool {
    c == '/' || c == '\\'
}

/// `s` without its leading separators.
pub open spec fn strip_seps(s: Seq<char>) -> Seq<char>
    decreases s.len(),
{
    if s.len() > 0 && is_sep(s[0]) {
        strip_seps(s.drop_first())
    } else {
        s
    }
}

/// A drive letter followed by a colon, which would anchor the path elsewhere.
pub open spec fn has_drive_prefix(s: Seq<char>) -> bool {
    s.len() >= 2 && (('a' <= s[0] && s[0] <= 'z') || ('A' <= s[0] && s[0] <= 'Z')) && s[1] == ':'
}

/// A `..` segment starts at index `i` of `s`.
pub open spec fn parent_at(s: Seq<char>, i: int) -> bool {
    &&& 0 <= i
    &&& i + 2 <= s.len()
    &&& s[i] == '.'
    &&& s[i + 1] == '.'
    &&& (i == 0 || is_sep(s[i - 1]))
    &&& (i + 2 == s.len() || is_sep(s[i + 2]))
}

/// Some segment of `s`, split at either separator, is `..`.
pub open spec fn has_parent_segment(s: Seq<char>) -> bool {
    exists|i: int| parent_at(s, i)
}

/// The form of a client path that is joined onto the root.
pub open spec fn normalized(p: Seq<char>) -> Seq<char> {
    strip_seps(trimmed(p))
}

/// The client path is accepted by `resolve_project_path`.
pub open spec fn accepts(p: Seq<char>) -> bool {
    &&& trimmed(p).len() > 0
    &&& !has_drive_prefix(normalized(p))
    &&& !has_parent_segment(normalized(p))
}

/// `root` as the start of a path below it.
pub open spec fn dir_prefix(root: Seq<char>) -> Seq<char> {
    if root.len() == 0 || root.last() == '/' {
        root
    } else {
        root.push('/')
    }
}

/// `rel` joined under `root` as `Path::join` does it: a `rel` that starts
/// with `/` is absolute and replaces `root`.
pub open spec fn join_spec(root: Seq<char>, rel: Seq<char>) -> Seq<char> {
    if rel.len() > 0 && rel[0] == '/' {
        rel
    } else {
        dir_prefix(root) + rel
    }
}

/// `s` without trailing `/` characters.
pub open spec fn trailing_trimmed(s: Seq<char>) -> Seq<char>
    decreases s.len(),
{
    if s.len() > 0 && s.last() == '/' {
        trailing_trimmed(s.drop_last())
    } else {
        s
    }
}

/// What follows `root` in `abs`, when `abs` is `root` or lies below it,
/// component by component; a trailing `/` on `root` does not matter.
pub open spec fn remainder_under(root: Seq<char>, abs: Seq<char>) -> Option<Seq<char>> {
    let rb = trailing_trimmed(root);
    if rb.len() <= abs.len() && abs.subrange(0, rb.len() as int) == rb && (abs.len() == rb.len()
        || abs[rb.len() as int] == '/') {
        Some(abs.subrange(rb.len() as int, abs.len() as int))
    } else {
        None
    }
}

/// Index of the first separator in `s`, or its length.
pub open spec fn first_sep(s: Seq<char>) -> int
    decreases s.len(),
{
    if s.len() == 0 {
        0
    } else if is_sep(s[0]) {
        0
    } else {
        1 + first_sep(s.drop_first())
    }
}

/// The segments of `s`, split at either separator; empty ones included.
pub open spec fn segments(s: Seq<char>) -> Seq<Seq<char>>
    decreases s.len(),
{
    let k = first_sep(s);
    if k < 0 || k >= s.len() {
        seq![s]
    } else {
        seq![s.subrange(0, k)] + segments(s.subrange(k + 1, s.len() as int))
    }
}

pub open spec fn parent_segment() -> Seq<char> {
    seq!['.', '.']
}

/// A segment that names something: neither empty nor `.`.
pub open spec fn names_something(g: Seq<char>) -> bool {
    g.len() > 0 && g != seq!['.']
}

/// The segments that name something, joined with `/`.
pub open spec fn rejoin(gs: Seq<Seq<char>>) -> Seq<char>
    decreases gs.len(),
{
    if gs.len() == 0 {
        Seq::empty()
    } else {
        let prev = rejoin(gs.drop_last());
        let g = gs.last();
        if !names_something(g) {
            prev
        } else if prev.len() == 0 {
            g
        } else {
            prev + seq!['/'] + g
        }
    }
}

/// `abs` relative to `root` in its outward form: its segments below `root`
/// that name something, joined with `/`. None when `abs` is not `root` or
/// below it, or when a segment below `root` is `..`.
pub open spec fn relative_of(root: Seq<char>, abs: Seq<char>) -> Option<Seq<char>> {
    match remainder_under(root, abs) {
        None => None,
        Some(r) => if segments(r).contains(parent_segment()) {
            None
        } else {
            Some(rejoin(segments(r)))
        },
    }
}

proof fn lemma_first_sep(s: Seq<char>)
    ensures
        0 <= first_sep(s) <= s.len(),
        forall|m: int| 0 <= m < first_sep(s) ==> !is_sep(#[trigger] s[m]),
        first_sep(s) < s.len() ==> is_sep(s[first_sep(s)]),
    decreases s.len(),
{
    if s.len() > 0 && !is_sep(s[0]) {
        lemma_first_sep(s.drop_first());
        assert forall|m: int| 0 <= m < first_sep(s) implies !is_sep(#[trigger] s[m]) by {
            if m > 0 {
                assert(s[m] == s.drop_first()[m - 1]);
            }
        }
    }
}

/// `k` is where the first separator of `s` stands.
proof fn lemma_first_sep_at(s: Seq<char>, k: int)
    requires
        0 <= k <= s.len(),
        forall|m: int| 0 <= m < k ==> !is_sep(#[trigger] s[m]),
        k < s.len() ==> is_sep(s[k]),
    ensures
        first_sep(s) == k,
{
    lemma_first_sep(s);
    if first_sep(s) < k {
        assert(!is_sep(s[first_sep(s)]));
    }
    if first_sep(s) > k {
        assert(!is_sep(s[k]));
    }
}

proof fn lemma_rejoin_skips_leading_empty(gs: Seq<Seq<char>>)
    ensures
        rejoin(seq![Seq::<char>::empty()] + gs) == rejoin(gs),
    decreases gs.len(),
{
    let e = Seq::<char>::empty();
    let l = seq![e] + gs;
    if gs.len() == 0 {
        assert(l =~= seq![e]);
        assert(l.drop_last() =~= Seq::<Seq<char>>::empty());
        assert(rejoin(l.drop_last()) == Seq::<char>::empty());
        assert(!names_something(l.last()));
        assert(rejoin(l) == rejoin(l.drop_last()));
    } else {
        assert(l.drop_last() =~= seq![e] + gs.drop_last());
        assert(l.last() == gs.last());
        lemma_rejoin_skips_leading_empty(gs.drop_last());
        assert(rejoin(l.drop_last()) == rejoin(gs.drop_last()));
    }
}

/// Separators in front of a path change neither its outward form nor
/// whether it has a `..` segment.
proof fn lemma_leading_slashes(x: Seq<char>, n: Seq<char>)
    requires
        forall|i: int| 0 <= i < x.len() ==> #[trigger] x[i] == '/',
    ensures
        rejoin(segments(x + n)) == rejoin(segments(n)),
        segments(x + n).contains(parent_segment()) == segments(n).contains(parent_segment()),
    decreases x.len(),
{
    if x.len() > 0 {
        let y = x + n;
        let rest = x.drop_first() + n;
        assert(y[0] == '/');
        assert(first_sep(y) == 0);
        assert(y.subrange(0, 0) =~= Seq::<char>::empty());
        assert(y.subrange(1, y.len() as int) =~= rest);
        assert(segments(y) == seq![Seq::<char>::empty()] + segments(rest));
        lemma_leading_slashes(x.drop_first(), n);
        lemma_rejoin_skips_leading_empty(segments(rest));
        let e = Seq::<char>::empty();
        assert(segments(y).contains(parent_segment()) == segments(rest).contains(parent_segment()))
            by {
            if segments(y).contains(parent_segment()) {
                let i = choose|i: int| 0 <= i < segments(y).len() && segments(y)[i] == parent_segment();
                assert(i > 0);
                assert(segments(rest)[i - 1] == parent_segment());
            }
            if segments(rest).contains(parent_segment()) {
                let i = choose|i: int|
                    0 <= i < segments(rest).len() && segments(rest)[i] == parent_segment();
                assert(segments(y)[i + 1] == parent_segment());
            }
        }
    }
}

/// A `..` among the segments is a `..` segment of the text.
proof fn lemma_segments_parent(s: Seq<char>)
    requires
        segments(s).contains(parent_segment()),
    ensures
        has_parent_segment(s),
    decreases s.len(),
{
    lemma_first_sep(s);
    let k = first_sep(s);
    if k >= s.len() {
        assert(segments(s) == seq![s]);
        assert(s == parent_segment());
        assert(parent_at(s, 0));
    } else {
        let head = s.subrange(0, k);
        let rest = s.subrange(k + 1, s.len() as int);
        assert(segments(s) == seq![head] + segments(rest));
        let i = choose|i: int| 0 <= i < segments(s).len() && segments(s)[i] == parent_segment();
        if i == 0 {
            assert(head == parent_segment());
            assert(k == 2);
            assert(s[0] == head[0] && s[1] == head[1]);
            assert(parent_at(s, 0));
        } else {
            assert(segments(rest)[i - 1] == parent_segment());
            lemma_segments_parent(rest);
            let j = choose|j: int| parent_at(rest, j);
            assert(rest[j] == s[j + k + 1]);
            assert(rest[j + 1] == s[j + k + 2]);
            if j > 0 {
                assert(rest[j - 1] == s[j + k]);
            }
            if j + 2 < rest.len() {
                assert(rest[j + 2] == s[j + k + 3]);
            }
            assert(parent_at(s, j + k + 1));
        }
    }
}

proof fn lemma_trailing_split(s: Seq<char>)
    ensures
        trailing_trimmed(s) == s.subrange(0, trailing_trimmed(s).len() as int),
        trailing_trimmed(s).len() <= s.len(),
        forall|i: int| trailing_trimmed(s).len() <= i < s.len() ==> #[trigger] s[i] == '/',
        trailing_trimmed(s).len() < s.len() || trailing_trimmed(s) == s,
        trailing_trimmed(s).len() == 0 || trailing_trimmed(s).last() != '/',
    decreases s.len(),
{
    if s.len() > 0 && s.last() == '/' {
        lemma_trailing_split(s.drop_last());
        let t = trailing_trimmed(s);
        assert(t == s.drop_last().subrange(0, t.len() as int));
        assert(t =~= s.subrange(0, t.len() as int));
        assert forall|i: int| t.len() <= i < s.len() implies #[trigger] s[i] == '/' by {
            if i < s.len() - 1 {
                assert(s[i] == s.drop_last()[i]);
            }
        }
    } else {
        assert(s.subrange(0, s.len() as int) =~= s);
    }
}

pub fn strip_separators(s: &str) -> (r: &str)
    ensures
        r@ == strip_seps(s@),
{
    let n = s.unicode_len();
    let mut i: usize = 0;
    assert(s@.subrange(0, n as int) =~= s@);
    while i < n && (s.get_char(i) == '/' || s.get_char(i) == '\\')
        invariant
            n == s@.len(),
            i <= n,
            strip_seps(s@) == strip_seps(s@.subrange(i as int, n as int)),
        decreases n - i,
    {
        assert(s@.subrange(i as int, n as int).drop_first() =~= s@.subrange(
            i as int + 1,
            n as int,
        ));
        i = i + 1;
    }
    let r = s.substring_char(i, n);
    assert(strip_seps(r@) == r@) by {
        if i < n {
            assert(r@[0] == s@[i as int]);
        }
    }
    r
}

pub fn drive_prefixed(s: &str) -> (r: bool)
    ensures
        r == has_drive_prefix(s@),
{
    if s.unicode_len() < 2 {
        return false;
    }
    let c = s.get_char(0);
    (('a' <= c && c <= 'z') || ('A' <= c && c <= 'Z')) && s.get_char(1) == ':'
}

fn is_separator(c: char) -> (r: bool)
    ensures
        r == is_sep(c),
{
    c == '/' || c == '\\'
}

pub fn contains_parent_segment(s: &str) -> (r: bool)
    ensures
        r == has_parent_segment(s@),
{
    let n = s.unicode_len();
    let mut i: usize = 0;
    while i < n && n - i >= 2
        invariant
            n == s@.len(),
            i <= n,
            forall|k: int| 0 <= k < i ==> !parent_at(s@, k),
        decreases n - i,
    {
        if s.get_char(i) == '.' && s.get_char(i + 1) == '.' && (i == 0 || is_separator(
            s.get_char(i - 1),
        )) && (i + 2 == n || is_separator(s.get_char(i + 2))) {
            assert(parent_at(s@, i as int));
            return true;
        }
        i = i + 1;
    }
    assert forall|k: int| !parent_at(s@, k) by {
        if 0 <= k < i {
        }
    }
    false
}

/// `rel` joined under `root`, as `Path::join` does it.
pub fn join_path(root: &str, rel: &str) -> (r: String)
    ensures
        r@ == join_spec(root@, rel@),
{
    if rel.unicode_len() > 0 && rel.get_char(0) == '/' {
        return String::from_str(rel);
    }
    let mut r = String::from_str(root);
    let n = root.unicode_len();
    if n > 0 && root.get_char(n - 1) != '/' {
        push_char(&mut r, '/');
    }
    r.append(rel);
    r
}

/// Resolves a client-supplied path against the project root `base`.
///
/// Surrounding whitespace and leading separators are removed; an empty
/// path is `InvalidPath`; a drive prefix or any `..` segment is `PathEscape`.
/// No file system access takes place.
pub fn resolve_project_path(base: &str, relative: &str) -> (r: Result<String, AppError>)
    ensures
        match r {
            Ok(p) => accepts(relative@) && p@ == join_spec(base@, normalized(relative@)),
            Err(e) => !accepts(relative@) && if trimmed(relative@).len() == 0 {
                e is InvalidPath
            } else {
                e is PathEscape
            },
        },
{
    let t = trim(relative);
    if t.unicode_len() == 0 {
        return Err(AppError::InvalidPath);
    }
    let n = strip_separators(t);
    if drive_prefixed(n) {
        return Err(AppError::PathEscape);
    }
    if contains_parent_segment(n) {
        return Err(AppError::PathEscape);
    }
    Ok(join_path(base, n))
}

/// `path` relative to the project root `base`, segment by segment: empty
/// and `.` segments dropped, joined with `/`. `PathEscape` if it is not
/// `base` or below it, or if a segment below `base` is `..`.
pub fn to_relative_string(base: &str, path: &str) -> (r: Result<String, AppError>)
    ensures
        match r {
            Ok(s) => relative_of(base@, path@) == Some(s@),
            Err(e) => relative_of(base@, path@) is None && e is PathEscape,
        },
{
    let mut rb: usize = base.unicode_len();
    assert(base@.subrange(0, rb as int) =~= base@);
    while rb > 0 && base.get_char(rb - 1) == '/'
        invariant
            rb <= base@.len(),
            trailing_trimmed(base@) == trailing_trimmed(base@.subrange(0, rb as int)),
        decreases rb,
    {
        assert(base@.subrange(0, rb as int).drop_last() =~= base@.subrange(0, rb - 1));
        rb = rb - 1;
    }
    let ghost t = base@.subrange(0, rb as int);
    assert(trailing_trimmed(t) == t) by {
        if rb > 0 {
            assert(t.last() == base@[rb - 1]);
        }
    }
    let np = path.unicode_len();
    if rb > np {
        return Err(AppError::PathEscape);
    }
    if !same_prefix(base, path, rb) {
        assert(path@.subrange(0, rb as int) != t) by {
            assert(base@.subrange(0, rb as int) == t);
        }
        return Err(AppError::PathEscape);
    }
    assert(path@.subrange(0, rb as int) == t);
    if rb < np && path.get_char(rb) != '/' {
        return Err(AppError::PathEscape);
    }
    let rest = path.substring_char(rb, np);
    match canonical_segments(rest) {
        Some(s) => Ok(s),
        None => Err(AppError::PathEscape),
    }
}

/// The segments of `s` that name something, joined with `/`; none when a
/// segment is `..`.
fn canonical_segments(s: &str) -> (r: Option<String>)
    ensures
        match r {
            Some(t) => !segments(s@).contains(parent_segment()) && t@ == rejoin(segments(s@)),
            None => segments(s@).contains(parent_segment()),
        },
{
    let n = s.unicode_len();
    let mut out = String::new();
    let mut i: usize = 0;
    let ghost mut done: Seq<Seq<char>> = Seq::empty();
    assert(s@.subrange(0, n as int) =~= s@);
    assert(segments(s@) =~= done + segments(s@.subrange(0, n as int)));
    loop
        invariant
            n == s@.len(),
            i <= n,
            segments(s@) == done + segments(s@.subrange(i as int, n as int)),
            out@ == rejoin(done),
            !done.contains(parent_segment()),
        decreases n - i,
    {
        let mut j: usize = i;
        while j < n && !is_separator(s.get_char(j))
            invariant
                n == s@.len(),
                i <= j <= n,
                forall|m: int| i <= m < j ==> !is_sep(#[trigger] s@[m]),
            decreases n - j,
        {
            j = j + 1;
        }
        let ghost t = s@.subrange(i as int, n as int);
        let ghost k = j - i;
        proof {
            assert forall|m: int| 0 <= m < k implies !is_sep(#[trigger] t[m]) by {
                assert(t[m] == s@[i + m]);
            }
            if k < t.len() {
                assert(t[k] == s@[j as int]);
            }
            lemma_first_sep_at(t, k);
        }
        let seg = s.substring_char(i, j);
        assert(seg@ =~= t.subrange(0, k));
        let ghost segs_t = segments(t);
        let ghost next = done.push(seg@);
        let is_parent = seg.unicode_len() == 2 && seg.get_char(0) == '.' && seg.get_char(1) == '.';
        let is_dot = seg.unicode_len() == 1 && seg.get_char(0) == '.';
        assert(segs_t[0] == seg@);
        if is_parent {
            assert(seg@ =~= parent_segment());
            assert(segments(s@)[done.len() as int] == seg@);
            return None;
        }
        assert(seg@ != parent_segment());
        assert(names_something(seg@) == !(seg@.len() == 0 || is_dot)) by {
            if is_dot {
                assert(seg@ =~= seq!['.']);
            }
        }
        if !(seg.unicode_len() == 0 || is_dot) {
            if out.unicode_len() > 0 {
                push_char(&mut out, '/');
            }
            out.append(seg);
        }
        proof {
            assert(next.drop_last() =~= done);
            assert(next.last() == seg@);
            assert(!next.contains(parent_segment())) by {
                if next.contains(parent_segment()) {
                    let q = choose|q: int| 0 <= q < next.len() && next[q] == parent_segment();
                    if q < done.len() {
                        assert(done[q] == parent_segment());
                    }
                }
            }
        }
        if j == n {
            assert(segs_t == seq![t]);
            assert(t =~= seg@);
            proof {
                assert(segments(s@) =~= next);
                done = next;
            }
            return Some(out);
        }
        proof {
            let u = t.subrange(k + 1, t.len() as int);
            assert(u =~= s@.subrange(j + 1, n as int));
            assert(segs_t == seq![seg@] + segments(u));
            assert(segments(s@) =~= next + segments(u));
            done = next;
        }
        i = j + 1;
    }
}

/// The first `k` characters of `a` and `b` agree.
fn same_prefix(a: &str, b: &str, k: usize) -> (r: bool)
    requires
        k <= a@.len(),
        k <= b@.len(),
    ensures
        r == (a@.subrange(0, k as int) == b@.subrange(0, k as int)),
{
    let mut i: usize = 0;
    while i < k
        invariant
            k <= a@.len(),
            k <= b@.len(),
            i <= k,
            forall|j: int| 0 <= j < i ==> a@[j] == b@[j],
        decreases k - i,
    {
        if a.get_char(i) != b.get_char(i) {
            assert(a@.subrange(0, k as int)[i as int] != b@.subrange(0, k as int)[i as int]);
            return false;
        }
        i = i + 1;
    }
    assert(a@.subrange(0, k as int) =~= b@.subrange(0, k as int));
    true
}

/// The canonical form of a client path: trimmed, without leading
/// separators, its segments that name something joined with `/`.
pub open spec fn outward_form(p: Seq<char>) -> Seq<char> {
    rejoin(segments(normalized(p)))
}

proof fn lemma_strip_seps_head(t: Seq<char>)
    ensures
        strip_seps(t).len() > 0 ==> !is_sep(strip_seps(t)[0]),
    decreases t.len(),
{
    if t.len() > 0 && is_sep(t[0]) {
        lemma_strip_seps_head(t.drop_first());
    }
}

proof fn lemma_strip_keeps_parent(t: Seq<char>, i: int)
    requires
        parent_at(t, i),
    ensures
        has_parent_segment(strip_seps(t)),
    decreases t.len(),
{
    if t.len() > 0 && is_sep(t[0]) {
        let u = t.drop_first();
        assert(i >= 1);
        assert(parent_at(u, i - 1)) by {
            assert(u[i - 1] == t[i]);
            assert(u[i] == t[i + 1]);
            if i - 1 > 0 {
                assert(u[i - 2] == t[i - 1]);
            }
            if i + 2 < t.len() {
                assert(u[i + 1] == t[i + 2]);
            }
        }
        lemma_strip_keeps_parent(u, i - 1);
    }
}

/// Any path that holds a `..` segment, in any position and between any mix
/// of separators, is refused as an escape.
pub proof fn law_parent_segment_escapes(p: Seq<char>)
    requires
        has_parent_segment(trimmed(p)),
    ensures
        trimmed(p).len() > 0,
        !accepts(p),
{
    let i = choose|i: int| parent_at(trimmed(p), i);
    lemma_strip_keeps_parent(trimmed(p), i);
}

/// An empty or all-whitespace path is refused as invalid.
pub proof fn law_blank_path_invalid(p: Seq<char>)
    requires
        forall|i: int| 0 <= i < p.len() ==> is_ws(#[trigger] p[i]),
    ensures
        trimmed(p).len() == 0,
        !accepts(p),
{
    lemma_all_ws_trims_empty(p);
}

/// Taking an accepted path's resolution back relative to the same
/// (non-empty) root gives the path's canonical form.
pub proof fn law_resolve_round_trip(root: Seq<char>, p: Seq<char>)
    requires
        root.len() > 0,
        accepts(p),
    ensures
        relative_of(root, join_spec(root, normalized(p))) == Some(outward_form(p)),
{
    let n = normalized(p);
    let rb = trailing_trimmed(root);
    lemma_trailing_split(root);
    let abs = join_spec(root, n);
    lemma_strip_seps_head(trimmed(p));
    // `abs` is `rb`, then one or more `/`, then `n`.
    let x = dir_prefix(root).subrange(rb.len() as int, dir_prefix(root).len() as int);
    assert(dir_prefix(root) =~= rb + x);
    assert forall|i: int| 0 <= i < x.len() implies #[trigger] x[i] == '/' by {
        if root.last() == '/' {
            assert(x[i] == root[rb.len() + i]);
        } else {
            assert(rb == root);
        }
    }
    assert(x.len() > 0) by {
        if root.last() != '/' {
            assert(rb == root);
        } else {
            lemma_trailing_split(root.drop_last());
            assert(rb == trailing_trimmed(root.drop_last()));
        }
    }
    assert(abs =~= rb + (x + n));
    assert(abs.subrange(0, rb.len() as int) =~= rb);
    assert(abs[rb.len() as int] == x[0]);
    assert(abs.subrange(rb.len() as int, abs.len() as int) =~= x + n);
    lemma_leading_slashes(x, n);
    if segments(n).contains(parent_segment()) {
        lemma_segments_parent(n);
    }
}

/// A single segment that names something and holds no separator.
pub open spec fn plain_segment(g: Seq<char>) -> bool {
    &&& names_something(g)
    &&& g != parent_segment()
    &&& forall|i: int| 0 <= i < g.len() ==> !is_sep(#[trigger] g[i])
}

/// `b` appended to the relative path `a`.
pub open spec fn join_relative(a: Seq<char>, b: Seq<char>) -> Seq<char> {
    if a.len() == 0 {
        b
    } else {
        a + seq!['/'] + b
    }
}

proof fn lemma_segments_append(x: Seq<char>, g: Seq<char>)
    requires
        forall|i: int| 0 <= i < g.len() ==> !is_sep(#[trigger] g[i]),
    ensures
        segments(x + seq!['/'] + g) == segments(x) + seq![g],
    decreases x.len(),
{
    let y = x + seq!['/'] + g;
    lemma_first_sep(x);
    let k = first_sep(x);
    lemma_first_sep_at(g, g.len() as int);
    assert(g.subrange(0, g.len() as int) =~= g);
    assert(segments(g) == seq![g]);
    if k == x.len() {
        assert forall|m: int| 0 <= m < k implies !is_sep(#[trigger] y[m]) by {
            assert(y[m] == x[m]);
        }
        assert(y[k] == '/');
        lemma_first_sep_at(y, k);
        assert(y.subrange(0, k) =~= x);
        assert(y.subrange(k + 1, y.len() as int) =~= g);
        assert(segments(x) == seq![x]);
        assert(segments(y) =~= segments(x) + seq![g]);
    } else {
        assert forall|m: int| 0 <= m < k implies !is_sep(#[trigger] y[m]) by {
            assert(y[m] == x[m]);
        }
        assert(y[k] == x[k]);
        lemma_first_sep_at(y, k);
        let x2 = x.subrange(k + 1, x.len() as int);
        assert(y.subrange(0, k) =~= x.subrange(0, k));
        assert(y.subrange(k + 1, y.len() as int) =~= x2 + seq!['/'] + g);
        lemma_segments_append(x2, g);
        assert(segments(x) == seq![x.subrange(0, k)] + segments(x2));
        assert(segments(y) =~= segments(x) + seq![g]);
    }
}

proof fn lemma_rejoin_push(gs: Seq<Seq<char>>, g: Seq<char>)
    ensures
        rejoin(gs.push(g)) == if names_something(g) {
            join_relative(rejoin(gs), g)
        } else {
            rejoin(gs)
        },
{
    assert(gs.push(g).drop_last() =~= gs);
}

proof fn lemma_no_parent_in_prefix(a: Seq<Seq<char>>, g: Seq<char>)
    requires
        g != parent_segment(),
        !a.contains(parent_segment()),
    ensures
        !(a + seq![g]).contains(parent_segment()),
{
    if (a + seq![g]).contains(parent_segment()) {
        let i = choose|i: int| 0 <= i < (a + seq![g]).len() && (a + seq![g])[i] == parent_segment();
        if i < a.len() {
            assert(a[i] == parent_segment());
        }
    }
}

/// A plain name joined under a directory that lies under `base` lies under
/// `base` too, one segment further down.
pub proof fn lemma_relative_of_child(base: Seq<char>, dir: Seq<char>, g: Seq<char>)
    requires
        relative_of(base, dir) is Some,
        dir.len() > 0,
        plain_segment(g),
    ensures
        relative_of(base, join_spec(dir, g)) == Some(join_relative(relative_of(base, dir)->Some_0, g)),
{
    let rb = trailing_trimmed(base);
    lemma_trailing_split(base);
    let rt = dir.subrange(rb.len() as int, dir.len() as int);
    assert(!segments(rt).contains(parent_segment()));
    let abs = join_spec(dir, g);
    assert(g.len() > 0 && !is_sep(g[0]));
    if dir.last() != '/' {
        assert(abs =~= dir + seq!['/'] + g);
        assert(abs.subrange(0, rb.len() as int) =~= dir.subrange(0, rb.len() as int));
        if rb.len() < dir.len() {
            assert(abs[rb.len() as int] == dir[rb.len() as int]);
        }
        assert(abs.subrange(rb.len() as int, abs.len() as int) =~= rt + seq!['/'] + g);
        lemma_segments_append(rt, g);
        lemma_no_parent_in_prefix(segments(rt), g);
        lemma_rejoin_push(segments(rt), g);
        assert(segments(rt) + seq![g] =~= segments(rt).push(g));
    } else {
        assert(rb.len() < dir.len());
        let x = rt.drop_last();
        assert(rt =~= x + seq!['/'] + Seq::<char>::empty());
        lemma_segments_append(x, Seq::<char>::empty());
        lemma_segments_append(x, g);
        assert(abs =~= dir + g);
        assert(abs.subrange(0, rb.len() as int) =~= dir.subrange(0, rb.len() as int));
        assert(abs[rb.len() as int] == dir[rb.len() as int]);
        assert(abs.subrange(rb.len() as int, abs.len() as int) =~= x + seq!['/'] + g);
        assert(!segments(x).contains(parent_segment())) by {
            if segments(x).contains(parent_segment()) {
                let i = choose|i: int|
                    0 <= i < segments(x).len() && segments(x)[i] == parent_segment();
                assert(segments(rt)[i] == parent_segment());
            }
        }
        lemma_no_parent_in_prefix(segments(x), g);
        assert(segments(x) + seq![g] =~= segments(x).push(g));
        assert(segments(x) + seq![Seq::<char>::empty()] =~= segments(x).push(Seq::<char>::empty()));
        lemma_rejoin_push(segments(x), g);
        lemma_rejoin_push(segments(x), Seq::<char>::empty());
    }
}

} // verus!
