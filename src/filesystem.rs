use vstd::prelude::*;

use crate::error::AppError;
use crate::sandbox::{join_path, join_spec};
use crate::text::{push_char, views};

verus! {

/// The ASCII lower-case form of an upper-case letter; other characters stay.
pub open spec fn ascii_lower(c: char) -> char {
    match c {
        'A' => 'a',
        'B' => 'b',
        'C' => 'c',
        'D' => 'd',
        'E' => 'e',
        'F' => 'f',
        'G' => 'g',
        'H' => 'h',
        'I' => 'i',
        'J' => 'j',
        'K' => 'k',
        'L' => 'l',
        'M' => 'm',
        'N' => 'n',
        'O' => 'o',
        'P' => 'p',
        'Q' => 'q',
        'R' => 'r',
        'S' => 's',
        'T' => 't',
        'U' => 'u',
        'V' => 'v',
        'W' => 'w',
        'X' => 'x',
        'Y' => 'y',
        'Z' => 'z',
        _ => c,
    }
}

fn to_ascii_lower(c: char) -> (r: char)
    ensures
        r == ascii_lower(c),
{
    match c {
        'A' => 'a',
        'B' => 'b',
        'C' => 'c',
        'D' => 'd',
        'E' => 'e',
        'F' => 'f',
        'G' => 'g',
        'H' => 'h',
        'I' => 'i',
        'J' => 'j',
        'K' => 'k',
        'L' => 'l',
        'M' => 'm',
        'N' => 'n',
        'O' => 'o',
        'P' => 'p',
        'Q' => 'q',
        'R' => 'r',
        'S' => 's',
        'T' => 't',
        'U' => 'u',
        'V' => 'v',
        'W' => 'w',
        'X' => 'x',
        'Y' => 'y',
        'Z' => 'z',
        _ => c,
    }
}

/// What a name character becomes in a slug.
pub open spec fn slug_char(c: char) -> char {
    if ('a' <= c && c <= 'z') || ('0' <= c && c <= '9') {
        c
    } else if 'A' <= c && c <= 'Z' {
        ascii_lower(c)
    } else {
        '-'
    }
}

pub open spec fn trim_dashes_start(s: Seq<char>) -> Seq<char>
    decreases s.len(),
{
    if s.len() > 0 && s[0] == '-' {
        trim_dashes_start(s.drop_first())
    } else {
        s
    }
}

pub open spec fn trim_dashes_end(s: Seq<char>) -> Seq<char>
    decreases s.len(),
{
    if s.len() > 0 && s.last() == '-' {
        trim_dashes_end(s.drop_last())
    } else {
        s
    }
}

/// Each non-overlapping `--`, from the left, replaced by `-`.
pub open spec fn collapse_dashes(s: Seq<char>) -> Seq<char>
    decreases s.len(),
{
    if s.len() == 0 {
        s
    } else if s.len() >= 2 && s[0] == '-' && s[1] == '-' {
        seq!['-'] + collapse_dashes(s.subrange(2, s.len() as int))
    } else {
        seq![s[0]] + collapse_dashes(s.drop_first())
    }
}

/// The slug of a project name.
pub open spec fn slug_of(name: Seq<char>) -> Seq<char> {
    collapse_dashes(trim_dashes_end(trim_dashes_start(name.map_values(|c: char| slug_char(c)))))
}

/// The directory of the project with slug `slug` under the storage root.
pub fn project_path(storage_root: &str, slug: &str) -> (r: String)
    ensures
        r@ == join_spec(join_spec(storage_root@, "projects"@), slug@),
{
    let projects = join_path(storage_root, "projects");
    join_path(projects.as_str(), slug)
}

/// A file-system friendly slug of a project name: lower-case ASCII letters
/// and digits kept, everything else a dash, outer dashes removed and `--`
/// shortened to `-`.
pub fn sanitize_slug(name: &str) -> (r: String)
    ensures
        r@ == slug_of(name@),
{
    let n = name.unicode_len();
    let mut mapped = String::new();
    let mut i: usize = 0;
    while i < n
        invariant
            n == name@.len(),
            i <= n,
            mapped@ == name@.subrange(0, i as int).map_values(|c: char| slug_char(c)),
        decreases n - i,
    {
        let c = name.get_char(i);
        let d = if ('a' <= c && c <= 'z') || ('0' <= c && c <= '9') {
            c
        } else if 'A' <= c && c <= 'Z' {
            to_ascii_lower(c)
        } else {
            '-'
        };
        push_char(&mut mapped, d);
        assert(name@.subrange(0, i as int + 1).map_values(|c: char| slug_char(c)) =~= name@.subrange(
            0,
            i as int,
        ).map_values(|c: char| slug_char(c)).push(d));
        i = i + 1;
    }
    assert(name@.subrange(0, n as int) =~= name@);
    let m = mapped.as_str();
    let k = mapped.unicode_len();
    let mut a: usize = 0;
    assert(m@.subrange(0, k as int) =~= m@);
    while a < k && m.get_char(a) == '-'
        invariant
            k == m@.len(),
            a <= k,
            trim_dashes_start(m@) == trim_dashes_start(m@.subrange(a as int, k as int)),
        decreases k - a,
    {
        assert(m@.subrange(a as int, k as int).drop_first() =~= m@.subrange(a as int + 1, k as int));
        a = a + 1;
    }
    let ghost t = m@.subrange(a as int, k as int);
    assert(trim_dashes_start(m@) == t) by {
        if a < k {
            assert(t[0] == m@[a as int]);
        }
    }
    let mut b: usize = k;
    while b > a && m.get_char(b - 1) == '-'
        invariant
            k == m@.len(),
            a <= b <= k,
            t == m@.subrange(a as int, k as int),
            trim_dashes_end(t) == trim_dashes_end(m@.subrange(a as int, b as int)),
        decreases b,
    {
        assert(m@.subrange(a as int, b as int).drop_last() =~= m@.subrange(a as int, b as int - 1));
        b = b - 1;
    }
    let ghost u = m@.subrange(a as int, b as int);
    assert(trim_dashes_end(t) == u) by {
        if b > a {
            assert(u.last() == m@[b - 1]);
        }
    }
    let mut r = String::new();
    let mut j: usize = a;
    while j < b
        invariant
            a <= j <= b,
            b <= k,
            k == m@.len(),
            u == m@.subrange(a as int, b as int),
            r@ + collapse_dashes(m@.subrange(j as int, b as int)) == collapse_dashes(u),
        decreases b - j,
    {
        let ghost w = m@.subrange(j as int, b as int);
        let c = m.get_char(j);
        assert(w[0] == c);
        if c == '-' && j + 1 < b && m.get_char(j + 1) == '-' {
            assert(w[1] == m@[j + 1]);
            assert(w.subrange(2, w.len() as int) =~= m@.subrange(j as int + 2, b as int));
            push_char(&mut r, '-');
            assert(r@ + collapse_dashes(m@.subrange(j as int + 2, b as int)) =~= collapse_dashes(u)) by {
                assert(collapse_dashes(w) == seq!['-'] + collapse_dashes(m@.subrange(j as int + 2, b as int)));
            }
            j = j + 2;
        } else {
            assert(w.drop_first() =~= m@.subrange(j as int + 1, b as int));
            push_char(&mut r, c);
            assert(r@ + collapse_dashes(m@.subrange(j as int + 1, b as int)) =~= collapse_dashes(u)) by {
                assert(collapse_dashes(w) == seq![c] + collapse_dashes(m@.subrange(j as int + 1, b as int)));
            }
            j = j + 1;
        }
    }
    assert(collapse_dashes(m@.subrange(b as int, b as int)) =~= Seq::<char>::empty());
    assert(r@ =~= collapse_dashes(u));
    r
}

/// Refuses a slug that an existing project already uses.
pub fn assert_slug_unique(existing: &[String], slug: &str) -> (r: Result<(), AppError>)
    ensures
        r is Ok == !views(existing@).contains(slug@),
        r is Err ==> r->Err_0 is Message,
{
    let mut i: usize = 0;
    while i < existing.len()
        invariant
            i <= existing@.len(),
            forall|j: int| 0 <= j < i ==> existing@[j]@ != slug@,
        decreases existing@.len() - i,
    {
        if existing[i].as_str().unicode_len() == slug.unicode_len() && same_text(existing[i].as_str(), slug) {
            assert(views(existing@)[i as int] == slug@);
            let mut msg = String::from_str("A project with slug '");
            msg.append(slug);
            msg.append("' already exists");
            return Err(AppError::Message(msg));
        }
        i = i + 1;
    }
    assert(!views(existing@).contains(slug@)) by {
        if views(existing@).contains(slug@) {
            let j = choose|j: int| 0 <= j < views(existing@).len() && views(existing@)[j] == slug@;
            assert(existing@[j]@ == slug@);
        }
    }
    Ok(())
}

/// The two strings hold the same characters.
pub fn same_text(a: &str, b: &str) -> (r: bool)
    ensures
        r == (a@ == b@),
{
    let n = a.unicode_len();
    if n != b.unicode_len() {
        return false;
    }
    let mut i: usize = 0;
    while i < n
        invariant
            n == a@.len(),
            n == b@.len(),
            i <= n,
            forall|j: int| 0 <= j < i ==> a@[j] == b@[j],
        decreases n - i,
    {
        if a.get_char(i) != b.get_char(i) {
            return false;
        }
        i = i + 1;
    }
    assert(a@ =~= b@);
    true
}

} // verus!
