use vstd::prelude::*;

use crate::error::AppError;
use crate::sandbox::{
    join_relative, lemma_relative_of_child, plain_segment, accepts, join_path, join_spec, normalized, relative_of, resolve_project_path,
    to_relative_string,
};
use crate::text::{push_char, trimmed, views};

verus! {

broadcast use vstd::seq_lib::seq_to_set_is_finite;

/// What `sanitize_filename` makes of a file name.
pub uninterp spec fn sanitized_of(name: Seq<char>) -> Seq<char>;

/// Relies on `sanitize_filename::sanitize_with_options` with fixed options:
/// the result is a function of the name alone, and holds no `/` or `\` (the
/// illegal-character pass removes them; the later passes only remove text or
/// cut the end off), and is never `.` or `..` (an all-dots name is removed,
/// trailing dots are removed, and a cut leaves at least 252 bytes).
/// The Windows rules are applied on every host, so that the result depends
/// on the name alone and not on the machine: on other systems names such as
/// `CON.txt` also change.
#[verifier::external_body]
fn sanitize_name(name: &str) -> (r: String)
    ensures
        r@ == sanitized_of(name@),
        forall|i: int| 0 <= i < r@.len() ==> r@[i] != '/' && r@[i] != '\\',
        r@ != seq!['.'],
        r@ != seq!['.', '.'],
{
    let options = sanitize_filename::Options { windows: true, truncate: true, replacement: "" };
    sanitize_filename::sanitize_with_options(name, options)
}

/// The name used when sanitizing leaves nothing.
pub open spec fn placeholder() -> Seq<char> {
    seq!['a', 's', 's', 'e', 't']
}

/// The base file name of an imported asset.
pub open spec fn asset_base_name(source_name: Seq<char>) -> Seq<char> {
    if sanitized_of(source_name).len() == 0 {
        placeholder()
    } else {
        sanitized_of(source_name)
    }
}

pub open spec fn digit_char(d: nat) -> char {
    if d == 0 {
        '0'
    } else if d == 1 {
        '1'
    } else if d == 2 {
        '2'
    } else if d == 3 {
        '3'
    } else if d == 4 {
        '4'
    } else if d == 5 {
        '5'
    } else if d == 6 {
        '6'
    } else if d == 7 {
        '7'
    } else if d == 8 {
        '8'
    } else {
        '9'
    }
}

/// The decimal digits of `n`, without leading zeros.
pub open spec fn decimal(n: nat) -> Seq<char>
    decreases n,
{
    if n < 10 {
        seq![digit_char(n)]
    } else {
        decimal(n / 10).push(digit_char(n % 10))
    }
}

/// Index of the last `.` in `s`, or -1.
pub open spec fn last_dot(s: Seq<char>) -> int
    decreases s.len(),
{
    if s.len() == 0 {
        -1
    } else if s.last() == '.' {
        s.len() - 1
    } else {
        last_dot(s.drop_last())
    }
}

/// The stem of a file name: all before the last dot, unless that dot leads.
pub open spec fn stem_of(s: Seq<char>) -> Seq<char> {
    if last_dot(s) <= 0 {
        s
    } else {
        s.subrange(0, last_dot(s))
    }
}

/// The dot and extension of a file name, or nothing.
pub open spec fn dot_ext_of(s: Seq<char>) -> Seq<char> {
    if last_dot(s) <= 0 {
        Seq::empty()
    } else {
        s.subrange(last_dot(s), s.len() as int)
    }
}

/// The `c`-th name tried for `name`: `name` itself, then `stem-c.ext`.
pub open spec fn candidate(name: Seq<char>, c: nat) -> Seq<char> {
    if c == 0 {
        name
    } else {
        stem_of(name).push('-') + decimal(c) + dot_ext_of(name)
    }
}

/// `r` is the first candidate for `name` that `taken` does not hold.
pub open spec fn first_free(name: Seq<char>, taken: Seq<Seq<char>>, r: Seq<char>) -> bool {
    exists|c: nat|
        {
            &&& r == candidate(name, c)
            &&& !taken.contains(r)
            &&& forall|d: nat| d < c ==> taken.contains(#[trigger] candidate(name, d))
        }
}

/// `s` holds no directory separator.
pub open spec fn no_separators(s: Seq<char>) -> bool {
    forall|i: int| 0 <= i < s.len() ==> #[trigger] s[i] != '/' && s[i] != '\\'
}

proof fn lemma_decimal_no_separators(n: nat)
    ensures
        no_separators(decimal(n)),
    decreases n,
{
    if n >= 10 {
        lemma_decimal_no_separators(n / 10);
        assert forall|i: int| 0 <= i < decimal(n).len() implies #[trigger] decimal(n)[i] != '/'
            && decimal(n)[i] != '\\' by {
            if i < decimal(n / 10).len() {
                assert(decimal(n)[i] == decimal(n / 10)[i]);
            }
        }
    }
}

proof fn lemma_last_dot(s: Seq<char>)
    ensures
        -1 <= last_dot(s) < s.len(),
    decreases s.len(),
{
    if s.len() > 0 && s.last() != '.' {
        lemma_last_dot(s.drop_last());
    }
}

proof fn lemma_candidate_no_separators(name: Seq<char>, c: nat)
    requires
        no_separators(name),
    ensures
        no_separators(candidate(name, c)),
{
    if c > 0 {
        lemma_decimal_no_separators(c);
        lemma_last_dot(name);
        let st = stem_of(name).push('-');
        let d = decimal(c);
        let e = dot_ext_of(name);
        let x = candidate(name, c);
        assert forall|i: int| 0 <= i < x.len() implies #[trigger] x[i] != '/' && x[i] != '\\' by {
            if i < st.len() - 1 {
                assert(x[i] == stem_of(name)[i]);
                assert(stem_of(name)[i] == name[i]);
            } else if i == st.len() - 1 {
                assert(x[i] == '-');
            } else if i < st.len() + d.len() {
                assert(x[i] == d[i - st.len()]);
            } else {
                assert(last_dot(name) > 0);
                assert(x[i] == e[i - st.len() - d.len()]);
                assert(e[i - st.len() - d.len()] == name[last_dot(name) + i - st.len() - d.len()]);
            }
        }
    }
}

proof fn lemma_decimal_len(n: nat)
    ensures
        decimal(n).len() >= 1,
        n >= 10 ==> decimal(n).len() >= 2,
    decreases n,
{
    if n >= 10 {
        lemma_decimal_len(n / 10);
    }
}

proof fn lemma_decimal_injective(a: nat, b: nat)
    requires
        decimal(a) == decimal(b),
    ensures
        a == b,
    decreases a,
{
    lemma_decimal_len(a);
    lemma_decimal_len(b);
    if a >= 10 && b >= 10 {
        assert(decimal(a / 10) =~= decimal(a).drop_last());
        assert(decimal(b / 10) =~= decimal(b).drop_last());
        lemma_decimal_injective(a / 10, b / 10);
        assert(decimal(a).last() == digit_char(a % 10));
        assert(decimal(b).last() == digit_char(b % 10));
        assert(a % 10 == b % 10);
        assert(a == (a / 10) * 10 + a % 10);
        assert(b == (b / 10) * 10 + b % 10);
    } else {
        assert(a < 10 && b < 10);
        assert(decimal(a) == seq![digit_char(a)]);
        assert(decimal(b) == seq![digit_char(b)]);
        assert(seq![digit_char(a)][0] == digit_char(a));
        assert(seq![digit_char(b)][0] == digit_char(b));
        assert(decimal(a)[0] == decimal(b)[0]);
    }
}

proof fn lemma_candidate_injective(name: Seq<char>, a: nat, b: nat)
    requires
        a >= 1,
        b >= 1,
        candidate(name, a) == candidate(name, b),
    ensures
        a == b,
{
    let p = stem_of(name).push('-');
    let e = dot_ext_of(name);
    let x = candidate(name, a);
    assert(x.len() == p.len() + decimal(a).len() + e.len());
    assert(decimal(a).len() == decimal(b).len());
    let lo = p.len() as int;
    let hi = lo + decimal(a).len();
    assert(x.subrange(lo, hi) =~= decimal(a));
    assert(candidate(name, b).subrange(lo, hi) =~= decimal(b));
    lemma_decimal_injective(a, b);
}

fn digit(d: u64) -> (c: char)
    requires
        d < 10,
    ensures
        c == digit_char(d as nat),
{
    if d == 0 {
        '0'
    } else if d == 1 {
        '1'
    } else if d == 2 {
        '2'
    } else if d == 3 {
        '3'
    } else if d == 4 {
        '4'
    } else if d == 5 {
        '5'
    } else if d == 6 {
        '6'
    } else if d == 7 {
        '7'
    } else if d == 8 {
        '8'
    } else {
        '9'
    }
}

/// Appends the decimal digits of `n`.
pub fn push_decimal(s: &mut String, n: u64)
    ensures
        final(s)@ == old(s)@ + decimal(n as nat),
    decreases n,
{
    if n < 10 {
        push_char(s, digit(n));
        assert(old(s)@.push(digit_char(n as nat)) =~= old(s)@ + decimal(n as nat));
    } else {
        push_decimal(s, n / 10);
        push_char(s, digit(n % 10));
        assert(old(s)@ + decimal((n / 10) as nat) + seq![digit_char((n % 10) as nat)]
            =~= old(s)@ + decimal(n as nat));
    }
}

fn last_dot_index(s: &str) -> (r: Option<usize>)
    ensures
        match r {
            Some(k) => last_dot(s@) == k as int && k < s@.len(),
            None => last_dot(s@) == -1,
        },
{
    let mut j: usize = s.unicode_len();
    assert(s@.subrange(0, j as int) =~= s@);
    while j > 0
        invariant
            j <= s@.len(),
            last_dot(s@) == last_dot(s@.subrange(0, j as int)),
        decreases j,
    {
        let ghost t = s@.subrange(0, j as int);
        if s.get_char(j - 1) == '.' {
            assert(t.last() == s@[j - 1]);
            return Some(j - 1);
        }
        assert(t.drop_last() =~= s@.subrange(0, j - 1));
        j = j - 1;
    }
    None
}

fn contains_name(taken: &Vec<String>, name: &String) -> (r: bool)
    ensures
        r == views(taken@).contains(name@),
{
    let mut i: usize = 0;
    while i < taken.len()
        invariant
            i <= taken@.len(),
            forall|k: int| 0 <= k < i ==> taken@[k]@ != name@,
        decreases taken.len() - i,
    {
        if taken[i] == *name {
            assert(views(taken@)[i as int] == name@);
            return true;
        }
        i = i + 1;
    }
    assert(!views(taken@).contains(name@)) by {
        if views(taken@).contains(name@) {
            let k = choose|k: int| 0 <= k < views(taken@).len() && views(taken@)[k] == name@;
            assert(taken@[k]@ == name@);
        }
    }
    false
}

/// The first name of the form `name`, `stem-1.ext`, `stem-2.ext`, ... that
/// `taken` does not hold.
pub fn first_free_name(name: &str, taken: &Vec<String>) -> (r: String)
    ensures
        first_free(name@, views(taken@), r@),
        no_separators(name@) ==> no_separators(r@),
        plain_segment(name@) ==> plain_segment(r@),
{
    let r = first_free_name_in(name, taken);
    proof {
        if no_separators(name@) {
            let c = choose|c: nat|
                {
                    &&& r@ == candidate(name@, c)
                    &&& !views(taken@).contains(r@)
                    &&& forall|d: nat| d < c ==> views(taken@).contains(#[trigger] candidate(name@, d))
                };
            lemma_candidate_no_separators(name@, c);
            if c > 0 {
                let x = r@;
                let k = stem_of(name@).len() as int;
                lemma_decimal_len(c);
                assert(x[k] == '-');
                assert(x != seq!['.']) by {
                    if x == seq!['.'] {
                        assert(seq!['.'][0] == '.');
                        assert(k == 0);
                    }
                }
                assert(x != seq!['.', '.']) by {
                    if x == seq!['.', '.'] {
                        assert(seq!['.', '.'][0] == '.' && seq!['.', '.'][1] == '.');
                    }
                }
                assert forall|i: int| 0 <= i < x.len() implies !crate::sandbox::is_sep(
                    #[trigger] x[i],
                ) by {
                    assert(x[i] != '/' && x[i] != '\\');
                }
            }
        }
    }
    r
}

fn first_free_name_in(name: &str, taken: &Vec<String>) -> (r: String)
    ensures
        first_free(name@, views(taken@), r@),
{
    let plain = String::from_str(name);
    if !contains_name(taken, &plain) {
        assert(forall|d: nat| d < 0 ==> views(taken@).contains(#[trigger] candidate(name@, d)));
        assert(plain@ == candidate(name@, 0));
        return plain;
    }
    let n = name.unicode_len();
    let dot = last_dot_index(name);
    let split: usize = match dot {
        Some(k) => if k == 0 { n } else { k },
        None => n,
    };
    let stem = name.substring_char(0, split);
    let ext = name.substring_char(split, n);
    assert(stem@ == stem_of(name@)) by {
        assert(name@.subrange(0, n as int) =~= name@);
    }
    assert(ext@ == dot_ext_of(name@)) by {
        assert(name@.subrange(n as int, n as int) =~= Seq::<char>::empty());
    }
    let ghost tv = views(taken@);
    let ghost mut tried: Set<Seq<char>> = Set::empty().insert(name@);
    proof {
        tv.lemma_cardinality_of_set();
        assert(tried.len() == 1);
        assert forall|x: Seq<char>| tried.contains(x) implies tv.to_set().contains(x) by {
        }
    }
    let mut counter: usize = 1;
    let total = taken.len();
    loop
        invariant
            1 <= counter,
            counter <= taken@.len(),
            total == taken@.len(),
            tv == views(taken@),
            tv.len() == taken@.len(),
            tv.to_set().len() <= taken@.len(),
            stem@ == stem_of(name@),
            ext@ == dot_ext_of(name@),
            stem@.len() + ext@.len() == name@.len(),
            tv.contains(name@),
            tried.finite(),
            tried.len() == counter,
            tried.subset_of(tv.to_set()),
            forall|x: Seq<char>|
                tried.contains(x) <==> x == name@ || exists|c: nat|
                    1 <= c < counter && x == #[trigger] candidate(name@, c),
            forall|d: nat| 1 <= d < counter ==> tv.contains(#[trigger] candidate(name@, d)),
        decreases taken@.len() + 1 - counter,
    {
        let mut cand = String::from_str(stem);
        push_char(&mut cand, '-');
        push_decimal(&mut cand, counter as u64);
        cand.append(ext);
        assert(cand@ =~= candidate(name@, counter as nat));
        if !contains_name(taken, &cand) {
            assert forall|d: nat| d < counter implies tv.contains(
                #[trigger] candidate(name@, d),
            ) by {
                if d == 0 {
                    assert(candidate(name@, 0) == name@);
                }
            }
            return cand;
        }
        proof {
            assert(cand@.len() > name@.len()) by {
                lemma_decimal_len(counter as nat);
                assert(cand@.len() == stem@.len() + 1 + decimal(counter as nat).len() + ext@.len());
            }
            assert(!tried.contains(cand@)) by {
                if tried.contains(cand@) && cand@ != name@ {
                    let c = choose|c: nat| 1 <= c < counter && cand@ == candidate(name@, c);
                    lemma_candidate_injective(name@, c, counter as nat);
                }
            }
            tried = tried.insert(cand@);
            assert(tried.len() == counter + 1);
            vstd::set_lib::lemma_len_subset(tried, tv.to_set());
            assert(tv.to_set().contains(cand@));
            assert(tried.subset_of(tv.to_set()));
            assert(counter + 1 <= taken@.len());
            assert forall|x: Seq<char>|
                tried.contains(x) <==> x == name@ || exists|c: nat|
                    1 <= c < counter + 1 && x == #[trigger] candidate(name@, c) by {
                if tried.contains(x) && x != cand@ && x != name@ {
                    let c = choose|c: nat| 1 <= c < counter && x == candidate(name@, c);
                    assert(1 <= c < counter + 1);
                }
                if exists|c: nat| 1 <= c < counter + 1 && x == #[trigger] candidate(name@, c) {
                    let c = choose|c: nat| 1 <= c < counter + 1 && x == candidate(name@, c);
                    if c < counter {
                        assert(1 <= c < counter && x == candidate(name@, c));
                    }
                }
            }
        }
        counter = counter + 1;
    }
}

/// The name under which an asset with file name `source_name` is stored, given
/// the names already present in the target directory.
pub fn asset_file_name(source_name: &str, taken: &Vec<String>) -> (r: String)
    ensures
        first_free(asset_base_name(source_name@), views(taken@), r@),
        no_separators(r@),
        plain_segment(r@),
{
    let clean = sanitize_name(source_name);
    let base = if clean.unicode_len() == 0 {
        let p = String::from_str("asset");
        proof {
            reveal_strlit("asset");
        }
        assert(p@ =~= placeholder());
        assert(p@ != seq!['.']) by {
            assert(p@[0] == 'a');
        }
        assert(p@ != seq!['.', '.']) by {
            assert(p@[0] == 'a');
        }
        p
    } else {
        clean
    };
    assert(plain_segment(base@)) by {
        assert forall|i: int| 0 <= i < base@.len() implies !crate::sandbox::is_sep(
            #[trigger] base@[i],
        ) by {
            if clean@.len() == 0 {
                assert(base@ == placeholder());
            }
        }
    }
    first_free_name(base.as_str(), taken)
}

/// The target directory of an import, resolved under `base`; `assets/images`
/// when none is named.
pub fn asset_target_dir(base: &str, target_dir: Option<String>) -> (r: Result<String, AppError>)
    ensures
        ({
            let rel = match target_dir {
                Some(t) => t@,
                None => "assets/images"@,
            };
            match r {
                Ok(p) => accepts(rel) && p@ == join_spec(base@, normalized(rel)),
                Err(e) => !accepts(rel) && if trimmed(rel).len() == 0 {
                    e is InvalidPath
                } else {
                    e is PathEscape
                },
            }
        }),
{
    match target_dir {
        Some(t) => resolve_project_path(base, t.as_str()),
        None => resolve_project_path(base, "assets/images"),
    }
}

/// Where an imported file goes: the first free name for `source_name` in
/// `target_dir`, whose entries are `taken`. Returns the absolute path and the
/// path relative to `base`; `PathEscape` if the target is not under `base`.
pub fn place_asset(base: &str, target_dir: &str, source_name: &str, taken: &Vec<String>) -> (r:
    Result<(String, String), AppError>)
    ensures
        exists|name: Seq<char>|
            {
                &&& first_free(asset_base_name(source_name@), views(taken@), name)
                &&& no_separators(name)
                &&& match r {
                    Ok((abs, rel)) => abs@ == join_spec(target_dir@, name) && relative_of(
                        base@,
                        abs@,
                    ) == Some(rel@),
                    Err(e) => relative_of(base@, join_spec(target_dir@, name)) is None
                        && e is PathEscape,
                }
            },
        target_dir@.len() > 0 && relative_of(base@, target_dir@) is Some ==> r is Ok && exists|
            name: Seq<char>,
        |
            {
                &&& first_free(asset_base_name(source_name@), views(taken@), name)
                &&& r->Ok_0.1@ == join_relative(relative_of(base@, target_dir@)->Some_0, name)
            },
{
    let name = asset_file_name(source_name, taken);
    let abs = join_path(target_dir, name.as_str());
    proof {
        if target_dir@.len() > 0 && relative_of(base@, target_dir@) is Some {
            lemma_relative_of_child(base@, target_dir@, name@);
        }
    }
    match to_relative_string(base, abs.as_str()) {
        Ok(rel) => Ok((abs, rel)),
        Err(e) => Err(e),
    }
}

} // verus!
